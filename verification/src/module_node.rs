//! Identifiers, nodes of the module tree and the records kept for each file.
use vstd::prelude::*;

use crate::name_map::NameMap;

verus! {

/// The identifier of a source file.
#[derive(Debug, Clone, Copy, PartialEq, Eq, Hash, Structural)]
pub struct FileId {
    pub id: u32,
}

/// The identifier of a node of the module tree.
#[derive(Debug, Clone, Copy, PartialEq, Eq, Hash, Structural)]
pub struct ModuleNodeId {
    pub id: u32,
}

/// One segment of a dotted module path: its children by name, the files that
/// declare exactly this module, and the node above it.
pub struct ModuleNode {
    pub children: NameMap<ModuleNodeId>,
    pub file_ids: Vec<FileId>,
    pub parent: Option<ModuleNodeId>,
}

/// A node of the module tree as plain values.
#[verifier::ext_equal]
pub struct NodeView {
    pub children: Map<Seq<char>, u32>,
    pub file_ids: Seq<u32>,
    pub parent: Option<u32>,
}

/// The numeric form of an optional node identifier.
pub open spec fn opt_id(p: Option<ModuleNodeId>) -> Option<u32> {
    match p {
        Some(n) => Some(n.id),
        None => None,
    }
}

impl View for ModuleNode {
    type V = NodeView;

    open spec fn view(&self) -> NodeView {
        NodeView {
            children: self.children@.map_values(|c: ModuleNodeId| c.id),
            file_ids: self.file_ids@.map_values(|f: FileId| f.id),
            parent: opt_id(self.parent),
        }
    }
}

impl ModuleNode {
    /// A node with no children, no files and no parent.
    pub fn empty() -> (r: Self)
        ensures
            r@.children == Map::<Seq<char>, u32>::empty(),
            r@.file_ids == Seq::<u32>::empty(),
            r@.parent is None,
            r.children.distinct(),
    {
        let r = ModuleNode { children: NameMap::new(), file_ids: Vec::new(), parent: None };
        proof {
            assert(r@.children =~= Map::<Seq<char>, u32>::empty());
            assert(r@.file_ids =~= Seq::<u32>::empty());
        }
        r
    }
}

impl Default for ModuleNode {
    fn default() -> (r: Self)
        ensures
            r@.children == Map::<Seq<char>, u32>::empty(),
            r@.file_ids == Seq::<u32>::empty(),
            r@.parent is None,
    {
        ModuleNode::empty()
    }
}

/// A version number as written in a version condition.
#[derive(Debug, Clone, Copy, PartialEq, Eq, Hash)]
pub struct LuaVersionNumber {
    pub major: u32,
    pub minor: u32,
    pub patch: u32,
}

/// A condition on the Lua version under which a module is available.
#[derive(Debug, Clone, Copy, PartialEq, Eq, Hash)]
pub enum LuaVersionCondition {
    Eq(LuaVersionNumber),
    Gte(LuaVersionNumber),
    Lte(LuaVersionNumber),
}

/// What the index records for a file that declares a module.
pub struct ModuleInfo {
    pub file_id: FileId,
    pub full_module_name: String,
    pub name: String,
    pub module_id: ModuleNodeId,
    pub visible: bool,
    /// The type that the module exports, as written; none until it is known.
    pub export_type: Option<String>,
    pub version_conds: Option<Box<Vec<LuaVersionCondition>>>,
}

/// A module record as plain values.
#[verifier::ext_equal]
pub struct ModuleInfoView {
    pub file_id: u32,
    pub full_module_name: Seq<char>,
    pub name: Seq<char>,
    pub module_id: u32,
    pub visible: bool,
    pub export_type: Option<Seq<char>>,
    pub version_conds: Option<Seq<LuaVersionCondition>>,
}

impl View for ModuleInfo {
    type V = ModuleInfoView;

    open spec fn view(&self) -> ModuleInfoView {
        ModuleInfoView {
            file_id: self.file_id.id,
            full_module_name: self.full_module_name@,
            name: self.name@,
            module_id: self.module_id.id,
            visible: self.visible,
            export_type: match self.export_type {
                Some(t) => Some(t@),
                None => None,
            },
            version_conds: match self.version_conds {
                Some(v) => Some(v@),
                None => None,
            },
        }
    }
}

} // verus!
