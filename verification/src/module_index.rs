//! The index of Lua modules: which file declares which dotted module path, and the
//! tree of path segments that leads to them.
use std::collections::HashMap;
use std::sync::Arc;
use vstd::hash_map::StringHashMap;
use vstd::prelude::*;
use vstd::std_specs::iter::IteratorSpec;

use crate::module_node::{
    opt_id, FileId, LuaVersionCondition, ModuleInfo, ModuleInfoView, ModuleNode, ModuleNodeId,
    NodeView,
};
use crate::module_laws::{lemma_insert_consistent, lemma_remove_consistent};
use crate::module_lemmas::{
    hangs, lemma_attach_file, lemma_drop_file, lemma_grow_step, lemma_prune_step, pruning,
};
use crate::module_spec::{
    after_insert, after_remove, missing_segments, room_for, exact_find, files_linked, grow, names_with, tree_ok, lemma_resolve_present, find_module_file, find_node, fuzzy_find, fuzzy_pick,
    name_list, names_without, node_empty, other_than, prune, first_name_with, without_child, without_file, resolve, resolve_path, root_id, well_formed, IndexView,
};
use crate::emmyrc::{config_patterns, extension_names, extension_patterns, Emmyrc};
use crate::name_map::NameMap;
use crate::traits::LuaIndex;
use crate::patterns::{
    accepted_prefix, build_pattern_regex, byte_len, compiled_patterns, extract_module, longest_first,
    match_first, opt_view, paths_equal, pattern_regex, pick_shorter, regex_accepts, regex_capture,
    regex_compiles, same_path, sort_longest_first, strings_view, strip_path_prefix,
};
use crate::text::{
    decimal, dotted, ends_with_str, u64_to_decimal, has_suffix, lemma_split_on_nonempty, split_dots, split_on,
    to_dotted,
};

verus! {

broadcast use vstd::std_specs::hash::group_hash_axioms;

/// The module index.
pub struct LuaModuleIndex {
    module_patterns: Vec<String>,
    module_root_id: ModuleNodeId,
    module_nodes: HashMap<u32, ModuleNode>,
    file_module_map: HashMap<u32, ModuleInfo>,
    module_name_to_file_ids: NameMap<Vec<FileId>>,
    workspace_root: Vec<String>,
    id_counter: u32,
    fuzzy_search: bool,
}

/// The name table as plain values, in table order.
pub open spec fn names_view(m: NameMap<Vec<FileId>>) -> Seq<(Seq<char>, Seq<u32>)> {
    Seq::new(
        m.spec_len(),
        |i: int| (m.keys()[i], file_ids_view(m.values()[i]@)),
    )
}

/// The identifiers of a list of files.
pub open spec fn file_ids_view(v: Seq<FileId>) -> Seq<u32> {
    v.map_values(|f: FileId| f.id)
}

/// Whether `f` is listed in `v`.
pub fn contains_file(v: &Vec<FileId>, f: FileId) -> (r: bool)
    ensures
        r == file_ids_view(v@).contains(f.id),
{
    let mut i: usize = 0;
    while i < v.len()
        invariant
            i <= v@.len(),
            forall|j: int| 0 <= j < i ==> v@[j].id != f.id,
        decreases v.len() - i,
    {
        if v[i].id == f.id {
            proof {
                assert(file_ids_view(v@)[i as int] == f.id);
            }
            return true;
        }
        i = i + 1;
    }
    proof {
        if file_ids_view(v@).contains(f.id) {
            let j = choose|j: int| 0 <= j < v@.len() && file_ids_view(v@)[j] == f.id;
            assert(v@[j].id == f.id);
        }
    }
    false
}

/// The files listed in `v` other than `f`, in order.
pub fn file_ids_without(v: &Vec<FileId>, f: FileId) -> (r: Vec<FileId>)
    ensures
        file_ids_view(r@) == file_ids_view(v@).filter(other_than(f.id)),
{
    let mut r: Vec<FileId> = Vec::new();
    let mut i: usize = 0;
    while i < v.len()
        invariant
            i <= v@.len(),
            file_ids_view(r@) == file_ids_view(v@).take(i as int).filter(other_than(f.id)),
        decreases v.len() - i,
    {
        proof {
            reveal(Seq::filter);
            assert(file_ids_view(v@).take(i + 1).drop_last() =~= file_ids_view(v@).take(i as int));
        }
        if v[i].id != f.id {
            r.push(v[i]);
            proof {
                assert(file_ids_view(r@) =~= file_ids_view(v@).take(i as int).filter(
                    other_than(f.id),
                ).push(v@[i as int].id));
            }
        }
        i = i + 1;
    }
    proof {
        assert(file_ids_view(v@).take(v@.len() as int) =~= file_ids_view(v@));
    }
    r
}

/// `HashMap::get_mut` on a table keyed by `u32`: a reference to the value stored
/// under `k`, if any, through which the table itself is updated.
#[verifier::external_body]
fn table_get_mut<'a, V>(m: &'a mut HashMap<u32, V>, k: u32) -> (r: Option<&'a mut V>)
    ensures
        match r {
            Some(v) => old(m)@.contains_key(k) && *v == old(m)@[k] && final(m)@ == old(m)@.insert(
                k,
                *final(v),
            ),
            None => !old(m)@.contains_key(k) && final(m)@ == old(m)@,
        },
{
    m.get_mut(&k)
}

impl View for LuaModuleIndex {
    type V = IndexView;

    closed spec fn view(&self) -> IndexView {
        IndexView {
            nodes: self.module_nodes@.map_values(|n: ModuleNode| n@),
            files: self.file_module_map@.map_values(|i: ModuleInfo| i@),
            names: names_view(self.module_name_to_file_ids),
            patterns: self.module_patterns@.map_values(|s: String| s@),
            roots: self.workspace_root@.map_values(|s: String| s@),
            next_id: self.id_counter as nat,
            fuzzy: self.fuzzy_search,
        }
    }
}

impl LuaModuleIndex {
    /// The consistency conditions of the index.
    pub closed spec fn wf(&self) -> bool {
        &&& well_formed(self@)
        &&& self.module_root_id.id == root_id()
        &&& self.module_name_to_file_ids.distinct()
    }

    /// The module tree as plain values.
    closed spec fn nodes_view(&self) -> Map<u32, NodeView> {
        self.module_nodes@.map_values(|n: ModuleNode| n@)
    }

    /// The module records, as stored.
    pub closed spec fn infos(&self) -> Map<u32, ModuleInfo> {
        self.file_module_map@
    }

    /// The nodes, as stored.
    pub closed spec fn node_table(&self) -> Map<u32, ModuleNode> {
        self.module_nodes@
    }

    /// The stored records are what the view shows.
    pub proof fn lemma_views(&self)
        ensures
            forall|f: u32| #[trigger]
                self.infos().contains_key(f) ==> self@.files.contains_key(f) && self@.files[f]
                    == self.infos()[f]@,
            forall|f: u32| #[trigger] self@.files.contains_key(f) ==> self.infos().contains_key(f),
            forall|n: u32| #[trigger]
                self.node_table().contains_key(n) ==> self@.nodes.contains_key(n)
                    && self@.nodes[n] == self.node_table()[n]@,
            forall|n: u32| #[trigger] self@.nodes.contains_key(n) ==> self.node_table().contains_key(n),
    {
    }

    /// A consistent index satisfies the consistency conditions of its view, so
    /// the laws stated over `IndexView` apply to it.
    pub proof fn lemma_wf(&self)
        requires
            self.wf(),
        ensures
            well_formed(self@),
    {
    }

    /// An index with an empty root node and nothing else.
    pub fn new() -> (r: Self)
        ensures
            r.wf(),
            r@.nodes == Map::<u32, NodeView>::empty().insert(
                root_id(),
                NodeView {
                    children: Map::<Seq<char>, u32>::empty(),
                    file_ids: Seq::<u32>::empty(),
                    parent: None,
                },
            ),
            r@.files == Map::<u32, ModuleInfoView>::empty(),
            r@.names == Seq::<(Seq<char>, Seq<u32>)>::empty(),
            r@.patterns == Seq::<Seq<char>>::empty(),
            r@.roots == Seq::<Seq<char>>::empty(),
            r@.next_id == 1,
            !r@.fuzzy,
    {
        let mut index = LuaModuleIndex {
            module_patterns: Vec::new(),
            module_root_id: ModuleNodeId { id: 0 },
            module_nodes: HashMap::new(),
            file_module_map: HashMap::new(),
            module_name_to_file_ids: NameMap::new(),
            workspace_root: Vec::new(),
            id_counter: 1,
            fuzzy_search: false,
        };
        let root_node = ModuleNode::default();
        index.module_nodes.insert(index.module_root_id.id, root_node);
        proof {
            assert(index@.nodes =~= Map::<u32, NodeView>::empty().insert(
                root_id(),
                NodeView {
                    children: Map::<Seq<char>, u32>::empty(),
                    file_ids: Seq::<u32>::empty(),
                    parent: None,
                },
            ));
            assert(index@.files =~= Map::<u32, ModuleInfoView>::empty());
            assert(index@.names =~= Seq::<(Seq<char>, Seq<u32>)>::empty());
            assert(index@.patterns =~= Seq::<Seq<char>>::empty());
            assert(index@.roots =~= Seq::<Seq<char>>::empty());
        }
        index
    }

    /// The module record of a file.
    pub fn get_module(&self, file_id: FileId) -> (r: Option<&ModuleInfo>)
        ensures
            match r {
                Some(info) => self@.files.contains_key(file_id.id) && info@ == self@.files[file_id.id]
                    && *info == self.infos()[file_id.id],
                None => !self@.files.contains_key(file_id.id),
            },
    {
        self.file_module_map.get(&file_id.id)
    }

    /// The node with the given identifier.
    pub fn get_module_node(&self, module_id: &ModuleNodeId) -> (r: Option<&ModuleNode>)
        ensures
            match r {
                Some(node) => self@.nodes.contains_key(module_id.id) && node@ == self@.nodes[module_id.id],
                None => !self@.nodes.contains_key(module_id.id),
            },
    {
        self.module_nodes.get(&module_id.id)
    }

    /// The node that `parts` leads to from the root.
    fn walk(&self, parts: &Vec<String>) -> (r: Option<u32>)
        requires
            self.wf(),
        ensures
            r == resolve(self@.nodes, root_id(), parts@.map_values(|p: String| p@)),
    {
        let ghost ps = parts@.map_values(|p: String| p@);
        let mut cur: u32 = self.module_root_id.id;
        let mut i: usize = 0;
        proof {
            assert(ps.skip(0) =~= ps);
        }
        while i < parts.len()
            invariant
                i <= parts@.len(),
                ps == parts@.map_values(|p: String| p@),
                resolve(self@.nodes, root_id(), ps) == resolve(self@.nodes, cur, ps.skip(i as int)),
            decreases parts.len() - i,
        {
            proof {
                assert(ps.skip(i as int)[0] == parts@[i as int]@);
                assert(ps.skip(i as int).drop_first() =~= ps.skip(i + 1));
            }
            let node = match self.module_nodes.get(&cur) {
                Some(n) => n,
                None => {
                    return None;
                },
            };
            match node.children.get(parts[i].as_str()) {
                Some(c) => {
                    cur = c.id;
                },
                None => {
                    return None;
                },
            }
            i = i + 1;
        }
        proof {
            assert(ps.skip(i as int) =~= Seq::<Seq<char>>::empty());
        }
        match self.module_nodes.get(&cur) {
            Some(_) => Some(cur),
            None => None,
        }
    }

    /// Finds a module node by module path: a string of segments separated by
    /// dots, slashes or backslashes. "a.b.c" is the module "c" in the module "b"
    /// in the module "a"; the empty path is the root.
    pub fn find_module_node(&self, mod_path: &str) -> (r: Option<&ModuleNode>)
        requires
            self.wf(),
        ensures
            match r {
                Some(node) => find_node(self@, mod_path@) is Some && node@ == self@.nodes[find_node(
                    self@,
                    mod_path@,
                ).unwrap()],
                None => find_node(self@, mod_path@) is None,
            },
    {
        if mod_path.is_empty() {
            return self.module_nodes.get(&self.module_root_id.id);
        }
        let mod_path = to_dotted(mod_path);
        let module_parts = split_dots(mod_path.as_str());
        proof {
            lemma_split_on_nonempty(mod_path@, '.');
            lemma_resolve_present(self@.nodes, root_id(), split_on(mod_path@, '.'));
        }
        if module_parts.len() == 0 {
            return None;
        }
        match self.walk(&module_parts) {
            Some(id) => self.module_nodes.get(&id),
            None => None,
        }
    }

    /// The first file of the node that `parts` leads to.
    fn exact_find_module(&self, module_parts: &Vec<String>) -> (r: Option<&ModuleInfo>)
        requires
            self.wf(),
        ensures
            match r {
                Some(info) => exact_find(self@, module_parts@.map_values(|p: String| p@)) is Some
                    && *info == self.infos()[exact_find(
                    self@,
                    module_parts@.map_values(|p: String| p@),
                ).unwrap()],
                None => exact_find(self@, module_parts@.map_values(|p: String| p@)) is None,
            },
    {
        proof {
            lemma_resolve_present(self@.nodes, root_id(), module_parts@.map_values(|p: String| p@));
        }
        let id = match self.walk(module_parts) {
            Some(id) => id,
            None => {
                return None;
            },
        };
        let node = match self.module_nodes.get(&id) {
            Some(n) => n,
            None => {
                return None;
            },
        };
        if node.file_ids.len() == 0 {
            return None;
        }
        let file_id = node.file_ids[0];
        self.file_module_map.get(&file_id.id)
    }

    /// Looks a module up by the last segment of its path.
    fn fuzzy_find_module(&self, mod_path: &str, last_name: &str) -> (r: Option<&ModuleInfo>)
        requires
            self.wf(),
        ensures
            match r {
                Some(info) => fuzzy_find(self@, mod_path@, last_name@) is Some && *info
                    == self.infos()[fuzzy_find(self@, mod_path@, last_name@).unwrap()],
                None => fuzzy_find(self@, mod_path@, last_name@) is None,
            },
    {
        let file_ids = match self.module_name_to_file_ids.get(last_name) {
            Some(l) => l,
            None => {
                proof {
                    self.lemma_name_list_absent(last_name@);
                }
                return None;
            },
        };
        proof {
            self.lemma_name_list_present(last_name@);
        }
        let ghost list = file_ids_view(file_ids@);
        proof {
            assert(list.skip(0) =~= list);
        }
        if file_ids.len() == 1 {
            return self.file_module_map.get(&file_ids[0].id);
        }
        proof {
            assert(fuzzy_find(self@, mod_path@, last_name@) == fuzzy_pick(self@.files, list, mod_path@));
        }
        let mut i: usize = 0;
        while i < file_ids.len()
            invariant
                i <= file_ids@.len(),
                list == file_ids_view(file_ids@),
                fuzzy_find(self@, mod_path@, last_name@) == fuzzy_pick(self@.files, list, mod_path@),
                fuzzy_pick(self@.files, list, mod_path@) == fuzzy_pick(
                    self@.files,
                    list.skip(i as int),
                    mod_path@,
                ),
            decreases file_ids.len() - i,
        {
            proof {
                assert(list.skip(i as int)[0] == file_ids@[i as int].id);
                assert(list.skip(i as int).drop_first() =~= list.skip(i + 1));
            }
            let module_info = match self.file_module_map.get(&file_ids[i].id) {
                Some(info) => info,
                None => {
                    return None;
                },
            };
            if ends_with_str(module_info.full_module_name.as_str(), mod_path) {
                return Some(module_info);
            }
            i = i + 1;
        }
        proof {
            assert(list.skip(i as int) =~= Seq::<u32>::empty());
        }
        None
    }

    /// Finds the record of the module with the given path. Slashes and
    /// backslashes count as dots. An exact match in the module tree is tried
    /// first; when fuzzy lookups are on, a match by the last segment follows.
    pub fn find_module(&self, mod_path: &str) -> (r: Option<&ModuleInfo>)
        requires
            self.wf(),
        ensures
            match r {
                Some(info) => find_module_file(self@, mod_path@) is Some && *info
                    == self.infos()[find_module_file(self@, mod_path@).unwrap()],
                None => find_module_file(self@, mod_path@) is None,
            },
    {
        let mod_path = to_dotted(mod_path);
        let module_parts = split_dots(mod_path.as_str());
        proof {
            lemma_split_on_nonempty(mod_path@, '.');
        }
        if module_parts.len() == 0 {
            return None;
        }
        let result = self.exact_find_module(&module_parts);
        if result.is_some() {
            return result;
        }
        if self.fuzzy_search {
            let last = module_parts.len() - 1;
            proof {
                assert(module_parts@[last as int]@ == split_on(mod_path@, '.').last());
            }
            return self.fuzzy_find_module(mod_path.as_str(), module_parts[last].as_str());
        }
        None
    }

    /// The name table lookup agrees with `name_list` when the name is absent.
    proof fn lemma_name_list_absent(&self, name: Seq<char>)
        requires
            self.wf(),
            !self.module_name_to_file_ids@.contains_key(name),
        ensures
            name_list(self@.names, name) is None,
    {
        let m = self.module_name_to_file_ids;
        if exists|i: int| 0 <= i < self@.names.len() && (#[trigger] self@.names[i]).0 == name {
            let i = choose|i: int| 0 <= i < self@.names.len() && (#[trigger] self@.names[i]).0 == name;
            assert(m.keys()[i] == name);
            assert(m@.contains_key(name));
        }
    }

    /// The name table lookup agrees with `name_list` when the name is present.
    proof fn lemma_name_list_present(&self, name: Seq<char>)
        requires
            self.wf(),
            self.module_name_to_file_ids@.contains_key(name),
        ensures
            name_list(self@.names, name) == Some(
                file_ids_view(self.module_name_to_file_ids@[name]@),
            ),
    {
        let m = self.module_name_to_file_ids;
        let j = m.keys().index_of(name);
        assert(m.keys()[j] == name);
        assert(self@.names[j].0 == name);
        let i = choose|i: int| 0 <= i < self@.names.len() && (#[trigger] self@.names[i]).0 == name;
        assert(m.keys()[i] == name);
        assert(i == j);
    }

    /// Drops the first entry of the name table that lists `file_id`: the file leaves
    /// the list, and a list left empty leaves the table with its name. A list filed
    /// under the empty name is left alone.
    fn clean_names(&mut self, file_id: FileId)
        requires
            old(self).module_name_to_file_ids.distinct(),
        ensures
            final(self)@ == (IndexView { names: names_without(old(self)@.names, file_id.id), ..old(self)@ }),
            final(self).module_name_to_file_ids.distinct(),
            final(self).module_root_id == old(self).module_root_id,
    {
        let ghost f = file_id.id;
        let ghost names = self@.names;
        let n = self.module_name_to_file_ids.len();
        let mut i: usize = 0;
        let mut found: Option<usize> = None;
        while i < n
            invariant_except_break
                found is None,
            invariant
                n == self.module_name_to_file_ids.spec_len(),
                f == file_id.id,
                names == self@.names,
                names.len() == n,
                i <= n,
                forall|j: int| 0 <= j < i ==> !(#[trigger] names[j]).1.contains(f),
            ensures
                match found {
                    Some(k) => k < n && names[k as int].1.contains(f) && forall|j: int|
                        0 <= j < k ==> !(#[trigger] names[j]).1.contains(f),
                    None => forall|j: int| 0 <= j < n ==> !(#[trigger] names[j]).1.contains(f),
                },
            decreases n - i,
        {
            let v = self.module_name_to_file_ids.value_at(i);
            let has = contains_file(v, file_id);
            proof {
                assert(names[i as int] == (
                    self.module_name_to_file_ids.keys()[i as int],
                    file_ids_view(v@),
                ));
            }
            if has {
                proof {
                    assert(names[i as int].1.contains(f));
                }
                found = Some(i);
                break;
            }
            proof {
                assert(!names[i as int].1.contains(f));
            }
            i = i + 1;
        }
        let k = match found {
            Some(k) => k,
            None => {
                proof {
                    assert(first_name_with(names, f) is None);
                }
                return;
            },
        };
        proof {
            let c = choose|j: int|
                0 <= j < names.len() && (#[trigger] names[j]).1.contains(f) && forall|l: int|
                    0 <= l < j ==> !(#[trigger] names[l]).1.contains(f);
            assert(names[k as int].1.contains(f));
            if c < k {
            } else if c > k {
                assert(!names[k as int].1.contains(f));
            }
            assert(first_name_with(names, f) == Some(k as int));
        }
        if self.module_name_to_file_ids.key_at(k).as_str().is_empty() {
            return;
        }
        let ghost keys0 = self.module_name_to_file_ids.keys();
        let ghost values0 = self.module_name_to_file_ids.values();
        let entry = self.module_name_to_file_ids.remove_at(k);
        let (name, list) = entry;
        let kept = file_ids_without(&list, file_id);
        if kept.len() != 0 {
            proof {
                assert(!self.module_name_to_file_ids.keys().contains(name@)) by {
                    if self.module_name_to_file_ids.keys().contains(name@) {
                        let j = choose|j: int| 0 <= j < self.module_name_to_file_ids.keys().len()
                            && self.module_name_to_file_ids.keys()[j] == name@;
                        if j < k {
                            assert(keys0[j] == name@);
                        } else {
                            assert(keys0[j + 1] == name@);
                        }
                    }
                }
            }
            self.module_name_to_file_ids.insert_at(k, name, kept);
            proof {
                assert(self.module_name_to_file_ids.keys() =~= keys0);
                assert(self.module_name_to_file_ids.values() =~= values0.update(k as int, kept));
                assert(self@.names =~= names.update(k as int, (names[k as int].0, names[k as int].1.filter(other_than(f)))));
            }
        } else {
            proof {
                assert(self@.names =~= names.remove(k as int));
            }
        }
    }

    /// Drops the module record of a file. The file leaves its node; a node left
    /// with neither files nor children is detached from its parent, ancestors
    /// that become empty are deleted up to the root, and when that walk ends
    /// below the root the file also leaves the table of names.
    pub fn remove_file(&mut self, file_id: FileId)
        requires
            old(self).wf(),
        ensures
            final(self).wf(),
            final(self)@ == after_remove(old(self)@, file_id.id),
    {
        let f = file_id.id;
        let ghost s = self@;
        let removed = self.file_module_map.remove(&f);
        let info = match removed {
            Some(i) => i,
            None => {
                proof {
                    assert(self@.files =~= s.files);
                    assert(self@ =~= s);
                }
                return;
            },
        };
        proof {
            lemma_drop_file(s, f);
        }
        let m = info.module_id.id;
        let mut node = self.module_nodes.remove(&m).unwrap();
        let kept = file_ids_without(&node.file_ids, file_id);
        node.file_ids = kept;
        let now_empty = node.file_ids.len() == 0 && node.children.is_empty();
        let parent = node.parent;
        self.module_nodes.insert(m, node);
        proof {
            assert(self@.nodes =~= s.nodes.insert(m, without_file(s.nodes[m], f)));
            assert(self@.files =~= s.files.remove(f));
        }
        if !now_empty || parent.is_none() {
            proof {
                assert(self@ =~= after_remove(s, f));
                lemma_remove_consistent(s, f);
            }
            return;
        }
        let mut parent_id: Option<ModuleNodeId> = parent;
        let mut child_id: u32 = m;
        let mut cleanup = true;
        let ghost nodes1 = self.nodes_view();
        let ghost files1 = self@.files;
        let ghost next = self@.next_id;
        let ghost target = prune(nodes1, opt_id(parent), m);
        let ghost fm0 = self.file_module_map@;
        let ghost nm0 = self.module_name_to_file_ids;
        let ghost mp0 = self.module_patterns@;
        let ghost wr0 = self.workspace_root@;
        let ghost ic0 = self.id_counter;
        let ghost fz0 = self.fuzzy_search;
        let ghost rid0 = self.module_root_id;
        proof {
            assert(nodes1 == self@.nodes);
        }
        loop
            invariant_except_break
                parent_id is Some,
                cleanup,
                pruning(self.nodes_view(), files1, next, parent_id.unwrap().id, child_id),
                prune(self.nodes_view(), opt_id(parent_id), child_id) == target,
            invariant
                self.file_module_map@ == fm0,
                self.module_name_to_file_ids == nm0,
                self.module_patterns@ == mp0,
                self.workspace_root@ == wr0,
                self.id_counter == ic0,
                self.fuzzy_search == fz0,
                self.module_root_id == rid0,
                rid0.id == root_id(),
            ensures
                self.nodes_view() == target.0,
                target.1 == cleanup,
                tree_ok(self.nodes_view(), files1, next),
            decreases child_id,
        {
            let pid = parent_id.unwrap();
            let id = pid.id;
            let ghost nodes0 = self.nodes_view();
            let ghost c0 = child_id;
            proof {
                lemma_prune_step(nodes0, files1, next, id, child_id);
            }
            let mut pnode = self.module_nodes.remove(&id).unwrap();
            pnode.children.remove_value(ModuleNodeId { id: child_id });
            proof {
                assert(pnode@.children =~= without_child(nodes0[id], child_id).children);
                assert(pnode@ =~= without_child(nodes0[id], child_id));
            }
            if id == self.module_root_id.id {
                self.module_nodes.insert(id, pnode);
                proof {
                    assert(self.nodes_view() =~= nodes0.insert(id, without_child(nodes0[id], child_id)));
                }
                cleanup = false;
                break;
            }
            let emptied = pnode.file_ids.len() == 0 && pnode.children.is_empty();
            proof {
                assert(pnode@.children.dom() =~= pnode.children@.dom());
                assert(emptied == node_empty(without_child(nodes0[id], c0)));
                assert(id != root_id());
            }
            if emptied {
                child_id = id;
                parent_id = pnode.parent;
                proof {
                    let n2 = without_child(nodes0[id], c0);
                    assert(self.nodes_view() =~= nodes0.insert(id, n2).remove(id));
                    assert(opt_id(parent_id) == n2.parent);
                    assert(prune(nodes0, Some(id), c0) == prune(nodes0.insert(id, n2).remove(id), n2.parent, id));
                }
            } else {
                self.module_nodes.insert(id, pnode);
                proof {
                    assert(self.nodes_view() =~= nodes0.insert(id, without_child(nodes0[id], c0)));
                    assert(prune(nodes0, Some(id), c0) == (nodes0.insert(id, without_child(nodes0[id], c0)), true));
                }
                break;
            }
        }
        proof {
            assert(self@.nodes == target.0);
            assert(self@.files =~= files1);
        }
        if cleanup && !self.module_name_to_file_ids.is_empty() {
            self.clean_names(file_id);
        }
        proof {
            assert(self@ =~= after_remove(s, f));
            lemma_remove_consistent(s, f);
        }
    }

    /// Appends `file_id` to the list filed under `name`, creating the list when
    /// the name is new.
    fn file_under_name(&mut self, name: String, file_id: FileId)
        requires
            old(self).module_name_to_file_ids.distinct(),
        ensures
            final(self)@ == (IndexView {
                names: names_with(old(self)@.names, name@, file_id.id),
                ..old(self)@
            }),
            final(self).module_name_to_file_ids.distinct(),
            final(self).module_root_id == old(self).module_root_id,
    {
        let ghost names = self@.names;
        let ghost keys0 = self.module_name_to_file_ids.keys();
        let ghost values0 = self.module_name_to_file_ids.values();
        match self.module_name_to_file_ids.position(name.as_str()) {
            Some(i) => {
                proof {
                    assert(names[i as int].0 == name@);
                    let c = choose|j: int| 0 <= j < names.len() && (#[trigger] names[j]).0 == name@;
                    assert(keys0[c] == name@);
                    assert(c == i);
                }
                let (k, mut list) = self.module_name_to_file_ids.remove_at(i);
                list.push(file_id);
                proof {
                    assert(!self.module_name_to_file_ids.keys().contains(k@)) by {
                        if self.module_name_to_file_ids.keys().contains(k@) {
                            let j = choose|j: int| 0 <= j < self.module_name_to_file_ids.keys().len()
                                && self.module_name_to_file_ids.keys()[j] == k@;
                            if j < i {
                                assert(keys0[j] == k@);
                            } else {
                                assert(keys0[j + 1] == k@);
                            }
                        }
                    }
                }
                self.module_name_to_file_ids.insert_at(i, k, list);
                proof {
                    assert(self.module_name_to_file_ids.keys() =~= keys0);
                    assert(self.module_name_to_file_ids.values() =~= values0.update(i as int, list));
                    assert(file_ids_view(list@) =~= names[i as int].1.push(file_id.id));
                    assert(self@.names =~= names_with(names, name@, file_id.id));
                }
            },
            None => {
                let mut list: Vec<FileId> = Vec::new();
                list.push(file_id);
                let ghost nm = name@;
                self.module_name_to_file_ids.insert(name, list);
                proof {
                    assert(!(exists|j: int| 0 <= j < names.len() && (#[trigger] names[j]).0 == nm)) by {
                        if exists|j: int| 0 <= j < names.len() && (#[trigger] names[j]).0 == nm {
                            let j = choose|j: int| 0 <= j < names.len() && (#[trigger] names[j]).0 == nm;
                            assert(keys0[j] == nm);
                        }
                    }
                    assert(file_ids_view(list@) =~= seq![file_id.id]);
                    assert(self@.names =~= names_with(names, nm, file_id.id));
                }
            },
        }
    }

    /// Follows `module_parts` from the root, creating each missing node with the
    /// next free identifier, and returns the node reached.
    fn grow_path(&mut self, module_parts: &Vec<String>) -> (m: u32)
        requires
            tree_ok(old(self)@.nodes, old(self)@.files, old(self)@.next_id),
            old(self).module_root_id.id == root_id(),
            module_parts@.len() >= 1,
            old(self)@.next_id + missing_segments(
                old(self)@.nodes,
                root_id(),
                module_parts@.map_values(|p: String| p@),
            ) <= u32::MAX,
        ensures
            grow(
                old(self)@.nodes,
                root_id(),
                module_parts@.map_values(|p: String| p@),
                old(self)@.next_id,
            ) == (final(self)@.nodes, m, final(self)@.next_id),
            final(self)@ == (IndexView {
                nodes: final(self)@.nodes,
                next_id: final(self)@.next_id,
                ..old(self)@
            }),
            tree_ok(final(self)@.nodes, final(self)@.files, final(self)@.next_id),
            final(self)@.nodes.contains_key(m),
            hangs(final(self)@.nodes, m),
            m != root_id(),
            final(self).module_root_id == old(self).module_root_id,
            final(self).module_name_to_file_ids == old(self).module_name_to_file_ids,
            final(self).file_module_map == old(self).file_module_map,
    {
        let ghost s1 = self@;
        let ghost parts = module_parts@.map_values(|p: String| p@);
        let ghost target = grow(s1.nodes, root_id(), parts, s1.next_id);
        proof {
            assert(parts.skip(0) =~= parts);
        }
        let mut parent_node_id: u32 = self.module_root_id.id;
        let mut i: usize = 0;
        while i < module_parts.len()
            invariant
                i <= module_parts@.len(),
                module_parts@.map_values(|p: String| p@) == parts,
                parts.len() >= 1,
                tree_ok(self@.nodes, self@.files, self@.next_id),
                self@.nodes.contains_key(parent_node_id),
                hangs(self@.nodes, parent_node_id),
                i > 0 ==> parent_node_id != root_id(),
                self@.next_id + missing_segments(self@.nodes, parent_node_id, parts.skip(i as int))
                    <= u32::MAX,
                grow(self@.nodes, parent_node_id, parts.skip(i as int), self@.next_id) == target,
                self@ == (IndexView { nodes: self@.nodes, next_id: self@.next_id, ..s1 }),
                self.module_root_id == old(self).module_root_id,
                self.module_root_id.id == root_id(),
                self.module_name_to_file_ids == old(self).module_name_to_file_ids,
                self.file_module_map == old(self).file_module_map,
            decreases module_parts.len() - i,
        {
            let ghost nodes0 = self@.nodes;
            let ghost next0 = self@.next_id;
            let ghost part = parts[i as int];
            proof {
                assert(module_parts@[i as int]@ == part);
                lemma_grow_step(nodes0, self@.files, next0, parent_node_id, part);
                assert(parts.skip(i as int)[0] == part);
                assert(parts.skip(i as int).drop_first() =~= parts.skip(i + 1));
            }
            let mut parent_node = self.module_nodes.remove(&parent_node_id).unwrap();
            let ghost created: bool;
            let child_id = match parent_node.children.get(module_parts[i].as_str()) {
                Some(id) => {
                    proof {
                        created = false;
                    }
                    *id
                },
                None => {
                    let new_id = ModuleNodeId { id: self.id_counter };
                    let key = module_parts[i].clone();
                    parent_node.children.insert(key, new_id);
                    proof {
                        created = true;
                    }
                    new_id
                },
            };
            self.module_nodes.insert(parent_node_id, parent_node);
            proof {
                if created {
                    assert(!nodes0[parent_node_id].children.contains_key(part));
                    assert(parent_node@.children =~= nodes0[parent_node_id].children.insert(part, next0 as u32));
                    assert(!self.module_nodes@.contains_key(child_id.id));
                } else {
                    assert(nodes0[parent_node_id].children.contains_key(part));
                    assert(child_id.id == nodes0[parent_node_id].children[part]);
                    assert(self.module_nodes@.contains_key(child_id.id));
                    assert(self@.nodes =~= nodes0);
                }
            }
            if !self.module_nodes.contains_key(&child_id.id) {
                let new_node = ModuleNode {
                    children: NameMap::new(),
                    file_ids: Vec::new(),
                    parent: Some(ModuleNodeId { id: parent_node_id }),
                };
                self.module_nodes.insert(child_id.id, new_node);
                self.id_counter = self.id_counter + 1;
                proof {
                    assert(new_node@ =~= NodeView {
                        children: Map::<Seq<char>, u32>::empty(),
                        file_ids: Seq::<u32>::empty(),
                        parent: Some(parent_node_id),
                    });
                    assert(self@.nodes =~= nodes0.insert(
                        parent_node_id,
                        NodeView {
                            children: nodes0[parent_node_id].children.insert(part, next0 as u32),
                            file_ids: nodes0[parent_node_id].file_ids,
                            parent: nodes0[parent_node_id].parent,
                        },
                    ).insert(
                        next0 as u32,
                        NodeView {
                            children: Map::<Seq<char>, u32>::empty(),
                            file_ids: Seq::<u32>::empty(),
                            parent: Some(parent_node_id),
                        },
                    ));
                }
            }
            parent_node_id = child_id.id;
            i = i + 1;
        }
        proof {
            assert(parts.skip(i as int) =~= Seq::<Seq<char>>::empty());
        }
        parent_node_id
    }

    /// Files `file_id` under the dotted module path `mod_path`, after dropping any
    /// record it had. Each missing segment of the path gets a new node; the file
    /// joins the node of the last segment, and, when fuzzy lookups are on, the
    /// list filed under the last segment.
    pub fn add_module_by_module_path(&mut self, file_id: FileId, mod_path: String) -> (r: Option<()>)
        requires
            old(self).wf(),
            room_for(old(self)@, file_id.id, mod_path@),
        ensures
            final(self).wf(),
            r == Some(()),
            final(self)@ == after_insert(after_remove(old(self)@, file_id.id), file_id.id, mod_path@),
    {
        if self.file_module_map.contains_key(&file_id.id) {
            self.remove_file(file_id);
        } else {
            proof {
                assert(after_remove(old(self)@, file_id.id) == old(self)@);
            }
        }
        let ghost s1 = self@;
        let module_parts = split_dots(mod_path.as_str());
        proof {
            lemma_split_on_nonempty(mod_path@, '.');
        }
        if module_parts.len() == 0 {
            return None;
        }
        let m = self.grow_path(&module_parts);
        self.attach_file(file_id, mod_path, &module_parts, m);
        proof {
            assert(self@ =~= after_insert(s1, file_id.id, mod_path@));
            lemma_remove_consistent(old(self)@, file_id.id);
            lemma_insert_consistent(s1, file_id.id, mod_path@);
        }
        Some(())
    }

    /// How many of the segments `parts` have no node yet, following them from
    /// the root.
    fn missing_count(&self, parts: &Vec<String>) -> (r: usize)
        requires
            self.wf(),
        ensures
            r == missing_segments(self@.nodes, root_id(), parts@.map_values(|p: String| p@)),
    {
        let ghost ps = parts@.map_values(|p: String| p@);
        let mut cur: u32 = self.module_root_id.id;
        let mut i: usize = 0;
        proof {
            assert(ps.skip(0) =~= ps);
        }
        while i < parts.len()
            invariant
                i <= parts@.len(),
                ps == parts@.map_values(|p: String| p@),
                self.wf(),
                self@.nodes.contains_key(cur),
                missing_segments(self@.nodes, root_id(), ps) == missing_segments(
                    self@.nodes,
                    cur,
                    ps.skip(i as int),
                ),
            decreases parts.len() - i,
        {
            proof {
                assert(ps.skip(i as int)[0] == parts@[i as int]@);
                assert(ps.skip(i as int).drop_first() =~= ps.skip(i + 1));
            }
            let node = self.module_nodes.get(&cur).unwrap();
            match node.children.get(parts[i].as_str()) {
                Some(c) => {
                    proof {
                        assert(self@.nodes[cur].children.contains_key(ps[i as int]));
                    }
                    cur = c.id;
                },
                None => {
                    return parts.len() - i;
                },
            }
            i = i + 1;
        }
        proof {
            assert(ps.skip(i as int) =~= Seq::<Seq<char>>::empty());
        }
        0
    }

    /// Like `add_module_by_module_path`, but checks that the path leaves room for
    /// its new nodes among the node identifiers. Any old record of the file is
    /// dropped first; when there is no room, nothing is filed and the result is
    /// `None`.
    pub fn try_add_module_by_module_path(&mut self, file_id: FileId, mod_path: String) -> (r: Option<()>)
        requires
            old(self).wf(),
        ensures
            final(self).wf(),
            room_for(old(self)@, file_id.id, mod_path@) ==> r == Some(()) && final(self)@
                == after_insert(after_remove(old(self)@, file_id.id), file_id.id, mod_path@),
            !room_for(old(self)@, file_id.id, mod_path@) ==> r is None && final(self)@
                == after_remove(old(self)@, file_id.id),
    {
        if self.file_module_map.contains_key(&file_id.id) {
            self.remove_file(file_id);
        } else {
            proof {
                assert(after_remove(old(self)@, file_id.id) == old(self)@);
            }
        }
        let ghost s1 = self@;
        proof {
            assert(after_remove(s1, file_id.id) == s1);
        }
        let parts = split_dots(mod_path.as_str());
        let missing = self.missing_count(&parts);
        if missing as u64 > (u32::MAX - self.id_counter) as u64 {
            return None;
        }
        self.add_module_by_module_path(file_id, mod_path)
    }

    /// Files `file_id`, which has no record, at node `m` under the path `mod_path`.
    fn attach_file(&mut self, file_id: FileId, mod_path: String, module_parts: &Vec<String>, m: u32)
        requires
            tree_ok(old(self)@.nodes, old(self)@.files, old(self)@.next_id),
            old(self).module_root_id.id == root_id(),
            old(self).module_name_to_file_ids.distinct(),
            old(self)@.nodes.contains_key(m),
            hangs(old(self)@.nodes, m),
            m != root_id(),
            !old(self)@.files.contains_key(file_id.id),
            module_parts@.len() >= 1,
            module_parts@.map_values(|p: String| p@) == split_on(mod_path@, '.'),
        ensures
            tree_ok(final(self)@.nodes, final(self)@.files, final(self)@.next_id),
            final(self).module_root_id == old(self).module_root_id,
            final(self).module_name_to_file_ids.distinct(),
            ({
                let parts = split_on(mod_path@, '.');
                let node = old(self)@.nodes[m];
                let info = ModuleInfoView {
                    file_id: file_id.id,
                    full_module_name: mod_path@,
                    name: parts.last(),
                    module_id: m,
                    visible: true,
                    export_type: None,
                    version_conds: None,
                };
                final(self)@ == (IndexView {
                    nodes: old(self)@.nodes.insert(
                        m,
                        NodeView {
                            children: node.children,
                            file_ids: node.file_ids.push(file_id.id),
                            parent: node.parent,
                        },
                    ),
                    files: old(self)@.files.insert(file_id.id, info),
                    names: if old(self)@.fuzzy {
                        names_with(old(self)@.names, parts.last(), file_id.id)
                    } else {
                        old(self)@.names
                    },
                    ..old(self)@
                })
            }),
    {
        let ghost s1 = self@;
        let ghost parts = split_on(mod_path@, '.');
        let mut node = self.module_nodes.remove(&m).unwrap();
        node.file_ids.push(file_id);
        proof {
            assert(node@.file_ids =~= s1.nodes[m].file_ids.push(file_id.id));
            assert(node@ =~= NodeView {
                children: s1.nodes[m].children,
                file_ids: s1.nodes[m].file_ids.push(file_id.id),
                parent: s1.nodes[m].parent,
            });
        }
        self.module_nodes.insert(m, node);
        let last = module_parts.len() - 1;
        let module_name = module_parts[last].clone();
        let module_info = ModuleInfo {
            file_id,
            full_module_name: mod_path,
            name: module_name.clone(),
            module_id: ModuleNodeId { id: m },
            visible: true,
            export_type: None,
            version_conds: None,
        };
        proof {
            assert(module_parts@[last as int]@ == parts.last());
            lemma_attach_file(s1.nodes, s1.files, s1.next_id, m, file_id.id, module_info@);
            assert(self@.nodes =~= s1.nodes.insert(
                m,
                NodeView {
                    children: s1.nodes[m].children,
                    file_ids: s1.nodes[m].file_ids.push(file_id.id),
                    parent: s1.nodes[m].parent,
                },
            ));
        }
        self.file_module_map.insert(file_id.id, module_info);
        proof {
            assert(self@.files =~= s1.files.insert(file_id.id, module_info@));
        }
        if self.fuzzy_search {
            self.file_under_name(module_name, file_id);
        }
    }

    /// `self` and `other` differ at most in their module records.
    pub closed spec fn same_but_records(&self, other: &Self) -> bool {
        &&& self.module_patterns == other.module_patterns
        &&& self.module_root_id == other.module_root_id
        &&& self.module_nodes == other.module_nodes
        &&& self.module_name_to_file_ids == other.module_name_to_file_ids
        &&& self.workspace_root == other.workspace_root
        &&& self.id_counter == other.id_counter
        &&& self.fuzzy_search == other.fuzzy_search
    }

    /// Replacing the record of a file by one with the same file and node changes
    /// only that record in the view, and keeps the index consistent.
    pub proof fn lemma_replace_record(&self, other: &Self, f: u32)
        requires
            self.same_but_records(other),
            self.infos().contains_key(f),
            other.infos() == self.infos().insert(f, other.infos()[f]),
        ensures
            other@ == (IndexView { files: self@.files.insert(f, other.infos()[f]@), ..self@ }),
            (self.wf() && other.infos()[f].file_id == self.infos()[f].file_id
                && other.infos()[f].module_id == self.infos()[f].module_id) ==> other.wf(),
    {
        assert(other@.files =~= self@.files.insert(f, other.infos()[f]@));
        assert(other@ =~= (IndexView { files: self@.files.insert(f, other.infos()[f]@), ..self@ }));
        if self.wf() && other.infos()[f].file_id == self.infos()[f].file_id
            && other.infos()[f].module_id == self.infos()[f].module_id {
            assert(other@.files[f].module_id == self@.files[f].module_id);
            assert(other@.files.dom() =~= self@.files.dom());
            assert(files_linked(other@.nodes, other@.files));
        }
    }

    /// The module record of a file, for in-place changes. Only that record can
    /// change; see `lemma_replace_record` for what the change does to the index.
    pub fn get_module_mut(&mut self, file_id: FileId) -> (r: Option<&mut ModuleInfo>)
        ensures
            final(self).same_but_records(old(self)),
            match r {
                Some(info) => {
                    &&& old(self).infos().contains_key(file_id.id)
                    &&& *info == old(self).infos()[file_id.id]
                    &&& final(self).infos() == old(self).infos().insert(file_id.id, *final(info))
                },
                None => {
                    &&& !old(self).infos().contains_key(file_id.id)
                    &&& final(self).infos() == old(self).infos()
                },
            },
    {
        table_get_mut(&mut self.file_module_map, file_id.id)
    }

    /// Sets whether the module of a file is visible; files without a record are
    /// ignored.
    pub fn set_module_visibility(&mut self, file_id: FileId, visible: bool)
        requires
            old(self).wf(),
        ensures
            final(self).wf(),
            final(self)@ == if old(self)@.files.contains_key(file_id.id) {
                IndexView {
                    files: old(self)@.files.insert(
                        file_id.id,
                        ModuleInfoView { visible, ..old(self)@.files[file_id.id] },
                    ),
                    ..old(self)@
                }
            } else {
                old(self)@
            },
    {
        if let Some(module_info) = self.get_module_mut(file_id) {
            module_info.visible = visible;
        }
        proof {
            if old(self)@.files.contains_key(file_id.id) {
                old(self).lemma_replace_record(self, file_id.id);
                assert(self.infos()[file_id.id]@ =~= ModuleInfoView {
                    visible,
                    ..old(self)@.files[file_id.id]
                });
            } else {
                assert(self@ =~= old(self)@);
            }
        }
    }

    /// Sets the version conditions of the module of a file; files without a
    /// record are ignored.
    pub fn set_module_version_conds(&mut self, file_id: FileId, version_conds: Vec<LuaVersionCondition>)
        requires
            old(self).wf(),
        ensures
            final(self).wf(),
            final(self)@ == if old(self)@.files.contains_key(file_id.id) {
                IndexView {
                    files: old(self)@.files.insert(
                        file_id.id,
                        ModuleInfoView {
                            version_conds: Some(version_conds@),
                            ..old(self)@.files[file_id.id]
                        },
                    ),
                    ..old(self)@
                }
            } else {
                old(self)@
            },
    {
        let ghost conds = version_conds@;
        if let Some(module_info) = self.get_module_mut(file_id) {
            module_info.version_conds = Some(Box::new(version_conds));
        }
        proof {
            if old(self)@.files.contains_key(file_id.id) {
                old(self).lemma_replace_record(self, file_id.id);
                assert(self.infos()[file_id.id]@ =~= ModuleInfoView {
                    version_conds: Some(conds),
                    ..old(self)@.files[file_id.id]
                });
            } else {
                assert(self@ =~= old(self)@);
            }
        }
    }

    /// All module records, in table order.
    pub fn get_module_infos(&self) -> (r: Vec<&ModuleInfo>)
        ensures
            r@.len() == self.infos().dom().len(),
            forall|i: int| 0 <= i < r@.len() ==> self.infos().values().contains(*#[trigger] r@[i]),
            forall|v: ModuleInfo| #[trigger] self.infos().values().contains(v) ==> exists|i: int|
                0 <= i < r@.len() && *r@[i] == v,
            self.wf() ==> r@.map_values(|i: &ModuleInfo| i.file_id.id).no_duplicates(),
            self.wf() ==> r@.map_values(|i: &ModuleInfo| i.file_id.id).to_set() == self@.files.dom(),
            self.wf() ==> forall|i: int|
                0 <= i < r@.len() ==> self.infos().contains_key(#[trigger] r@[i].file_id.id) && *r@[i]
                    == self.infos()[r@[i].file_id.id],
    {
        let mut r: Vec<&ModuleInfo> = Vec::new();
        let ghost all = vstd::std_specs::hash::spec_values_iter(&self.file_module_map).remaining();
        for info in it: self.file_module_map.values()
            invariant
                it.seq() == all,
                r@ == it.seq().take(it.index() as int),
        {
            r.push(info);
            proof {
                assert(r@ =~= it.seq().take(it.index() + 1));
            }
        }
        proof {
            assert(r@ =~= all);
            let vals = all.unref();
            assert(vals.to_set() == self.infos().values());
            assert forall|i: int| 0 <= i < r@.len() implies self.infos().values().contains(*#[trigger] r@[i]) by {
                assert(vals[i] == *r@[i]);
                assert(vals.to_set().contains(vals[i]));
            }
            assert forall|v: ModuleInfo| #[trigger] self.infos().values().contains(v) implies exists|i: int|
                0 <= i < r@.len() && *r@[i] == v by {
                assert(vals.to_set().contains(v));
                let i = choose|i: int| 0 <= i < vals.len() && vals[i] == v;
                assert(*r@[i] == v);
            }
            if self.wf() {
                let ids = r@.map_values(|i: &ModuleInfo| i.file_id.id);
                let dom = self@.files.dom();
                assert(dom =~= self.infos().dom());
                assert forall|k: u32| #[trigger] ids.to_set().contains(k) <==> dom.contains(k) by {
                    if ids.to_set().contains(k) {
                        let i = choose|i: int| 0 <= i < ids.len() && ids[i] == k;
                        assert(self.infos().values().contains(*r@[i]));
                        let key = choose|key: u32| #[trigger] self.infos().contains_key(key)
                            && self.infos()[key] == *r@[i];
                        assert(self@.files.contains_key(key));
                        assert(self@.files[key].file_id == key);
                    }
                    if dom.contains(k) {
                        assert(self.infos().contains_key(k));
                        let v = self.infos()[k];
                        assert(self.infos().values().contains(v));
                        let i = choose|i: int| 0 <= i < r@.len() && *r@[i] == v;
                        assert(self@.files[k].file_id == k);
                        assert(ids[i] == k);
                    }
                }
                assert(ids.to_set() =~= dom);
                assert(dom.finite()) by {
                    vstd::std_specs::hash::axiom_hashmap_view_finite_dom(self.file_module_map);
                }
                assert(ids.len() == dom.len());
                ids.lemma_no_dup_set_cardinality();
                assert forall|i: int| 0 <= i < r@.len() implies self.infos().contains_key(
                    #[trigger] r@[i].file_id.id,
                ) && *r@[i] == self.infos()[r@[i].file_id.id] by {
                    assert(self.infos().values().contains(*r@[i]));
                    let key = choose|key: u32| #[trigger] self.infos().contains_key(key)
                        && self.infos()[key] == *r@[i];
                    assert(self@.files.contains_key(key));
                    assert(self@.files[key].file_id == key);
                }
            }
        }
        r
    }

    /// Sets the module patterns, such as "?.lua" and "?/init.lua": each becomes a
    /// regular expression matching the whole relative path, with `?` capturing
    /// the module path. Longer patterns are tried first. A pattern whose regular
    /// expression is refused ends the list there.
    pub fn set_module_patterns(&mut self, patterns: Vec<String>)
        requires
            old(self).wf(),
        ensures
            final(self).wf(),
            final(self)@ == (IndexView {
                patterns: compiled_patterns(strings_view(patterns@)),
                ..old(self)@
            }),
    {
        let ghost pv = strings_view(patterns@);
        let sorted = sort_longest_first(patterns);
        let ghost regs = longest_first(pv).map_values(|x: Seq<char>| pattern_regex(x));
        let ghost s0 = self@;
        self.module_patterns.clear();
        let mut i: usize = 0;
        proof {
            assert(regs.skip(0) =~= regs);
            assert(strings_view(self.module_patterns@) =~= Seq::<Seq<char>>::empty());
            assert(Seq::<Seq<char>>::empty() + accepted_prefix(regs) =~= accepted_prefix(regs));
            assert(accepted_prefix(regs) == compiled_patterns(pv));
            assert(self@ =~= (IndexView { patterns: strings_view(self.module_patterns@), ..s0 }));
        }
        while i < sorted.len()
            invariant
                i <= sorted@.len(),
                accepted_prefix(regs) == compiled_patterns(pv),
                pv == strings_view(patterns@),
                s0 == old(self)@,
                old(self).wf(),
                self.wf(),
                regs.len() == sorted@.len(),
                forall|j: int| 0 <= j < sorted@.len() ==> regs[j] == pattern_regex(#[trigger] sorted@[j]@),
                strings_view(self.module_patterns@) + accepted_prefix(regs.skip(i as int))
                    == accepted_prefix(regs),
                self@ == (IndexView { patterns: strings_view(self.module_patterns@), ..s0 }),
                self.module_root_id == old(self).module_root_id,
                self.module_name_to_file_ids == old(self).module_name_to_file_ids,
            decreases sorted.len() - i,
        {
            let regex_str = build_pattern_regex(sorted[i].as_str());
            let ghost rest = regs.skip(i as int);
            proof {
                assert(rest[0] == regex_str@);
                assert(rest.drop_first() =~= regs.skip(i + 1));
            }
            if regex_compiles(regex_str.as_str()) {
                let ghost before = strings_view(self.module_patterns@);
                self.module_patterns.push(regex_str);
                proof {
                    assert(strings_view(self.module_patterns@) =~= before.push(rest[0]));
                    assert(seq![rest[0]] + accepted_prefix(rest.drop_first()) == accepted_prefix(rest));
                    assert(before.push(rest[0]) + accepted_prefix(regs.skip(i + 1)) =~= before + (
                    seq![rest[0]] + accepted_prefix(rest.drop_first())));
                    assert(self@ =~= (IndexView { patterns: strings_view(self.module_patterns@), ..s0 }));
                }
            } else {
                proof {
                    assert(accepted_prefix(rest) =~= Seq::<Seq<char>>::empty());
                    assert(strings_view(self.module_patterns@) =~= strings_view(self.module_patterns@)
                        + Seq::<Seq<char>>::empty());
                    assert(strings_view(self.module_patterns@) == compiled_patterns(pv));
                    assert(self@ =~= (IndexView { patterns: compiled_patterns(pv), ..old(self)@ }));
                }
                return;
            }
            i = i + 1;
        }
        proof {
            assert(regs.skip(i as int) =~= Seq::<Seq<char>>::empty());
            assert(strings_view(self.module_patterns@) =~= strings_view(self.module_patterns@)
                + Seq::<Seq<char>>::empty());
        }
    }

    /// The module path that the first matching module pattern captures from a
    /// relative path.
    fn match_pattern(&self, path: &str) -> (r: Option<String>)
        ensures
            opt_view(r) == match_first(self@.patterns, path@),
    {
        let ghost ps = self@.patterns;
        let mut i: usize = 0;
        proof {
            assert(ps.skip(0) =~= ps);
        }
        while i < self.module_patterns.len()
            invariant
                i <= self.module_patterns@.len(),
                ps == self@.patterns,
                match_first(ps, path@) == match_first(ps.skip(i as int), path@),
            decreases self.module_patterns.len() - i,
        {
            proof {
                assert(ps.skip(i as int)[0] == self.module_patterns@[i as int]@);
                assert(ps.skip(i as int).drop_first() =~= ps.skip(i + 1));
            }
            let captured = regex_capture(self.module_patterns[i].as_str(), path);
            if captured.is_some() {
                return captured;
            }
            i = i + 1;
        }
        proof {
            assert(ps.skip(i as int) =~= Seq::<Seq<char>>::empty());
        }
        None
    }

    /// The module path of the file at `path`, relative to the workspace root
    /// that gives the shortest one.
    fn extract_module_path(&self, path: &str) -> (r: Option<String>)
        ensures
            opt_view(r) == extract_module(self@.roots, self@.patterns, path@),
    {
        let ghost roots = self@.roots;
        let mut matched: Option<String> = None;
        let mut i: usize = 0;
        while i < self.workspace_root.len()
            invariant
                i <= self.workspace_root@.len(),
                roots == self@.roots,
                opt_view(matched) == extract_module(roots.take(i as int), self@.patterns, path@),
            decreases self.workspace_root.len() - i,
        {
            proof {
                assert(roots.take(i + 1).drop_last() =~= roots.take(i as int));
                assert(roots.take(i + 1).last() == self.workspace_root@[i as int]@);
            }
            match strip_path_prefix(path, self.workspace_root[i].as_str()) {
                Some(relative_path) => {
                    let mod_path = self.match_pattern(relative_path.as_str());
                    if matched.is_none() {
                        matched = mod_path;
                    } else if let Some(mp) = mod_path {
                        let current = matched.unwrap();
                        if mp.as_str().len() < current.as_str().len() {
                            matched = Some(mp);
                        } else {
                            matched = Some(current);
                        }
                    }
                },
                None => {},
            }
            i = i + 1;
        }
        proof {
            assert(roots.take(i as int) =~= roots);
        }
        matched
    }

    /// Files `file_id` under the module path that the patterns give for the file
    /// path `path`, after dropping any record it had; slashes and backslashes in
    /// the module path count as dots. Nothing is filed when no pattern applies.
    pub fn add_module_by_path(&mut self, file_id: FileId, path: &str) -> (r: Option<()>)
        requires
            old(self).wf(),
            extract_module(old(self)@.roots, old(self)@.patterns, path@) matches Some(mp) ==> room_for(
                old(self)@,
                file_id.id,
                dotted(mp),
            ),
        ensures
            final(self).wf(),
            ({
                let s1 = after_remove(old(self)@, file_id.id);
                match extract_module(old(self)@.roots, old(self)@.patterns, path@) {
                    None => r is None && final(self)@ == s1,
                    Some(mp) => r == Some(()) && final(self)@ == after_insert(s1, file_id.id, dotted(mp)),
                }
            }),
    {
        if self.file_module_map.contains_key(&file_id.id) {
            self.remove_file(file_id);
        } else {
            proof {
                assert(after_remove(old(self)@, file_id.id) == old(self)@);
            }
        }
        let ghost s1 = self@;
        let extracted = self.extract_module_path(path);
        let found = match extracted {
            Some(p) => p,
            None => {
                return None;
            },
        };
        let dotted_path = to_dotted(found.as_str());
        proof {
            assert(after_remove(s1, file_id.id) == s1);
        }
        self.add_module_by_module_path(file_id, dotted_path)
    }

    /// Like `add_module_by_path`, but checks that the module path found leaves
    /// room for its new nodes among the node identifiers. Any old record of the
    /// file is dropped first; when there is no room, nothing is filed and the
    /// result is `None`.
    pub fn try_add_module_by_path(&mut self, file_id: FileId, path: &str) -> (r: Option<()>)
        requires
            old(self).wf(),
        ensures
            final(self).wf(),
            ({
                let s1 = after_remove(old(self)@, file_id.id);
                match extract_module(old(self)@.roots, old(self)@.patterns, path@) {
                    None => r is None && final(self)@ == s1,
                    Some(mp) => if room_for(old(self)@, file_id.id, dotted(mp)) {
                        r == Some(()) && final(self)@ == after_insert(s1, file_id.id, dotted(mp))
                    } else {
                        r is None && final(self)@ == s1
                    },
                }
            }),
    {
        if self.file_module_map.contains_key(&file_id.id) {
            self.remove_file(file_id);
        } else {
            proof {
                assert(after_remove(old(self)@, file_id.id) == old(self)@);
            }
        }
        let ghost s1 = self@;
        proof {
            assert(after_remove(s1, file_id.id) == s1);
        }
        let extracted = self.extract_module_path(path);
        let found = match extracted {
            Some(p) => p,
            None => {
                return None;
            },
        };
        let dotted_path = to_dotted(found.as_str());
        let parts = split_dots(dotted_path.as_str());
        let missing = self.missing_count(&parts);
        if missing as u64 > (u32::MAX - self.id_counter) as u64 {
            return None;
        }
        self.add_module_by_module_path(file_id, dotted_path)
    }

    /// Adds a workspace root.
    pub fn add_workspace_root(&mut self, root: String)
        requires
            old(self).wf(),
        ensures
            final(self).wf(),
            final(self)@ == (IndexView { roots: old(self)@.roots.push(root@), ..old(self)@ }),
    {
        let ghost r = root@;
        self.workspace_root.push(root);
        proof {
            assert(self@ =~= (IndexView { roots: old(self)@.roots.push(r), ..old(self)@ }));
        }
    }

    /// Removes every workspace root that is the same path as `root`.
    pub fn remove_workspace_root(&mut self, root: &str)
        requires
            old(self).wf(),
        ensures
            final(self).wf(),
            final(self)@ == (IndexView {
                roots: old(self)@.roots.filter(|r: Seq<char>| !same_path(r, root@)),
                ..old(self)@
            }),
    {
        let ghost rs = old(self)@.roots;
        let mut kept: Vec<String> = Vec::new();
        let mut i: usize = 0;
        while i < self.workspace_root.len()
            invariant
                i <= self.workspace_root@.len(),
                rs == strings_view(self.workspace_root@),
                strings_view(kept@) == rs.take(i as int).filter(|r: Seq<char>| !same_path(r, root@)),
            decreases self.workspace_root.len() - i,
        {
            proof {
                reveal(Seq::filter);
                assert(rs.take(i + 1).drop_last() =~= rs.take(i as int));
                assert(rs.take(i + 1).last() == self.workspace_root@[i as int]@);
            }
            if !paths_equal(self.workspace_root[i].as_str(), root) {
                let ghost before = strings_view(kept@);
                kept.push(self.workspace_root[i].clone());
                proof {
                    assert(strings_view(kept@) =~= before.push(self.workspace_root@[i as int]@));
                }
            }
            i = i + 1;
        }
        proof {
            assert(rs.take(i as int) =~= rs);
        }
        self.workspace_root = kept;
        proof {
            assert(self@ =~= (IndexView {
                roots: rs.filter(|r: Seq<char>| !same_path(r, root@)),
                ..old(self)@
            }));
        }
    }

    /// Takes the module patterns and the fuzzy-lookup setting from the
    /// configuration: each extension, without a leading "." or "*.", gives the
    /// patterns "?.ext" and "?/init.ext", "lua" is always among them, and lookups
    /// by the last segment are on unless modules must be required by full path.
    pub fn update_config(&mut self, config: Arc<Emmyrc>)
        requires
            old(self).wf(),
        ensures
            final(self).wf(),
            final(self)@ == (IndexView {
                patterns: compiled_patterns(
                    extension_patterns(extension_names(strings_view(config.runtime.extensions@))),
                ),
                fuzzy: !config.strict.require_path,
                ..old(self)@
            }),
    {
        let patterns = config_patterns(&config.runtime.extensions);
        proof {
            assert(strings_view(config.runtime.extensions@) =~= config.runtime.extensions@.map_values(|e: String| e@));
            assert(strings_view(patterns@) =~= patterns@.map_values(|p: String| p@));
        }
        self.set_module_patterns(patterns);
        self.fuzzy_search = !config.strict.require_path;
        proof {
            assert(self@ =~= (IndexView {
                patterns: compiled_patterns(
                    extension_patterns(extension_names(strings_view(config.runtime.extensions@))),
                ),
                fuzzy: !config.strict.require_path,
                ..old(self)@
            }));
        }
    }
}

/// The snapshot key for the number of module nodes.
pub open spec fn nodes_key() -> Seq<char> {
    "module_nodes"@
}

/// The snapshot key for the number of module records.
pub open spec fn files_key() -> Seq<char> {
    "file_module_map"@
}

/// The snapshot key for the number of names.
pub open spec fn names_key() -> Seq<char> {
    "module_name_to_file_ids"@
}

impl LuaIndex for LuaModuleIndex {
    open spec fn index_wf(&self) -> bool {
        self.wf()
    }

    /// Drops the module record of a file; see `remove_file`.
    fn remove(&mut self, file_id: FileId)
        ensures
            final(self)@ == after_remove(old(self)@, file_id.id),
    {
        self.remove_file(file_id);
    }

    /// Records the number of module nodes, of module records and of names, in
    /// decimal, under "module_nodes", "file_module_map" and
    /// "module_name_to_file_ids".
    fn fill_snapshot_info(&self, info: &mut StringHashMap<String>)
        ensures
            final(info)@.dom() == old(info)@.dom().insert(nodes_key()).insert(files_key()).insert(
                names_key(),
            ),
            final(info)@[nodes_key()]@ == decimal(self@.nodes.dom().len()),
            final(info)@[files_key()]@ == decimal(self@.files.dom().len()),
            final(info)@[names_key()]@ == decimal(self@.names.len()),
            forall|k: Seq<char>|
                old(info)@.contains_key(k) && k != nodes_key() && k != files_key() && k != names_key()
                    ==> #[trigger] final(info)@[k] == old(info)@[k],
    {
        proof {
            reveal_strlit("module_nodes");
            reveal_strlit("file_module_map");
            reveal_strlit("module_name_to_file_ids");
            assert(nodes_key().len() != files_key().len());
            assert(nodes_key().len() != names_key().len());
            assert(files_key().len() != names_key().len());
            assert(self@.nodes.dom() =~= self.module_nodes@.dom());
            assert(self@.files.dom() =~= self.file_module_map@.dom());
        }
        let n_nodes = self.module_nodes.len();
        let n_files = self.file_module_map.len();
        let n_names = self.module_name_to_file_ids.len();
        info.insert("module_nodes".to_owned(), u64_to_decimal(n_nodes as u64));
        info.insert("file_module_map".to_owned(), u64_to_decimal(n_files as u64));
        info.insert("module_name_to_file_ids".to_owned(), u64_to_decimal(n_names as u64));
    }
}

} // verus!
