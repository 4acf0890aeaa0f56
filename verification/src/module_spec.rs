//! The module index as plain values: its consistency conditions and what each
//! change to it does.
use vstd::prelude::*;

use crate::module_node::{ModuleInfoView, NodeView};
use crate::text::{dotted, has_suffix, split_on};

verus! {

/// The whole module index as plain values.
#[verifier::ext_equal]
pub struct IndexView {
    /// The module tree, by node identifier.
    pub nodes: Map<u32, NodeView>,
    /// The module record of each file, by file identifier.
    pub files: Map<u32, ModuleInfoView>,
    /// Files by the last segment of their module path, in table order.
    pub names: Seq<(Seq<char>, Seq<u32>)>,
    /// The module patterns as regular expressions, in matching order.
    pub patterns: Seq<Seq<char>>,
    /// The workspace roots.
    pub roots: Seq<Seq<char>>,
    /// The identifier the next new node receives.
    pub next_id: nat,
    /// Whether lookups fall back to the last path segment.
    pub fuzzy: bool,
}

/// The identifier of the root of the module tree.
pub open spec fn root_id() -> u32 {
    0
}

/// A node with neither files nor children.
pub open spec fn node_empty(n: NodeView) -> bool {
    n.file_ids.len() == 0 && n.children.dom().is_empty()
}

/// `c` is the value of some child entry of `n`.
pub open spec fn has_child(n: NodeView, c: u32) -> bool {
    exists|k: Seq<char>| #[trigger] n.children.contains_key(k) && n.children[k] == c
}

/// Every child entry names a present node whose parent is the node holding the
/// entry, and that has a larger identifier.
pub open spec fn children_linked(nodes: Map<u32, NodeView>) -> bool {
    forall|n: u32, k: Seq<char>|
        #![trigger nodes[n].children.contains_key(k)]
        nodes.contains_key(n) && nodes[n].children.contains_key(k) ==> {
            let c = nodes[n].children[k];
            &&& nodes.contains_key(c)
            &&& nodes[c].parent == Some(n)
            &&& n < c
        }
}

/// Every node other than the root that holds files or children has a present
/// parent with a smaller identifier that lists it as a child.
pub open spec fn parents_linked(nodes: Map<u32, NodeView>) -> bool {
    forall|n: u32|
        #![trigger nodes.contains_key(n)]
        nodes.contains_key(n) && n != root_id() && !node_empty(nodes[n]) ==> {
            &&& nodes[n].parent is Some
            &&& nodes.contains_key(nodes[n].parent.unwrap())
            &&& nodes[n].parent.unwrap() < n
            &&& has_child(nodes[nodes[n].parent.unwrap()], n)
        }
}

/// Every file record points at a present node that lists the file, and every
/// file listed by a node has a record pointing back at that node.
pub open spec fn files_linked(nodes: Map<u32, NodeView>, files: Map<u32, ModuleInfoView>) -> bool {
    &&& forall|f: u32|
        #![trigger files.contains_key(f)]
        files.contains_key(f) ==> {
            &&& files[f].file_id == f
            &&& nodes.contains_key(files[f].module_id)
            &&& nodes[files[f].module_id].file_ids.contains(f)
        }
    &&& forall|n: u32, i: int|
        #![trigger nodes[n].file_ids[i]]
        nodes.contains_key(n) && 0 <= i < nodes[n].file_ids.len() ==> {
            &&& files.contains_key(nodes[n].file_ids[i])
            &&& files[nodes[n].file_ids[i]].module_id == n
        }
}

/// The consistency conditions of the module tree and the file records.
pub open spec fn tree_ok(nodes: Map<u32, NodeView>, files: Map<u32, ModuleInfoView>, next: nat) -> bool {
    &&& nodes.contains_key(root_id())
    &&& nodes[root_id()].parent is None
    &&& forall|n: u32| #[trigger] nodes.contains_key(n) ==> n < next
    &&& next <= u32::MAX
    &&& children_linked(nodes)
    &&& parents_linked(nodes)
    &&& files_linked(nodes, files)
}

/// No node lists a file twice.
pub open spec fn files_once(nodes: Map<u32, NodeView>) -> bool {
    forall|n: u32| #[trigger] nodes.contains_key(n) ==> nodes[n].file_ids.no_duplicates()
}

/// Every child entry names a node other than `x` that holds files or children.
pub open spec fn filled_except(nodes: Map<u32, NodeView>, x: u32) -> bool {
    forall|n: u32, k: Seq<char>|
        #![trigger nodes[n].children.contains_key(k)]
        nodes.contains_key(n) && nodes[n].children.contains_key(k) && nodes[n].children[k] != x
            ==> !node_empty(nodes[nodes[n].children[k]])
}

/// Every child entry names a node that holds files or children.
pub open spec fn children_filled(nodes: Map<u32, NodeView>) -> bool {
    forall|n: u32, k: Seq<char>|
        #![trigger nodes[n].children.contains_key(k)]
        nodes.contains_key(n) && nodes[n].children.contains_key(k) ==> !node_empty(
            nodes[nodes[n].children[k]],
        )
}

/// The consistency conditions that every operation of the index keeps.
pub open spec fn well_formed(v: IndexView) -> bool {
    &&& tree_ok(v.nodes, v.files, v.next_id)
    &&& files_once(v.nodes)
    &&& children_filled(v.nodes)
}

/// The node reached from `id` by following the child entries named by `parts`.
pub open spec fn resolve(nodes: Map<u32, NodeView>, id: u32, parts: Seq<Seq<char>>) -> Option<u32>
    decreases parts.len(),
{
    if !nodes.contains_key(id) {
        None
    } else if parts.len() == 0 {
        Some(id)
    } else if nodes[id].children.contains_key(parts[0]) {
        resolve(nodes, nodes[id].children[parts[0]], parts.drop_first())
    } else {
        None
    }
}

/// The node reached from the root by a dotted module path.
pub open spec fn resolve_path(nodes: Map<u32, NodeView>, path: Seq<char>) -> Option<u32> {
    resolve(nodes, root_id(), split_on(path, '.'))
}

/// `n` without the child entries that name `child`.
pub open spec fn without_child(n: NodeView, child: u32) -> NodeView {
    NodeView {
        children: n.children.filter_keys(|k: Seq<char>| n.children[k] != child),
        file_ids: n.file_ids,
        parent: n.parent,
    }
}

/// The test that keeps every file other than `f`.
pub open spec fn other_than(f: u32) -> spec_fn(u32) -> bool {
    |x: u32| x != f
}

/// `n` without the file `f`.
pub open spec fn without_file(n: NodeView, f: u32) -> NodeView {
    NodeView { children: n.children, file_ids: n.file_ids.filter(other_than(f)), parent: n.parent }
}

/// The node table after `child` has been detached from `parent`, and after every
/// ancestor that becomes empty on the way up has been deleted. The root is never
/// deleted. The flag tells whether the walk ended at a node other than the root,
/// which is when the table of names is cleaned as well.
pub open spec fn prune(nodes: Map<u32, NodeView>, parent: Option<u32>, child: u32) -> (Map<
    u32,
    NodeView,
>, bool)
    decreases child,
{
    match parent {
        None => (nodes, true),
        Some(p) => {
            if !nodes.contains_key(p) || p >= child {
                (nodes, false)
            } else {
                let n2 = without_child(nodes[p], child);
                let nodes2 = nodes.insert(p, n2);
                if p == root_id() {
                    (nodes2, false)
                } else if node_empty(n2) {
                    prune(nodes2.remove(p), n2.parent, p)
                } else {
                    (nodes2, true)
                }
            }
        },
    }
}

/// The position of the first name entry whose file list holds `f`, if any.
pub open spec fn first_name_with(names: Seq<(Seq<char>, Seq<u32>)>, f: u32) -> Option<int> {
    if exists|i: int| 0 <= i < names.len() && (#[trigger] names[i]).1.contains(f) {
        Some(
            choose|i: int|
                0 <= i < names.len() && (#[trigger] names[i]).1.contains(f) && forall|j: int|
                    0 <= j < i ==> !(#[trigger] names[j]).1.contains(f),
        )
    } else {
        None
    }
}

/// The name table after `f` is dropped from the first list that holds it; a list
/// left empty is removed with its name. A list filed under the empty name is left
/// as it is.
pub open spec fn names_without(names: Seq<(Seq<char>, Seq<u32>)>, f: u32) -> Seq<(Seq<char>, Seq<u32>)> {
    match first_name_with(names, f) {
        None => names,
        Some(i) => {
            let name = names[i].0;
            let list = names[i].1.filter(other_than(f));
            if name.len() == 0 {
                names
            } else if list.len() == 0 {
                names.remove(i)
            } else {
                names.update(i, (name, list))
            }
        },
    }
}

/// The index after the module record of file `f` has been dropped.
///
/// The file leaves its node; if that node is left with neither files nor
/// children, it is detached from its parent (it stays in the table, unreachable),
/// and the ancestors that become empty are deleted.
pub open spec fn after_remove(s: IndexView, f: u32) -> IndexView {
    if !s.files.contains_key(f) {
        s
    } else {
        let m = s.files[f].module_id;
        let node = without_file(s.nodes[m], f);
        let nodes1 = s.nodes.insert(m, node);
        let files1 = s.files.remove(f);
        if !node_empty(node) || node.parent is None {
            IndexView { nodes: nodes1, files: files1, ..s }
        } else {
            let pruned = prune(nodes1, node.parent, m);
            IndexView {
                nodes: pruned.0,
                files: files1,
                names: if pruned.1 && s.names.len() > 0 {
                    names_without(s.names, f)
                } else {
                    s.names
                },
                ..s
            }
        }
    }
}

/// The node table after the path `parts` has been followed from `cur`, creating
/// each missing node with the next free identifier; also the node reached and
/// the next free identifier afterwards.
pub open spec fn grow(nodes: Map<u32, NodeView>, cur: u32, parts: Seq<Seq<char>>, next: nat) -> (Map<
    u32,
    NodeView,
>, u32, nat)
    decreases parts.len(),
{
    if parts.len() == 0 {
        (nodes, cur, next)
    } else if nodes[cur].children.contains_key(parts[0]) {
        grow(nodes, nodes[cur].children[parts[0]], parts.drop_first(), next)
    } else {
        let id = next as u32;
        let parent = NodeView {
            children: nodes[cur].children.insert(parts[0], id),
            file_ids: nodes[cur].file_ids,
            parent: nodes[cur].parent,
        };
        let fresh = NodeView {
            children: Map::<Seq<char>, u32>::empty(),
            file_ids: Seq::<u32>::empty(),
            parent: Some(cur),
        };
        grow(nodes.insert(cur, parent).insert(id, fresh), id, parts.drop_first(), next + 1)
    }
}

/// How many of the segments `parts` have no node yet when followed from `cur`:
/// the segments from the first missing one on.
pub open spec fn missing_segments(nodes: Map<u32, NodeView>, cur: u32, parts: Seq<Seq<char>>) -> nat
    decreases parts.len(),
{
    if parts.len() == 0 {
        0
    } else if nodes[cur].children.contains_key(parts[0]) {
        missing_segments(nodes, nodes[cur].children[parts[0]], parts.drop_first())
    } else {
        parts.len()
    }
}

/// Filing `f` under the dotted path `path`, after its old record is dropped,
/// leaves room among the node identifiers for the nodes it creates.
pub open spec fn room_for(s: IndexView, f: u32, path: Seq<char>) -> bool {
    let s1 = after_remove(s, f);
    s1.next_id + missing_segments(s1.nodes, root_id(), split_on(path, '.')) <= u32::MAX
}

/// At most every segment is missing.
pub proof fn lemma_missing_at_most(nodes: Map<u32, NodeView>, cur: u32, parts: Seq<Seq<char>>)
    ensures
        missing_segments(nodes, cur, parts) <= parts.len(),
    decreases parts.len(),
{
    if parts.len() > 0 && nodes[cur].children.contains_key(parts[0]) {
        lemma_missing_at_most(nodes, nodes[cur].children[parts[0]], parts.drop_first());
    }
}

/// The name table after `f` has been appended to the list filed under `name`.
pub open spec fn names_with(names: Seq<(Seq<char>, Seq<u32>)>, name: Seq<char>, f: u32) -> Seq<
    (Seq<char>, Seq<u32>),
> {
    if exists|i: int| 0 <= i < names.len() && (#[trigger] names[i]).0 == name {
        let i = choose|i: int| 0 <= i < names.len() && (#[trigger] names[i]).0 == name;
        names.update(i, (name, names[i].1.push(f)))
    } else {
        names.push((name, seq![f]))
    }
}

/// The index after file `f`, which has no record, has been filed under the dotted
/// module path `path`.
pub open spec fn after_insert(s: IndexView, f: u32, path: Seq<char>) -> IndexView {
    let parts = split_on(path, '.');
    let grown = grow(s.nodes, root_id(), parts, s.next_id);
    let m = grown.1;
    let node = grown.0[m];
    let info = ModuleInfoView {
        file_id: f,
        full_module_name: path,
        name: parts.last(),
        module_id: m,
        visible: true,
        export_type: None,
        version_conds: None,
    };
    IndexView {
        nodes: grown.0.insert(
            m,
            NodeView { children: node.children, file_ids: node.file_ids.push(f), parent: node.parent },
        ),
        files: s.files.insert(f, info),
        names: if s.fuzzy {
            names_with(s.names, parts.last(), f)
        } else {
            s.names
        },
        next_id: grown.2,
        ..s
    }
}

/// The file list filed under `name`, if any.
pub open spec fn name_list(names: Seq<(Seq<char>, Seq<u32>)>, name: Seq<char>) -> Option<Seq<u32>> {
    if exists|i: int| 0 <= i < names.len() && (#[trigger] names[i]).0 == name {
        Some(names[choose|i: int| 0 <= i < names.len() && (#[trigger] names[i]).0 == name].1)
    } else {
        None
    }
}

/// Walking `list` in order, the first file whose module name ends with `path`;
/// the walk gives up at the first file that has no record.
pub open spec fn fuzzy_pick(files: Map<u32, ModuleInfoView>, list: Seq<u32>, path: Seq<char>) -> Option<u32>
    decreases list.len(),
{
    if list.len() == 0 {
        None
    } else if !files.contains_key(list[0]) {
        None
    } else if has_suffix(files[list[0]].full_module_name, path) {
        Some(list[0])
    } else {
        fuzzy_pick(files, list.drop_first(), path)
    }
}

/// The file found by the last segment `last` of the dotted path `path`: the only
/// file filed under that name, or else the first whose module name ends with
/// `path`.
pub open spec fn fuzzy_find(s: IndexView, path: Seq<char>, last: Seq<char>) -> Option<u32> {
    match name_list(s.names, last) {
        None => None,
        Some(list) => if list.len() == 1 {
            if s.files.contains_key(list[0]) {
                Some(list[0])
            } else {
                None
            }
        } else {
            fuzzy_pick(s.files, list, path)
        },
    }
}

/// The first file of the node that `parts` leads to from the root.
pub open spec fn exact_find(s: IndexView, parts: Seq<Seq<char>>) -> Option<u32> {
    match resolve(s.nodes, root_id(), parts) {
        Some(n) => if s.nodes[n].file_ids.len() > 0 && s.files.contains_key(s.nodes[n].file_ids[0]) {
            Some(s.nodes[n].file_ids[0])
        } else {
            None
        },
        None => None,
    }
}

/// The file whose record a lookup of the module path `path` yields: an exact
/// match in the tree first, then, when fuzzy lookups are on, a match by the last
/// segment.
pub open spec fn find_module_file(s: IndexView, path: Seq<char>) -> Option<u32> {
    let d = dotted(path);
    let parts = split_on(d, '.');
    match exact_find(s, parts) {
        Some(f) => Some(f),
        None => if s.fuzzy {
            fuzzy_find(s, d, parts.last())
        } else {
            None
        },
    }
}

/// The node that a lookup of the module path `path` yields: the root for the
/// empty path, and otherwise the node that the dotted path leads to.
pub open spec fn find_node(s: IndexView, path: Seq<char>) -> Option<u32> {
    if path.len() == 0 {
        if s.nodes.contains_key(root_id()) {
            Some(root_id())
        } else {
            None
        }
    } else {
        resolve_path(s.nodes, dotted(path))
    }
}

/// A node reached by a walk is present.
pub proof fn lemma_resolve_present(nodes: Map<u32, NodeView>, id: u32, parts: Seq<Seq<char>>)
    ensures
        resolve(nodes, id, parts) matches Some(n) ==> nodes.contains_key(n),
    decreases parts.len(),
{
    if nodes.contains_key(id) && parts.len() > 0 && nodes[id].children.contains_key(parts[0]) {
        lemma_resolve_present(nodes, nodes[id].children[parts[0]], parts.drop_first());
    }
}

} // verus!
