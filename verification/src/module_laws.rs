//! What the operations of the module index promise together: lookups find what
//! was filed, and filing or dropping one file leaves the others alone.
use vstd::prelude::*;

use crate::module_lemmas::{hangs, lemma_attach_file, lemma_filter_from, lemma_drop_file, lemma_grow_step, lemma_prune_step, pruning};
use crate::module_node::{ModuleInfoView, NodeView};
use crate::module_spec::{
    after_insert, after_remove, children_filled, children_linked, files_once, filled_except, exact_find, find_module_file, first_name_with, names_without, fuzzy_find, fuzzy_pick, grow, missing_segments, name_list, names_with, room_for, node_empty, other_than, prune,
    lemma_resolve_present, resolve, resolve_path, root_id, tree_ok, well_formed, without_child, without_file,
    IndexView,
};
use crate::text::{dotted, has_suffix, lemma_split_on_nonempty, split_on};

verus! {

/// `new` keeps every node of `old` with its files and parent, and every child
/// entry of it.
pub open spec fn extends(old: Map<u32, NodeView>, new: Map<u32, NodeView>) -> bool {
    forall|n: u32|
        #![trigger old.contains_key(n)]
        old.contains_key(n) ==> {
            &&& new.contains_key(n)
            &&& new[n].file_ids == old[n].file_ids
            &&& new[n].parent == old[n].parent
            &&& forall|k: Seq<char>|
                #![trigger old[n].children.contains_key(k)]
                old[n].children.contains_key(k) ==> new[n].children.contains_key(k)
                    && new[n].children[k] == old[n].children[k]
        }
}

/// A walk that succeeds in a node table succeeds the same way in any table that
/// extends it.
pub proof fn lemma_resolve_extends(
    old: Map<u32, NodeView>,
    new: Map<u32, NodeView>,
    id: u32,
    parts: Seq<Seq<char>>,
)
    requires
        extends(old, new),
        resolve(old, id, parts) is Some,
    ensures
        resolve(new, id, parts) == resolve(old, id, parts),
    decreases parts.len(),
{
    assert(old.contains_key(id));
    if parts.len() > 0 {
        assert(old[id].children.contains_key(parts[0]));
        lemma_resolve_extends(old, new, old[id].children[parts[0]], parts.drop_first());
    }
}

/// Following a path from `cur`, creating what is missing, ends at a node that
/// the path leads to in the grown table; the grown table extends the old one,
/// every node in it has an identifier below the next free one, and the nodes it
/// adds hold no files.
pub proof fn lemma_grow(nodes: Map<u32, NodeView>, cur: u32, parts: Seq<Seq<char>>, next: nat)
    requires
        nodes.contains_key(cur),
        children_linked(nodes),
        forall|n: u32| #[trigger] nodes.contains_key(n) ==> n < next,
        next + missing_segments(nodes, cur, parts) <= u32::MAX,
    ensures
        ({
            let g = grow(nodes, cur, parts, next);
            &&& resolve(g.0, cur, parts) == Some(g.1)
            &&& g.0.contains_key(g.1)
            &&& extends(nodes, g.0)
            &&& children_linked(g.0)
            &&& forall|n: u32| #[trigger] g.0.contains_key(n) ==> n < g.2
            &&& g.2 == next + missing_segments(nodes, cur, parts)
            &&& forall|n: u32|
                #![trigger g.0.contains_key(n)]
                g.0.contains_key(n) && !nodes.contains_key(n) ==> g.0[n].file_ids.len() == 0
            &&& filled_except(nodes, cur) ==> filled_except(g.0, g.1)
        }),
    decreases parts.len(),
{
    if parts.len() == 0 {
    } else if nodes[cur].children.contains_key(parts[0]) {
        let c = nodes[cur].children[parts[0]];
        assert(nodes.contains_key(c));
        if filled_except(nodes, cur) {
            assert(nodes[cur].children.dom().contains(parts[0]));
            assert(filled_except(nodes, c));
        }
        lemma_grow(nodes, c, parts.drop_first(), next);
        let g = grow(nodes, cur, parts, next);
        assert(g == grow(nodes, c, parts.drop_first(), next));
        assert(g.0.contains_key(cur));
        assert(g.0[cur].children.contains_key(parts[0]) && g.0[cur].children[parts[0]] == c);
    } else {
        let id = next as u32;
        let np = nodes[cur];
        let parent = NodeView {
            children: np.children.insert(parts[0], id),
            file_ids: np.file_ids,
            parent: np.parent,
        };
        let fresh = NodeView {
            children: Map::<Seq<char>, u32>::empty(),
            file_ids: Seq::<u32>::empty(),
            parent: Some(cur),
        };
        let nodes2 = nodes.insert(cur, parent).insert(id, fresh);
        assert(!nodes.contains_key(id));
        assert(children_linked(nodes2)) by {
            assert forall|n: u32, k: Seq<char>|
                #![trigger nodes2[n].children.contains_key(k)]
                nodes2.contains_key(n) && nodes2[n].children.contains_key(k) implies {
                let c = nodes2[n].children[k];
                &&& nodes2.contains_key(c)
                &&& nodes2[c].parent == Some(n)
                &&& n < c
            } by {
                if n == id {
                    assert(fresh.children.dom().contains(k));
                } else if n == cur && k == parts[0] {
                } else {
                    assert(nodes[n].children.contains_key(k));
                }
            }
        }
        assert(extends(nodes, nodes2));
        if filled_except(nodes, cur) {
            assert(nodes2[cur].children.dom().contains(parts[0]));
            assert forall|n: u32, k: Seq<char>|
                #![trigger nodes2[n].children.contains_key(k)]
                nodes2.contains_key(n) && nodes2[n].children.contains_key(k) && nodes2[n].children[k] != id
                    implies !node_empty(nodes2[nodes2[n].children[k]]) by {
                if n == id {
                    assert(fresh.children.dom().contains(k));
                } else {
                    assert(nodes[n].children.contains_key(k));
                    let x = nodes[n].children[k];
                    assert(nodes2[n].children[k] == x);
                    if x != cur {
                        assert(nodes2[x] == nodes[x]);
                    }
                }
            }
            assert(filled_except(nodes2, id));
        }
        lemma_grow(nodes2, id, parts.drop_first(), next + 1);
        let g = grow(nodes, cur, parts, next);
        assert(g == grow(nodes2, id, parts.drop_first(), next + 1));
        assert(extends(nodes, g.0)) by {
            assert forall|n: u32| #![trigger nodes.contains_key(n)] nodes.contains_key(n) implies {
                &&& g.0.contains_key(n)
                &&& g.0[n].file_ids == nodes[n].file_ids
                &&& g.0[n].parent == nodes[n].parent
                &&& forall|k: Seq<char>|
                    #![trigger nodes[n].children.contains_key(k)]
                    nodes[n].children.contains_key(k) ==> g.0[n].children.contains_key(k)
                        && g.0[n].children[k] == nodes[n].children[k]
            } by {
                assert(nodes2.contains_key(n));
                assert forall|k: Seq<char>|
                    #![trigger nodes[n].children.contains_key(k)]
                    nodes[n].children.contains_key(k) implies g.0[n].children.contains_key(k)
                        && g.0[n].children[k] == nodes[n].children[k] by {
                    assert(nodes2[n].children.contains_key(k));
                }
            }
        }
        assert(g.0.contains_key(cur));
        assert(nodes2[cur].children.contains_key(parts[0]));
        assert(g.0[cur].children.contains_key(parts[0]) && g.0[cur].children[parts[0]] == id);
    }
}

/// Every child entry, other than those of `p` that name `c`, names a node that
/// holds files or children.
pub open spec fn filled_but(nodes: Map<u32, NodeView>, p: u32, c: u32) -> bool {
    forall|n: u32, k: Seq<char>|
        #![trigger nodes[n].children.contains_key(k)]
        nodes.contains_key(n) && nodes[n].children.contains_key(k) && !(n == p && nodes[n].children[k]
            == c) ==> !node_empty(nodes[nodes[n].children[k]])
}

/// Detaching `c` from `p` and deleting the ancestors left empty ends in a
/// consistent tree whose nodes keep their files; when every other child entry
/// named a node with files or children, every child entry does so afterwards.
proof fn lemma_prune_ok(
    nodes: Map<u32, NodeView>,
    files: Map<u32, ModuleInfoView>,
    next: nat,
    p: u32,
    c: u32,
)
    requires
        pruning(nodes, files, next, p, c),
    ensures
        tree_ok(prune(nodes, Some(p), c).0, files, next),
        forall|n: u32|
            #[trigger] prune(nodes, Some(p), c).0.contains_key(n) ==> nodes.contains_key(n) && prune(
                nodes,
                Some(p),
                c,
            ).0[n].file_ids == nodes[n].file_ids,
        filled_but(nodes, p, c) ==> children_filled(prune(nodes, Some(p), c).0),
    decreases c,
{
    lemma_prune_step(nodes, files, next, p, c);
    let n2 = without_child(nodes[p], c);
    let nodes2 = nodes.insert(p, n2);
    if p != root_id() && node_empty(n2) {
        let pp = n2.parent.unwrap();
        let nodes3 = nodes2.remove(p);
        lemma_prune_ok(nodes3, files, next, pp, p);
        assert(prune(nodes, Some(p), c) == prune(nodes3, Some(pp), p));
        if filled_but(nodes, p, c) {
            assert forall|n: u32, k: Seq<char>|
                #![trigger nodes3[n].children.contains_key(k)]
                nodes3.contains_key(n) && nodes3[n].children.contains_key(k) && !(n == pp
                    && nodes3[n].children[k] == p) implies !node_empty(nodes3[nodes3[n].children[k]]) by {
                assert(n != p);
                assert(nodes[n].children.contains_key(k));
                let x = nodes[n].children[k];
                assert(nodes3[n].children[k] == x);
                if x == p {
                    assert(nodes[p].parent == Some(n));
                } else if x == c {
                    assert(nodes.contains_key(c) ==> nodes[c].parent == Some(p));
                } else {
                    assert(nodes3[x] == nodes[x]);
                }
            }
            assert(filled_but(nodes3, pp, p));
        }
    } else if filled_but(nodes, p, c) {
        assert(prune(nodes, Some(p), c).0 == nodes2);
        assert forall|n: u32, k: Seq<char>|
            #![trigger nodes2[n].children.contains_key(k)]
            nodes2.contains_key(n) && nodes2[n].children.contains_key(k) implies !node_empty(
                nodes2[nodes2[n].children[k]],
            ) by {
            assert(nodes[n].children.contains_key(k));
            let x = nodes[n].children[k];
            assert(nodes2[n].children[k] == x);
            if x == p {
                assert(n < x);
            } else {
                assert(nodes2[x] == nodes[x]);
            }
        }
    }
}

/// Filtering a sequence without repeats leaves one without repeats.
proof fn lemma_filter_no_dup(s: Seq<u32>, pred: spec_fn(u32) -> bool)
    requires
        s.no_duplicates(),
    ensures
        s.filter(pred).no_duplicates(),
    decreases s.len(),
{
    reveal(Seq::filter);
    if s.len() > 0 {
        let init = s.drop_last();
        lemma_filter_no_dup(init, pred);
        lemma_filter_from(init, pred);
        if pred(s.last()) {
            let out = s.filter(pred);
            let sub = init.filter(pred);
            assert(out == sub.push(s.last()));
            assert forall|i: int| 0 <= i < sub.len() implies sub[i] != s.last() by {
                assert(init.contains(sub[i]));
                let j = choose|j: int| 0 <= j < init.len() && init[j] == sub[i];
                assert(s[j] == init[j]);
            }
        }
    }
}

/// Dropping the record of a file keeps the index consistent and forgets exactly
/// that record: every other file keeps its record, and the patterns, roots,
/// lookup mode and next identifier stay as they were.
pub proof fn lemma_remove_consistent(s: IndexView, f: u32)
    requires
        well_formed(s),
    ensures
        ({
            let r = after_remove(s, f);
            &&& well_formed(r)
            &&& r.files == s.files.remove(f)
            &&& r.next_id == s.next_id
            &&& r.patterns == s.patterns
            &&& r.roots == s.roots
            &&& r.fuzzy == s.fuzzy
        }),
{
    if s.files.contains_key(f) {
        lemma_drop_file(s, f);
        let m = s.files[f].module_id;
        let node = without_file(s.nodes[m], f);
        let nodes1 = s.nodes.insert(m, node);
        let files1 = s.files.remove(f);
        lemma_filter_no_dup(s.nodes[m].file_ids, other_than(f));
        assert(files_once(nodes1));
        if node_empty(node) && node.parent is Some {
            let p = node.parent.unwrap();
            assert forall|n: u32, k: Seq<char>|
                #![trigger nodes1[n].children.contains_key(k)]
                nodes1.contains_key(n) && nodes1[n].children.contains_key(k) && !(n == p
                    && nodes1[n].children[k] == m) implies !node_empty(nodes1[nodes1[n].children[k]]) by {
                assert(s.nodes[n].children.contains_key(k));
                let x = s.nodes[n].children[k];
                if x != m {
                    assert(nodes1[x] == s.nodes[x]);
                }
            }
            lemma_prune_ok(nodes1, files1, s.next_id, p, m);
        } else {
            assert forall|n: u32, k: Seq<char>|
                #![trigger nodes1[n].children.contains_key(k)]
                nodes1.contains_key(n) && nodes1[n].children.contains_key(k) implies !node_empty(
                    nodes1[nodes1[n].children[k]],
                ) by {
                assert(s.nodes[n].children.contains_key(k));
                let x = s.nodes[n].children[k];
                if x != m {
                    assert(nodes1[x] == s.nodes[x]);
                }
            }
        }
    } else {
        assert(s.files.remove(f) =~= s.files);
    }
}

/// Following a path from a node that hangs in a consistent tree, creating what
/// is missing, keeps the tree consistent and ends at a node that hangs in it;
/// below the root when the path is not empty.
proof fn lemma_grow_ok(
    nodes: Map<u32, NodeView>,
    files: Map<u32, ModuleInfoView>,
    next: nat,
    cur: u32,
    parts: Seq<Seq<char>>,
)
    requires
        tree_ok(nodes, files, next),
        nodes.contains_key(cur),
        hangs(nodes, cur),
        next + missing_segments(nodes, cur, parts) <= u32::MAX,
    ensures
        ({
            let g = grow(nodes, cur, parts, next);
            &&& tree_ok(g.0, files, g.2)
            &&& g.0.contains_key(g.1)
            &&& hangs(g.0, g.1)
            &&& (parts.len() > 0 || cur != root_id()) ==> g.1 != root_id()
        }),
    decreases parts.len(),
{
    if parts.len() > 0 {
        lemma_grow_step(nodes, files, next, cur, parts[0]);
        if nodes[cur].children.contains_key(parts[0]) {
            lemma_grow_ok(nodes, files, next, nodes[cur].children[parts[0]], parts.drop_first());
        } else {
            let id = next as u32;
            let parent = NodeView {
                children: nodes[cur].children.insert(parts[0], id),
                file_ids: nodes[cur].file_ids,
                parent: nodes[cur].parent,
            };
            let fresh = NodeView {
                children: Map::<Seq<char>, u32>::empty(),
                file_ids: Seq::<u32>::empty(),
                parent: Some(cur),
            };
            let nodes2 = nodes.insert(cur, parent).insert(id, fresh);
            lemma_grow_ok(nodes2, files, next + 1, id, parts.drop_first());
        }
    }
}

/// Filing a file that has no record keeps the index consistent and adds exactly
/// that record: every other file keeps its record.
pub proof fn lemma_insert_consistent(s: IndexView, f: u32, path: Seq<char>)
    requires
        well_formed(s),
        !s.files.contains_key(f),
        s.next_id + missing_segments(s.nodes, root_id(), split_on(path, '.')) <= u32::MAX,
    ensures
        ({
            let r = after_insert(s, f, path);
            &&& well_formed(r)
            &&& r.files.contains_key(f)
            &&& r.files.remove(f) == s.files
            &&& r.patterns == s.patterns
            &&& r.roots == s.roots
            &&& r.fuzzy == s.fuzzy
        }),
{
    let parts = split_on(path, '.');
    lemma_split_on_nonempty(path, '.');
    lemma_grow_ok(s.nodes, s.files, s.next_id, root_id(), parts);
    let g = grow(s.nodes, root_id(), parts, s.next_id);
    let info = ModuleInfoView {
        file_id: f,
        full_module_name: path,
        name: parts.last(),
        module_id: g.1,
        visible: true,
        export_type: None,
        version_conds: None,
    };
    lemma_attach_file(g.0, s.files, g.2, g.1, f, info);
    lemma_grow(s.nodes, root_id(), parts, s.next_id);
    let m = g.1;
    let node = g.0[m];
    let n2 = NodeView { children: node.children, file_ids: node.file_ids.push(f), parent: node.parent };
    let nodes2 = g.0.insert(m, n2);
    assert(after_insert(s, f, path).nodes == nodes2);
    assert(filled_except(s.nodes, root_id()));
    assert(!node.file_ids.contains(f));
    assert(files_once(g.0)) by {
        assert forall|n: u32| #[trigger] g.0.contains_key(n) implies g.0[n].file_ids.no_duplicates() by {
            if s.nodes.contains_key(n) {
                assert(s.nodes[n].file_ids.no_duplicates());
            }
        }
    }
    assert(n2.file_ids.no_duplicates()) by {
        assert forall|i: int, j: int| 0 <= i < n2.file_ids.len() && 0 <= j < n2.file_ids.len() && i != j
            implies n2.file_ids[i] != n2.file_ids[j] by {
            if i < node.file_ids.len() && j < node.file_ids.len() {
            } else if i < node.file_ids.len() {
                assert(node.file_ids.contains(node.file_ids[i]));
            } else if j < node.file_ids.len() {
                assert(node.file_ids.contains(node.file_ids[j]));
            }
        }
    }
    assert(files_once(nodes2));
    assert forall|n: u32, k: Seq<char>|
        #![trigger nodes2[n].children.contains_key(k)]
        nodes2.contains_key(n) && nodes2[n].children.contains_key(k) implies !node_empty(
            nodes2[nodes2[n].children[k]],
        ) by {
        assert(g.0[n].children.contains_key(k));
        let x = g.0[n].children[k];
        if x == m {
            assert(n2.file_ids.len() > 0);
        } else {
            assert(nodes2[x] == g.0[x]);
        }
    }
    assert(after_insert(s, f, path).files.remove(f) =~= s.files);
}

/// Filing a file under a module path makes the path lead to the node that holds
/// the file: the record names that node, the node lists the file last, and a
/// lookup of the path finds the first file of that node (the file itself when
/// no other file was filed there). Every other file keeps its record, and every
/// path that led somewhere once the file's old record was dropped still leads to
/// the same node.
pub proof fn lemma_add_then_find(s: IndexView, f: u32, path: Seq<char>)
    requires
        well_formed(s),
        room_for(s, f, path),
    ensures
        ({
            let s1 = after_remove(s, f);
            let s2 = after_insert(s1, f, path);
            let parts = split_on(path, '.');
            let m = s2.files[f].module_id;
            &&& well_formed(s2)
            &&& s2.files.contains_key(f)
            &&& s2.files.remove(f) == s.files.remove(f)
            &&& s2.files[f].full_module_name == path
            &&& s2.files[f].name == parts.last()
            &&& s2.files[f].visible
            &&& s2.files[f].export_type is None
            &&& s2.files[f].version_conds is None
            &&& resolve_path(s2.nodes, path) == Some(m)
            &&& s2.nodes[m].file_ids.last() == f
            &&& exact_find(s2, parts) == Some(s2.nodes[m].file_ids[0])
            &&& (s1.nodes.contains_key(m) ==> s2.nodes[m].file_ids == s1.nodes[m].file_ids.push(f))
            &&& (!s1.nodes.contains_key(m) ==> exact_find(s2, parts) == Some(f))
            &&& (forall|i: int| 0 <= i < path.len() ==> path[i] != '/' && path[i] != '\\')
                ==> find_module_file(s2, path) == exact_find(s2, parts)
            &&& forall|q: Seq<Seq<char>>|
                #[trigger] resolve(s1.nodes, root_id(), q) is Some ==> resolve(s2.nodes, root_id(), q)
                    == resolve(s1.nodes, root_id(), q)
        }),
{
    let s1 = after_remove(s, f);
    lemma_remove_consistent(s, f);
    lemma_insert_consistent(s1, f, path);
    let parts = split_on(path, '.');
    lemma_split_on_nonempty(path, '.');
    lemma_grow(s1.nodes, root_id(), parts, s1.next_id);
    let g = grow(s1.nodes, root_id(), parts, s1.next_id);
    let s2 = after_insert(s1, f, path);
    let m = g.1;
    assert(s2.files[f].module_id == m);
    let node = g.0[m];
    let n2 = NodeView { children: node.children, file_ids: node.file_ids.push(f), parent: node.parent };
    assert(s2.nodes == g.0.insert(m, n2));
    assert(s2.nodes.dom() =~= g.0.dom());
    lemma_resolve_same_children(g.0, s2.nodes, root_id(), parts);
    assert(s2.nodes[m].file_ids.len() > 0);
    assert(s2.files.contains_key(s2.nodes[m].file_ids[0]));
    if !s1.nodes.contains_key(m) {
        assert(s2.nodes[m].file_ids =~= seq![f]);
    }
    if forall|i: int| 0 <= i < path.len() ==> path[i] != '/' && path[i] != '\\' {
        assert(dotted(path) =~= path);
    }
    assert forall|q: Seq<Seq<char>>|
        #[trigger] resolve(s1.nodes, root_id(), q) is Some implies resolve(s2.nodes, root_id(), q)
            == resolve(s1.nodes, root_id(), q) by {
        lemma_resolve_extends(s1.nodes, g.0, root_id(), q);
        lemma_resolve_same_children(g.0, s2.nodes, root_id(), q);
    }
}

/// Two node tables with the same nodes and the same child entries resolve every
/// path alike.
pub proof fn lemma_resolve_same_children(
    a: Map<u32, NodeView>,
    b: Map<u32, NodeView>,
    id: u32,
    parts: Seq<Seq<char>>,
)
    requires
        a.dom() == b.dom(),
        forall|n: u32| #[trigger] a.contains_key(n) ==> a[n].children == b[n].children,
    ensures
        resolve(a, id, parts) == resolve(b, id, parts),
    decreases parts.len(),
{
    if a.contains_key(id) && parts.len() > 0 && a[id].children.contains_key(parts[0]) {
        lemma_resolve_same_children(a, b, a[id].children[parts[0]], parts.drop_first());
    }
    if !a.contains_key(id) {
        assert(!b.contains_key(id));
    }
}

/// No two entries of a name table share a name.
pub open spec fn names_distinct(names: Seq<(Seq<char>, Seq<u32>)>) -> bool {
    forall|i: int, j: int|
        0 <= i < names.len() && 0 <= j < names.len() && (#[trigger] names[i]).0 == (#[trigger] names[j]).0
            ==> i == j
}

/// With lookups by the last segment on, filing a file appends it to the list
/// filed under the last segment of its path, and starts that list when the name
/// is new; no name comes to stand twice in the table.
pub proof fn lemma_insert_files_name(s: IndexView, f: u32, path: Seq<char>)
    requires
        s.fuzzy,
        names_distinct(s.names),
    ensures
        ({
            let last = split_on(path, '.').last();
            let s2 = after_insert(s, f, path);
            &&& name_list(s2.names, last) == Some(
                match name_list(s.names, last) {
                    Some(l) => l.push(f),
                    None => seq![f],
                },
            )
            &&& names_distinct(s2.names)
        }),
{
    let names = s.names;
    let name = split_on(path, '.').last();
    let s2 = after_insert(s, f, path);
    let new = s2.names;
    assert(new == names_with(names, name, f));
    if exists|i: int| 0 <= i < names.len() && (#[trigger] names[i]).0 == name {
        let i = choose|i: int| 0 <= i < names.len() && (#[trigger] names[i]).0 == name;
        assert(new == names.update(i, (name, names[i].1.push(f))));
        assert(new[i].0 == name);
        let k = choose|k: int| 0 <= k < new.len() && (#[trigger] new[k]).0 == name;
        if k != i {
            assert(names[k].0 == name);
        }
        assert(name_list(names, name) == Some(names[i].1));
        assert forall|a: int, b: int|
            0 <= a < new.len() && 0 <= b < new.len() && (#[trigger] new[a]).0 == (#[trigger] new[b]).0
                implies a == b by {
            assert(names[a].0 == new[a].0);
            assert(names[b].0 == new[b].0);
        }
    } else {
        let n = names.len() as int;
        assert(new == names.push((name, seq![f])));
        assert(new[n].0 == name);
        let k = choose|k: int| 0 <= k < new.len() && (#[trigger] new[k]).0 == name;
        if k < n {
            assert(names[k].0 == name);
        }
        assert forall|a: int, b: int|
            0 <= a < new.len() && 0 <= b < new.len() && (#[trigger] new[a]).0 == (#[trigger] new[b]).0
                implies a == b by {
            if a < n && b < n {
                assert(names[a].0 == new[a].0);
                assert(names[b].0 == new[b].0);
            } else if a < n {
                assert(names[a].0 == name);
            } else if b < n {
                assert(names[b].0 == name);
            }
        }
    }
}

/// The last step of a walk of at least one step follows a child entry.
proof fn lemma_resolve_last_entry(nodes: Map<u32, NodeView>, id: u32, parts: Seq<Seq<char>>)
    requires
        parts.len() > 0,
        resolve(nodes, id, parts) is Some,
    ensures
        ({
            let n = resolve(nodes, id, parts).unwrap();
            exists|p: u32, k: Seq<char>|
                nodes.contains_key(p) && #[trigger] nodes[p].children.contains_key(k)
                    && nodes[p].children[k] == n
        }),
    decreases parts.len(),
{
    let c = nodes[id].children[parts[0]];
    assert(resolve(nodes, id, parts) == resolve(nodes, c, parts.drop_first()));
    if parts.len() > 1 {
        lemma_resolve_last_entry(nodes, c, parts.drop_first());
    } else {
        assert(parts.drop_first().len() == 0);
        assert(nodes[id].children.contains_key(parts[0]));
        assert(resolve(nodes, c, parts.drop_first()) == Some(c));
        assert(resolve(nodes, id, parts) == Some(c));
        assert(nodes.contains_key(id) && nodes[id].children.contains_key(parts[0])
            && nodes[id].children[parts[0]] == c);
    }
}

/// In a consistent index every file with a record is listed exactly once, at
/// the node its record names, and by no other node; and every node that a
/// walk of at least one step from the root reaches holds files or children.
pub proof fn lemma_index_invariant(s: IndexView)
    requires
        well_formed(s),
    ensures
        forall|f: u32|
            #[trigger] s.files.contains_key(f) ==> {
                let m = s.files[f].module_id;
                &&& s.nodes.contains_key(m)
                &&& s.nodes[m].file_ids.contains(f)
                &&& forall|i: int, j: int|
                    0 <= i < s.nodes[m].file_ids.len() && 0 <= j < s.nodes[m].file_ids.len()
                        && s.nodes[m].file_ids[i] == f && s.nodes[m].file_ids[j] == f ==> i == j
            },
        forall|n: u32, i: int|
            s.nodes.contains_key(n) && 0 <= i < s.nodes[n].file_ids.len() ==> s.files.contains_key(
                #[trigger] s.nodes[n].file_ids[i],
            ) && s.files[s.nodes[n].file_ids[i]].module_id == n,
        forall|parts: Seq<Seq<char>>|
            parts.len() > 0 && #[trigger] resolve(s.nodes, root_id(), parts) is Some ==> {
                let n = resolve(s.nodes, root_id(), parts).unwrap();
                &&& s.nodes.contains_key(n)
                &&& n != root_id()
                &&& !node_empty(s.nodes[n])
            },
{
    assert forall|f: u32| #[trigger] s.files.contains_key(f) implies {
        let m = s.files[f].module_id;
        &&& s.nodes.contains_key(m)
        &&& s.nodes[m].file_ids.contains(f)
        &&& forall|i: int, j: int|
            0 <= i < s.nodes[m].file_ids.len() && 0 <= j < s.nodes[m].file_ids.len()
                && s.nodes[m].file_ids[i] == f && s.nodes[m].file_ids[j] == f ==> i == j
    } by {
        assert(s.nodes[s.files[f].module_id].file_ids.no_duplicates());
    }
    assert forall|parts: Seq<Seq<char>>|
        parts.len() > 0 && #[trigger] resolve(s.nodes, root_id(), parts) is Some implies {
        let n = resolve(s.nodes, root_id(), parts).unwrap();
        &&& s.nodes.contains_key(n)
        &&& n != root_id()
        &&& !node_empty(s.nodes[n])
    } by {
        lemma_resolve_last_entry(s.nodes, root_id(), parts);
        let n = resolve(s.nodes, root_id(), parts).unwrap();
        let (p, k) = choose|p: u32, k: Seq<char>|
            s.nodes.contains_key(p) && #[trigger] s.nodes[p].children.contains_key(k)
                && s.nodes[p].children[k] == n;
        assert(s.nodes[p].children.contains_key(k));
    }
}

/// A filter keeps a first element that passes its test in the first place.
proof fn lemma_filter_first(s: Seq<u32>, pred: spec_fn(u32) -> bool)
    requires
        s.len() > 0,
        pred(s[0]),
    ensures
        s.filter(pred).len() > 0,
        s.filter(pred)[0] == s[0],
    decreases s.len(),
{
    reveal(Seq::filter);
    if s.len() == 1 {
        assert(s.drop_last().filter(pred) =~= Seq::<u32>::empty());
    } else {
        let init = s.drop_last();
        lemma_filter_first(init, pred);
        assert(init[0] == s[0]);
    }
}

/// Detaching an empty or absent node `c` from `p` keeps every walk that ends at
/// a node with files; so does deleting `p` afterwards when it is left empty.
proof fn lemma_resolve_detach(
    nodes: Map<u32, NodeView>,
    p: u32,
    c: u32,
    id: u32,
    parts: Seq<Seq<char>>,
    n: u32,
)
    requires
        resolve(nodes, id, parts) == Some(n),
        nodes.contains_key(n),
        nodes[n].file_ids.len() > 0,
        nodes.contains_key(p),
        !nodes.contains_key(c) || node_empty(nodes[c]),
    ensures
        ({
            let nodes2 = nodes.insert(p, without_child(nodes[p], c));
            &&& resolve(nodes2, id, parts) == Some(n)
            &&& node_empty(without_child(nodes[p], c)) ==> resolve(nodes2.remove(p), id, parts) == Some(n)
        }),
    decreases parts.len(),
{
    let n2 = without_child(nodes[p], c);
    let nodes2 = nodes.insert(p, n2);
    if parts.len() > 0 {
        let x = nodes[id].children[parts[0]];
        let rest = parts.drop_first();
        assert(resolve(nodes, id, parts) == resolve(nodes, x, rest));
        if x == c {
            if rest.len() > 0 {
                assert(!nodes[c].children.contains_key(rest[0]));
            }
        }
        assert(x != c);
        lemma_resolve_detach(nodes, p, c, x, rest, n);
        assert(nodes2[id].children.contains_key(parts[0]) && nodes2[id].children[parts[0]] == x);
        if node_empty(n2) {
            if id == p {
                assert(n2.children.dom().contains(parts[0]));
            }
            assert(nodes2.remove(p)[id] == nodes2[id]);
        }
    } else {
        if node_empty(n2) {
            assert(id != p);
        }
    }
}

/// Pruning keeps every walk from the root that ends at a node with files.
proof fn lemma_prune_keeps_walk(
    nodes: Map<u32, NodeView>,
    files: Map<u32, ModuleInfoView>,
    next: nat,
    p: u32,
    c: u32,
    parts: Seq<Seq<char>>,
    n: u32,
)
    requires
        pruning(nodes, files, next, p, c),
        resolve(nodes, root_id(), parts) == Some(n),
        nodes.contains_key(n),
        nodes[n].file_ids.len() > 0,
    ensures
        resolve(prune(nodes, Some(p), c).0, root_id(), parts) == Some(n),
    decreases c,
{
    lemma_prune_step(nodes, files, next, p, c);
    lemma_resolve_detach(nodes, p, c, root_id(), parts, n);
    let n2 = without_child(nodes[p], c);
    let nodes2 = nodes.insert(p, n2);
    if p != root_id() && node_empty(n2) {
        let nodes3 = nodes2.remove(p);
        assert(n != p);
        assert(nodes3[n] == nodes[n]);
        lemma_prune_keeps_walk(nodes3, files, next, n2.parent.unwrap(), p, parts, n);
    }
}

/// Dropping the record of a file keeps every other file that a lookup found by
/// an exact match in the tree: the same lookup still finds it.
pub proof fn lemma_remove_keeps_lookups(s: IndexView, f: u32, path: Seq<char>)
    requires
        well_formed(s),
        exact_find(s, split_on(dotted(path), '.')) matches Some(g) && g != f,
    ensures
        exact_find(after_remove(s, f), split_on(dotted(path), '.')) == exact_find(
            s,
            split_on(dotted(path), '.'),
        ),
        find_module_file(after_remove(s, f), path) == exact_find(s, split_on(dotted(path), '.')),
{
    let parts = split_on(dotted(path), '.');
    let g = exact_find(s, parts).unwrap();
    let r = after_remove(s, f);
    lemma_remove_consistent(s, f);
    if s.files.contains_key(f) {
        let n = resolve(s.nodes, root_id(), parts).unwrap();
        lemma_resolve_present(s.nodes, root_id(), parts);
        assert(s.nodes[n].file_ids[0] == g);
        lemma_drop_file(s, f);
        let m = s.files[f].module_id;
        let node = without_file(s.nodes[m], f);
        let nodes1 = s.nodes.insert(m, node);
        let files1 = s.files.remove(f);
        assert(nodes1.dom() =~= s.nodes.dom());
        lemma_resolve_same_children(s.nodes, nodes1, root_id(), parts);
        if n == m {
            lemma_filter_first(s.nodes[m].file_ids, other_than(f));
        }
        assert(nodes1[n].file_ids.len() > 0 && nodes1[n].file_ids[0] == g);
        if node_empty(node) && node.parent is Some {
            assert(n != m);
            lemma_prune_keeps_walk(nodes1, files1, s.next_id, node.parent.unwrap(), m, parts, n);
            lemma_prune_ok(nodes1, files1, s.next_id, node.parent.unwrap(), m);
            lemma_resolve_present(r.nodes, root_id(), parts);
            assert(r.nodes[n].file_ids == nodes1[n].file_ids);
        }
        assert(r.files.contains_key(g));
    }
}

/// Filing a file keeps every other file that a lookup found by an exact match
/// in the tree: the same lookup still finds it.
pub proof fn lemma_add_keeps_lookups(s: IndexView, f: u32, path: Seq<char>, other: Seq<char>)
    requires
        well_formed(s),
        room_for(s, f, path),
        exact_find(s, split_on(dotted(other), '.')) matches Some(g) && g != f,
    ensures
        ({
            let s2 = after_insert(after_remove(s, f), f, path);
            &&& exact_find(s2, split_on(dotted(other), '.')) == exact_find(s, split_on(dotted(other), '.'))
            &&& find_module_file(s2, other) == exact_find(s, split_on(dotted(other), '.'))
        }),
{
    let q = split_on(dotted(other), '.');
    let g = exact_find(s, q).unwrap();
    let s1 = after_remove(s, f);
    lemma_remove_keeps_lookups(s, f, other);
    lemma_remove_consistent(s, f);
    let n = resolve(s1.nodes, root_id(), q).unwrap();
    lemma_resolve_present(s1.nodes, root_id(), q);
    let parts = split_on(path, '.');
    lemma_split_on_nonempty(path, '.');
    lemma_grow(s1.nodes, root_id(), parts, s1.next_id);
    let gr = grow(s1.nodes, root_id(), parts, s1.next_id);
    lemma_resolve_extends(s1.nodes, gr.0, root_id(), q);
    let s2 = after_insert(s1, f, path);
    let m = gr.1;
    let node = gr.0[m];
    let n2 = NodeView { children: node.children, file_ids: node.file_ids.push(f), parent: node.parent };
    assert(s2.nodes == gr.0.insert(m, n2));
    assert(s2.nodes.dom() =~= gr.0.dom());
    lemma_resolve_same_children(gr.0, s2.nodes, root_id(), q);
    assert(gr.0[n].file_ids == s1.nodes[n].file_ids);
    assert(s2.nodes[n].file_ids[0] == g);
    assert(s2.files.contains_key(g));
}

/// The file at position `i` of `list` is the earliest whose module name ends
/// with `path`, and every file before it has a record.
pub open spec fn earliest_match(files: Map<u32, ModuleInfoView>, list: Seq<u32>, path: Seq<char>, i: int) -> bool {
    &&& 0 <= i < list.len()
    &&& files.contains_key(list[i])
    &&& has_suffix(files[list[i]].full_module_name, path)
    &&& forall|j: int|
        0 <= j < i ==> files.contains_key(#[trigger] list[j]) && !has_suffix(
            files[list[j]].full_module_name,
            path,
        )
}

/// The walk over a list finds exactly the earliest match, if there is one.
proof fn lemma_pick_earliest(files: Map<u32, ModuleInfoView>, list: Seq<u32>, path: Seq<char>)
    ensures
        fuzzy_pick(files, list, path) matches Some(g) ==> exists|i: int|
            earliest_match(files, list, path, i) && #[trigger] list[i] == g,
        forall|i: int| earliest_match(files, list, path, i) ==> fuzzy_pick(files, list, path) == Some(
            #[trigger] list[i],
        ),
    decreases list.len(),
{
    if list.len() > 0 && files.contains_key(list[0]) {
        let rest = list.drop_first();
        lemma_pick_earliest(files, rest, path);
        if has_suffix(files[list[0]].full_module_name, path) {
            assert(earliest_match(files, list, path, 0));
            assert forall|i: int| earliest_match(files, list, path, i) implies fuzzy_pick(files, list, path)
                == Some(#[trigger] list[i]) by {
                if i > 0 {
                    assert(!has_suffix(files[list[0]].full_module_name, path));
                }
            }
        } else {
            if fuzzy_pick(files, list, path) is Some {
                let g = fuzzy_pick(files, list, path).unwrap();
                let k = choose|k: int| earliest_match(files, rest, path, k) && #[trigger] rest[k] == g;
                assert(list[k + 1] == g);
                assert forall|j: int| 0 <= j < k + 1 implies files.contains_key(#[trigger] list[j])
                    && !has_suffix(files[list[j]].full_module_name, path) by {
                    if j > 0 {
                        assert(list[j] == rest[j - 1]);
                    }
                }
                assert(earliest_match(files, list, path, k + 1));
            }
            assert forall|i: int| earliest_match(files, list, path, i) implies fuzzy_pick(files, list, path)
                == Some(#[trigger] list[i]) by {
                assert(i > 0);
                assert(list[i] == rest[i - 1]);
                assert forall|j: int| 0 <= j < i - 1 implies files.contains_key(#[trigger] rest[j])
                    && !has_suffix(files[rest[j]].full_module_name, path) by {
                    assert(rest[j] == list[j + 1]);
                }
                assert(earliest_match(files, rest, path, i - 1));
            }
        }
    }
}

/// A lookup by last segment takes the list filed under that segment. A list of
/// one file gives that file when it has a record. A longer list gives the
/// earliest file whose module name ends with the looked-up path, provided every
/// file before it has a record, and nothing when there is no such file.
pub proof fn lemma_fuzzy_find_earliest(s: IndexView, path: Seq<char>, last: Seq<char>)
    ensures
        ({
            let found = fuzzy_find(s, path, last);
            match name_list(s.names, last) {
                None => found is None,
                Some(l) => if l.len() == 1 {
                    found == (if s.files.contains_key(l[0]) {
                        Some(l[0])
                    } else {
                        None
                    })
                } else {
                    &&& (found is Some ==> exists|i: int|
                        earliest_match(s.files, l, path, i) && #[trigger] l[i] == found.unwrap())
                    &&& forall|i: int| earliest_match(s.files, l, path, i) ==> found == Some(#[trigger] l[i])
                },
            }
        }),
{
    if name_list(s.names, last) is Some {
        lemma_pick_earliest(s.files, name_list(s.names, last).unwrap(), path);
    }
}

/// Dropping the record of `f` cleans the table of names as well: the file's
/// node is left with neither files nor children, hangs below a parent, the
/// deletion of emptied ancestors stops below the root, and the table is not
/// empty.
pub open spec fn cleans_names(s: IndexView, f: u32) -> bool {
    &&& s.files.contains_key(f)
    &&& s.names.len() > 0
    &&& {
        let m = s.files[f].module_id;
        let node = without_file(s.nodes[m], f);
        &&& node_empty(node)
        &&& node.parent is Some
        &&& prune(s.nodes.insert(m, node), node.parent, m).1
    }
}

/// A list whose items all pass a test is kept whole by filtering.
proof fn lemma_filter_all(l: Seq<u32>, pred: spec_fn(u32) -> bool)
    requires
        forall|i: int| 0 <= i < l.len() ==> pred(#[trigger] l[i]),
    ensures
        l.filter(pred) == l,
    decreases l.len(),
{
    reveal(Seq::filter);
    if l.len() > 0 {
        lemma_filter_all(l.drop_last(), pred);
        assert(l.drop_last().push(l.last()) =~= l);
    }
}

/// In a table without repeated names, the list filed under the name of entry
/// `k` is the list of entry `k`.
proof fn lemma_name_list_at(names: Seq<(Seq<char>, Seq<u32>)>, k: int)
    requires
        names_distinct(names),
        0 <= k < names.len(),
    ensures
        name_list(names, names[k].0) == Some(names[k].1),
{
    let n = names[k].0;
    assert(names[k].0 == n);
    let c = choose|i: int| 0 <= i < names.len() && (#[trigger] names[i]).0 == n;
    assert(names[c].0 == names[k].0);
}

/// When dropping the record of `f` cleans the table of names, and `f` stands in
/// at most one list, filed under a non-empty name, every name keeps its list
/// with `f` taken out, and a name whose list is left empty is forgotten; the
/// other files keep their places.
pub proof fn lemma_remove_cleans_names(s: IndexView, f: u32)
    requires
        cleans_names(s, f),
        names_distinct(s.names),
        forall|i: int| 0 <= i < s.names.len() ==> (#[trigger] s.names[i]).1.len() > 0,
        forall|i: int, j: int|
            0 <= i < s.names.len() && 0 <= j < s.names.len() && (#[trigger] s.names[i]).1.contains(f)
                && (#[trigger] s.names[j]).1.contains(f) ==> i == j,
        forall|i: int| 0 <= i < s.names.len() && (#[trigger] s.names[i]).1.contains(f) ==> s.names[i].0.len() > 0,
    ensures
        names_distinct(after_remove(s, f).names),
        forall|n: Seq<char>|
            #[trigger] name_list(after_remove(s, f).names, n) == match name_list(s.names, n) {
                None => None,
                Some(l) => if l.filter(other_than(f)).len() == 0 {
                    None
                } else {
                    Some(l.filter(other_than(f)))
                },
            },
{
    let names = s.names;
    let new = after_remove(s, f).names;
    assert(new == names_without(names, f));
    // Lists that do not hold `f` are kept whole by the filter.
    assert forall|j: int| 0 <= j < names.len() && !(#[trigger] names[j]).1.contains(f) implies names[j].1.filter(
        other_than(f),
    ) == names[j].1 by {
        assert forall|x: int| 0 <= x < names[j].1.len() implies other_than(f)(#[trigger] names[j].1[x]) by {
            if names[j].1[x] == f {
                assert(names[j].1.contains(f));
            }
        }
        lemma_filter_all(names[j].1, other_than(f));
    }
    match first_name_with(names, f) {
        None => {
            assert(new == names);
            assert forall|n: Seq<char>| #[trigger] name_list(new, n) == match name_list(names, n) {
                None => None,
                Some(l) => if l.filter(other_than(f)).len() == 0 {
                    None
                } else {
                    Some(l.filter(other_than(f)))
                },
            } by {
                if name_list(names, n) is Some {
                    let k = choose|i: int| 0 <= i < names.len() && (#[trigger] names[i]).0 == n;
                    assert(!names[k].1.contains(f));
                }
            }
        },
        Some(i) => {
            assert(0 <= i < names.len() && names[i].1.contains(f));
            let name0 = names[i].0;
            let list = names[i].1.filter(other_than(f));
            assert(name0.len() > 0);
            if list.len() == 0 {
                assert(new == names.remove(i));
            } else {
                assert(new == names.update(i, (name0, list)));
            }
            assert(names_distinct(new)) by {
                assert forall|a: int, b: int|
                    0 <= a < new.len() && 0 <= b < new.len() && (#[trigger] new[a]).0 == (#[trigger] new[b]).0
                        implies a == b by {
                    if list.len() == 0 {
                        let a0 = if a < i { a } else { a + 1 };
                        let b0 = if b < i { b } else { b + 1 };
                        assert(new[a] == names[a0] && new[b] == names[b0]);
                    } else {
                        assert(new[a].0 == names[a].0 && new[b].0 == names[b].0);
                    }
                }
            }
            assert forall|n: Seq<char>| #[trigger] name_list(new, n) == match name_list(names, n) {
                None => None,
                Some(l) => if l.filter(other_than(f)).len() == 0 {
                    None
                } else {
                    Some(l.filter(other_than(f)))
                },
            } by {
                if n == name0 {
                    lemma_name_list_at(names, i);
                    if list.len() == 0 {
                        if exists|k: int| 0 <= k < new.len() && (#[trigger] new[k]).0 == n {
                            let k = choose|k: int| 0 <= k < new.len() && (#[trigger] new[k]).0 == n;
                            let k0 = if k < i { k } else { k + 1 };
                            assert(new[k] == names[k0]);
                        }
                    } else {
                        assert(new[i] == (name0, list));
                        lemma_name_list_at(new, i);
                    }
                } else if exists|j: int| 0 <= j < names.len() && (#[trigger] names[j]).0 == n {
                    let j = choose|j: int| 0 <= j < names.len() && (#[trigger] names[j]).0 == n;
                    lemma_name_list_at(names, j);
                    assert(j != i);
                    assert(!names[j].1.contains(f));
                    let jj = if list.len() == 0 && j > i { j - 1 } else { j };
                    assert(new[jj] == names[j]);
                    lemma_name_list_at(new, jj);
                } else {
                    if exists|k: int| 0 <= k < new.len() && (#[trigger] new[k]).0 == n {
                        let k = choose|k: int| 0 <= k < new.len() && (#[trigger] new[k]).0 == n;
                        if list.len() == 0 {
                            let k0 = if k < i { k } else { k + 1 };
                            assert(new[k] == names[k0]);
                        } else {
                            assert(k != i);
                            assert(new[k] == names[k]);
                        }
                    }
                }
            }
        },
    }
}

/// When dropping the record of `f` cleans the table of names, as in
/// `lemma_remove_cleans_names`, a lookup by last segment that found another
/// file still finds it.
pub proof fn lemma_remove_keeps_fuzzy(s: IndexView, f: u32, path: Seq<char>, last: Seq<char>)
    requires
        cleans_names(s, f),
        names_distinct(s.names),
        forall|i: int| 0 <= i < s.names.len() ==> (#[trigger] s.names[i]).1.len() > 0,
        forall|i: int, j: int|
            0 <= i < s.names.len() && 0 <= j < s.names.len() && (#[trigger] s.names[i]).1.contains(f)
                && (#[trigger] s.names[j]).1.contains(f) ==> i == j,
        forall|i: int| 0 <= i < s.names.len() && (#[trigger] s.names[i]).1.contains(f) ==> s.names[i].0.len() > 0,
        fuzzy_find(s, path, last) matches Some(g) && g != f,
    ensures
        fuzzy_find(after_remove(s, f), path, last) == fuzzy_find(s, path, last),
{
    broadcast use vstd::seq::Seq::filter_distributes_over_add;

    let g = fuzzy_find(s, path, last).unwrap();
    let r = after_remove(s, f);
    lemma_remove_cleans_names(s, f);
    lemma_fuzzy_find_earliest(s, path, last);
    lemma_fuzzy_find_earliest(r, path, last);
    let l = name_list(s.names, last).unwrap();
    let p = other_than(f);
    let l2 = l.filter(p);
    assert(r.files == s.files.remove(f));
    if l.len() == 1 {
        assert(g == l[0]);
        assert forall|x: int| 0 <= x < l.len() implies p(#[trigger] l[x]) by {}
        lemma_filter_all(l, p);
    } else {
        let i = choose|i: int| earliest_match(s.files, l, path, i) && #[trigger] l[i] == g;
        let a = l.take(i);
        let b = l.skip(i + 1);
        assert(l =~= a.push(g) + b);
        reveal(Seq::filter);
        assert(a.push(g).drop_last() =~= a);
        assert(l2 == a.filter(p).push(g) + b.filter(p));
        let k = a.filter(p).len() as int;
        assert(l2[k] == g);
        lemma_filter_from(a, p);
        assert forall|j: int| 0 <= j < k implies r.files.contains_key(#[trigger] l2[j]) && !has_suffix(
            r.files[l2[j]].full_module_name,
            path,
        ) by {
            assert(l2[j] == a.filter(p)[j]);
            assert(a.contains(l2[j]) && p(l2[j]));
            let x = choose|x: int| 0 <= x < a.len() && a[x] == l2[j];
            assert(l[x] == a[x]);
        }
        assert(earliest_match(r.files, l2, path, k));
        if l2.len() == 1 {
            assert(k == 0);
        }
    }
}

} // verus!
