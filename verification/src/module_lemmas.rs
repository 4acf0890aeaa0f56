//! Proofs that removing a file keeps the module index consistent.
use vstd::prelude::*;

use crate::module_node::{ModuleInfoView, NodeView};
use crate::module_spec::{
    children_linked, grow, files_linked, has_child, node_empty, other_than, parents_linked, root_id, tree_ok, well_formed,
    without_child, without_file, IndexView,
};

verus! {

/// What a filter keeps comes from the filtered sequence and passes the test.
pub proof fn lemma_filter_from<A>(s: Seq<A>, pred: spec_fn(A) -> bool)
    ensures
        forall|i: int|
            0 <= i < s.filter(pred).len() ==> s.contains(#[trigger] s.filter(pred)[i]) && pred(
                s.filter(pred)[i],
            ),
    decreases s.len(),
{
    reveal(Seq::filter);
    if s.len() > 0 {
        lemma_filter_from(s.drop_last(), pred);
        let out = s.filter(pred);
        let sub = s.drop_last().filter(pred);
        assert forall|i: int| 0 <= i < out.len() implies s.contains(#[trigger] out[i]) && pred(
            out[i],
        ) by {
            if i < sub.len() {
                assert(out[i] == sub[i]);
                let j = choose|j: int| 0 <= j < s.drop_last().len() && s.drop_last()[j] == sub[i];
                assert(s[j] == out[i]);
            } else {
                assert(out[i] == s.last());
                assert(s[s.len() - 1] == out[i]);
            }
        }
    }
}

/// The conditions that hold while the child `c` is being detached from `p`: all
/// of `well_formed`, except that the child entries of `p` that name `c` may name
/// a node that is gone.
pub open spec fn pruning(
    nodes: Map<u32, NodeView>,
    files: Map<u32, ModuleInfoView>,
    next: nat,
    p: u32,
    c: u32,
) -> bool {
    &&& nodes.contains_key(root_id())
    &&& nodes[root_id()].parent is None
    &&& forall|n: u32| #[trigger] nodes.contains_key(n) ==> n < next
    &&& next <= u32::MAX
    &&& forall|n: u32, k: Seq<char>|
        #![trigger nodes[n].children.contains_key(k)]
        nodes.contains_key(n) && nodes[n].children.contains_key(k) ==> {
            let x = nodes[n].children[k];
            (n == p && x == c) || {
                &&& nodes.contains_key(x)
                &&& nodes[x].parent == Some(n)
                &&& n < x
            }
        }
    &&& parents_linked(nodes)
    &&& files_linked(nodes, files)
    &&& nodes.contains_key(p)
    &&& p < c
    &&& has_child(nodes[p], c)
    &&& !nodes.contains_key(c) || node_empty(nodes[c])
    &&& nodes.contains_key(c) ==> nodes[c].parent == Some(p)
}

/// Dropping a file from its node keeps the index consistent, and when the node
/// is left empty and has a parent, the index is ready for pruning.
pub proof fn lemma_drop_file(s: IndexView, f: u32)
    requires
        well_formed(s),
        s.files.contains_key(f),
    ensures
        ({
            let m = s.files[f].module_id;
            let node = without_file(s.nodes[m], f);
            let nodes1 = s.nodes.insert(m, node);
            let files1 = s.files.remove(f);
            &&& s.nodes.contains_key(m)
            &&& (!node_empty(node) || node.parent is None) ==> tree_ok(nodes1, files1, s.next_id)
            &&& (node_empty(node) && node.parent is Some) ==> pruning(
                nodes1,
                files1,
                s.next_id,
                node.parent.unwrap(),
                m,
            )
        }),
{
    broadcast use vstd::seq_lib::group_filter_ensures;

    let m = s.files[f].module_id;
    let old_node = s.nodes[m];
    lemma_filter_from(old_node.file_ids, other_than(f));
    let node = without_file(old_node, f);
    let nodes1 = s.nodes.insert(m, node);
    let files1 = s.files.remove(f);
    assert(s.nodes.contains_key(m));
    assert(old_node.file_ids.contains(f));
    assert(!node_empty(old_node));
    // Links between nodes do not depend on files.
    assert(children_linked(nodes1)) by {
        assert forall|n: u32, k: Seq<char>|
            #![trigger nodes1[n].children.contains_key(k)]
            nodes1.contains_key(n) && nodes1[n].children.contains_key(k) implies {
            let c = nodes1[n].children[k];
            &&& nodes1.contains_key(c)
            &&& nodes1[c].parent == Some(n)
            &&& n < c
        } by {
            assert(s.nodes[n].children.contains_key(k));
        }
    }
    assert forall|n: u32|
        #![trigger nodes1.contains_key(n)]
        nodes1.contains_key(n) && n != root_id() && !node_empty(nodes1[n])
            && n != m implies {
        &&& nodes1[n].parent is Some
        &&& nodes1.contains_key(nodes1[n].parent.unwrap())
        &&& nodes1[n].parent.unwrap() < n
        &&& has_child(nodes1[nodes1[n].parent.unwrap()], n)
    } by {
        assert(s.nodes.contains_key(n));
        let p = s.nodes[n].parent.unwrap();
        assert(has_child(s.nodes[p], n));
        let k = choose|k: Seq<char>| #[trigger] s.nodes[p].children.contains_key(k) && s.nodes[p].children[k] == n;
        assert(nodes1[p].children.contains_key(k));
    }
    if m != root_id() {
        assert(s.nodes.contains_key(m));
        let p = s.nodes[m].parent.unwrap();
        assert(has_child(s.nodes[p], m));
        let k = choose|k: Seq<char>| #[trigger] s.nodes[p].children.contains_key(k) && s.nodes[p].children[k] == m;
        assert(nodes1[p].children.contains_key(k));
        assert(has_child(nodes1[p], m));
    }
    assert(parents_linked(nodes1));
    assert(files_linked(nodes1, files1)) by {
        assert forall|g: u32| #![trigger files1.contains_key(g)] files1.contains_key(g) implies {
            &&& files1[g].file_id == g
            &&& nodes1.contains_key(files1[g].module_id)
            &&& nodes1[files1[g].module_id].file_ids.contains(g)
        } by {
            let mg = s.files[g].module_id;
            assert(s.nodes[mg].file_ids.contains(g));
            if mg == m {
                let i = choose|i: int| 0 <= i < old_node.file_ids.len() && old_node.file_ids[i] == g;
                assert(old_node.file_ids.filter(other_than(f)).contains(g));
            }
        }
        assert forall|n: u32, i: int|
            #![trigger nodes1[n].file_ids[i]]
            nodes1.contains_key(n) && 0 <= i < nodes1[n].file_ids.len() implies {
            &&& files1.contains_key(nodes1[n].file_ids[i])
            &&& files1[nodes1[n].file_ids[i]].module_id == n
        } by {
            if n == m {
                let x = nodes1[n].file_ids[i];
                assert(old_node.file_ids.filter(other_than(f))[i] == x);
                assert(x != f);
                assert(old_node.file_ids.contains(x));
                let j = choose|j: int| 0 <= j < old_node.file_ids.len() && old_node.file_ids[j] == x;
                assert(s.nodes[m].file_ids[j] == x);
            } else {
                assert(s.nodes[n].file_ids[i] == nodes1[n].file_ids[i]);
            }
        }
    }
    if node_empty(node) && node.parent is Some {
        let p = node.parent.unwrap();
        assert(m != root_id());
        assert(pruning(nodes1, files1, s.next_id, p, m));
    }
}

/// One step of pruning: detaching `c` from `p` either ends in a consistent index
/// (at the root, or when `p` keeps files or children) or deletes `p`, which then
/// has to be detached from its own parent.
pub proof fn lemma_prune_step(
    nodes: Map<u32, NodeView>,
    files: Map<u32, ModuleInfoView>,
    next: nat,
    p: u32,
    c: u32,
)
    requires
        pruning(nodes, files, next, p, c),
    ensures
        ({
            let n2 = without_child(nodes[p], c);
            let nodes2 = nodes.insert(p, n2);
            &&& (p == root_id() || !node_empty(n2)) ==> tree_ok(nodes2, files, next)
            &&& (p != root_id() && node_empty(n2)) ==> {
                &&& n2.parent is Some
                &&& pruning(nodes2.remove(p), files, next, n2.parent.unwrap(), p)
            }
        }),
{
    let np = nodes[p];
    let n2 = without_child(np, c);
    let nodes2 = nodes.insert(p, n2);
    // Only `p` holds entries naming `c`.
    assert forall|n: u32, k: Seq<char>|
        #![trigger nodes[n].children.contains_key(k)]
        nodes.contains_key(n) && nodes[n].children.contains_key(k) && nodes[n].children[k] == c
            implies n == p by {
        if n != p {
            assert(nodes.contains_key(c) && nodes[c].parent == Some(n));
            assert(node_empty(nodes[c]));
            assert(nodes[c].parent == Some(p));
        }
    }
    assert(children_linked(nodes2)) by {
        assert forall|n: u32, k: Seq<char>|
            #![trigger nodes2[n].children.contains_key(k)]
            nodes2.contains_key(n) && nodes2[n].children.contains_key(k) implies {
            let x = nodes2[n].children[k];
            &&& nodes2.contains_key(x)
            &&& nodes2[x].parent == Some(n)
            &&& n < x
        } by {
            assert(nodes[n].children.contains_key(k));
        }
    }
    assert(files_linked(nodes2, files)) by {
        assert forall|n: u32, i: int|
            #![trigger nodes2[n].file_ids[i]]
            nodes2.contains_key(n) && 0 <= i < nodes2[n].file_ids.len() implies {
            &&& files.contains_key(nodes2[n].file_ids[i])
            &&& files[nodes2[n].file_ids[i]].module_id == n
        } by {
            assert(nodes[n].file_ids[i] == nodes2[n].file_ids[i]);
        }
    }
    // A non-empty node whose parent is `p` is listed by `n2`.
    assert forall|n: u32|
        nodes.contains_key(n) && n != root_id() && !node_empty(nodes[n]) && nodes[n].parent
            == Some(p) implies #[trigger] has_child(n2, n) by {
        assert(has_child(np, n));
        let k = choose|k: Seq<char>| #[trigger] np.children.contains_key(k) && np.children[k] == n;
        if n == c {
            assert(node_empty(nodes[c]));
        }
        assert(n2.children.contains_key(k));
    }
    if p == root_id() || !node_empty(n2) {
        assert(parents_linked(nodes2)) by {
            assert forall|n: u32|
                #![trigger nodes2.contains_key(n)]
                nodes2.contains_key(n) && n != root_id() && !node_empty(nodes2[n]) implies {
                &&& nodes2[n].parent is Some
                &&& nodes2.contains_key(nodes2[n].parent.unwrap())
                &&& nodes2[n].parent.unwrap() < n
                &&& has_child(nodes2[nodes2[n].parent.unwrap()], n)
            } by {
                if n == p {
                    assert(!node_empty(nodes[p]));
                } else {
                    assert(nodes.contains_key(n));
                }
            }
        }
        assert(tree_ok(nodes2, files, next));
    }
    if p != root_id() && node_empty(n2) {
        assert(!node_empty(np)) by {
            let k = choose|k: Seq<char>| #[trigger] np.children.contains_key(k) && np.children[k] == c;
            assert(np.children.dom().contains(k));
        }
        let pp = np.parent.unwrap();
        let nodes3 = nodes2.remove(p);
        assert(has_child(nodes[pp], p));
        assert(pp != p);
        assert(nodes3[pp] == nodes[pp]);
        assert forall|n: u32, k: Seq<char>|
            #![trigger nodes3[n].children.contains_key(k)]
            nodes3.contains_key(n) && nodes3[n].children.contains_key(k) implies {
            let x = nodes3[n].children[k];
            (n == pp && x == p) || {
                &&& nodes3.contains_key(x)
                &&& nodes3[x].parent == Some(n)
                &&& n < x
            }
        } by {
            assert(nodes2[n].children.contains_key(k));
        }
        assert(parents_linked(nodes3)) by {
            assert forall|n: u32|
                #![trigger nodes3.contains_key(n)]
                nodes3.contains_key(n) && n != root_id() && !node_empty(nodes3[n]) implies {
                &&& nodes3[n].parent is Some
                &&& nodes3.contains_key(nodes3[n].parent.unwrap())
                &&& nodes3[n].parent.unwrap() < n
                &&& has_child(nodes3[nodes3[n].parent.unwrap()], n)
            } by {
                assert(nodes.contains_key(n));
                let q = nodes[n].parent.unwrap();
                if q == p {
                    assert(has_child(n2, n));
                    let k = choose|k: Seq<char>| #[trigger] n2.children.contains_key(k) && n2.children[k] == n;
                    assert(n2.children.dom().contains(k));
                }
            }
        }
        assert(files_linked(nodes3, files)) by {
            assert forall|f: u32| #![trigger files.contains_key(f)] files.contains_key(f) implies {
                &&& files[f].file_id == f
                &&& nodes3.contains_key(files[f].module_id)
                &&& nodes3[files[f].module_id].file_ids.contains(f)
            } by {
                if files[f].module_id == p {
                    assert(nodes2[p].file_ids.contains(f));
                }
            }
            assert forall|n: u32, i: int|
                #![trigger nodes3[n].file_ids[i]]
                nodes3.contains_key(n) && 0 <= i < nodes3[n].file_ids.len() implies {
                &&& files.contains_key(nodes3[n].file_ids[i])
                &&& files[nodes3[n].file_ids[i]].module_id == n
            } by {
                assert(nodes2[n].file_ids[i] == nodes3[n].file_ids[i]);
            }
        }
        assert(pruning(nodes3, files, next, pp, p));
    }
}

/// `n` is the root, or hangs below a present parent that lists it.
pub open spec fn hangs(nodes: Map<u32, NodeView>, n: u32) -> bool {
    n == root_id() || {
        &&& nodes[n].parent is Some
        &&& nodes.contains_key(nodes[n].parent.unwrap())
        &&& nodes[n].parent.unwrap() < n
        &&& has_child(nodes[nodes[n].parent.unwrap()], n)
    }
}

/// One step down a module path keeps the tree consistent: an existing child is
/// followed, a missing one is created with the next free identifier.
pub proof fn lemma_grow_step(
    nodes: Map<u32, NodeView>,
    files: Map<u32, ModuleInfoView>,
    next: nat,
    cur: u32,
    name: Seq<char>,
)
    requires
        tree_ok(nodes, files, next),
        nodes.contains_key(cur),
        hangs(nodes, cur),
        !nodes[cur].children.contains_key(name) ==> next + 1 <= u32::MAX,
    ensures
        nodes[cur].children.contains_key(name) ==> {
            let c = nodes[cur].children[name];
            &&& nodes.contains_key(c)
            &&& hangs(nodes, c)
            &&& c != root_id()
        },
        !nodes[cur].children.contains_key(name) ==> {
            let id = next as u32;
            let parent = NodeView {
                children: nodes[cur].children.insert(name, id),
                file_ids: nodes[cur].file_ids,
                parent: nodes[cur].parent,
            };
            let fresh = NodeView {
                children: Map::<Seq<char>, u32>::empty(),
                file_ids: Seq::<u32>::empty(),
                parent: Some(cur),
            };
            let nodes2 = nodes.insert(cur, parent).insert(id, fresh);
            &&& !nodes.contains_key(id)
            &&& tree_ok(nodes2, files, next + 1)
            &&& nodes2.contains_key(id)
            &&& hangs(nodes2, id)
            &&& id != root_id()
        },
{
    if nodes[cur].children.contains_key(name) {
        let c = nodes[cur].children[name];
        assert(nodes[cur].children.contains_key(name));
        assert(has_child(nodes[cur], c));
    } else {
        let id = next as u32;
        let np = nodes[cur];
        let parent = NodeView {
            children: np.children.insert(name, id),
            file_ids: np.file_ids,
            parent: np.parent,
        };
        let fresh = NodeView {
            children: Map::<Seq<char>, u32>::empty(),
            file_ids: Seq::<u32>::empty(),
            parent: Some(cur),
        };
        let nodes2 = nodes.insert(cur, parent).insert(id, fresh);
        assert(!nodes.contains_key(id));
        assert(cur < id);
        assert(parent.children.contains_key(name));
        assert(has_child(nodes2[cur], id));
        assert(children_linked(nodes2)) by {
            assert forall|n: u32, k: Seq<char>|
                #![trigger nodes2[n].children.contains_key(k)]
                nodes2.contains_key(n) && nodes2[n].children.contains_key(k) implies {
                let c = nodes2[n].children[k];
                &&& nodes2.contains_key(c)
                &&& nodes2[c].parent == Some(n)
                &&& n < c
            } by {
                if n == id {
                    assert(fresh.children.dom().is_empty());
                } else if n == cur && k == name {
                } else {
                    assert(nodes[n].children.contains_key(k));
                    let c = nodes[n].children[k];
                    assert(nodes.contains_key(c));
                }
            }
        }
        assert(parents_linked(nodes2)) by {
            assert forall|n: u32|
                #![trigger nodes2.contains_key(n)]
                nodes2.contains_key(n) && n != root_id() && !node_empty(nodes2[n]) implies {
                &&& nodes2[n].parent is Some
                &&& nodes2.contains_key(nodes2[n].parent.unwrap())
                &&& nodes2[n].parent.unwrap() < n
                &&& has_child(nodes2[nodes2[n].parent.unwrap()], n)
            } by {
                if n == id {
                    assert(fresh.children.dom() =~= Set::<Seq<char>>::empty());
                } else if n == cur {
                    assert(hangs(nodes, cur));
                    let q = np.parent.unwrap();
                    let k = choose|k: Seq<char>| #[trigger] nodes[q].children.contains_key(k) && nodes[q].children[k] == cur;
                    assert(nodes2[q].children.contains_key(k));
                } else {
                    assert(nodes.contains_key(n));
                    assert(!node_empty(nodes[n]));
                    let q = nodes[n].parent.unwrap();
                    let k = choose|k: Seq<char>| #[trigger] nodes[q].children.contains_key(k) && nodes[q].children[k] == n;
                    assert(nodes2[q].children.contains_key(k));
                }
            }
        }
        assert(files_linked(nodes2, files)) by {
            assert forall|n: u32, i: int|
                #![trigger nodes2[n].file_ids[i]]
                nodes2.contains_key(n) && 0 <= i < nodes2[n].file_ids.len() implies {
                &&& files.contains_key(nodes2[n].file_ids[i])
                &&& files[nodes2[n].file_ids[i]].module_id == n
            } by {
                assert(n != id);
                assert(nodes[n].file_ids[i] == nodes2[n].file_ids[i]);
            }
        }
        assert(tree_ok(nodes2, files, next + 1));
    }
}

/// Filing a file without a record at a node that hangs below its parent keeps the
/// tree consistent.
pub proof fn lemma_attach_file(
    nodes: Map<u32, NodeView>,
    files: Map<u32, ModuleInfoView>,
    next: nat,
    m: u32,
    f: u32,
    info: ModuleInfoView,
)
    requires
        tree_ok(nodes, files, next),
        nodes.contains_key(m),
        m != root_id(),
        hangs(nodes, m),
        !files.contains_key(f),
        info.file_id == f,
        info.module_id == m,
    ensures
        tree_ok(
            nodes.insert(
                m,
                NodeView {
                    children: nodes[m].children,
                    file_ids: nodes[m].file_ids.push(f),
                    parent: nodes[m].parent,
                },
            ),
            files.insert(f, info),
            next,
        ),
{
    let nm = nodes[m];
    let node = NodeView { children: nm.children, file_ids: nm.file_ids.push(f), parent: nm.parent };
    let nodes2 = nodes.insert(m, node);
    let files2 = files.insert(f, info);
    assert(children_linked(nodes2)) by {
        assert forall|n: u32, k: Seq<char>|
            #![trigger nodes2[n].children.contains_key(k)]
            nodes2.contains_key(n) && nodes2[n].children.contains_key(k) implies {
            let c = nodes2[n].children[k];
            &&& nodes2.contains_key(c)
            &&& nodes2[c].parent == Some(n)
            &&& n < c
        } by {
            assert(nodes[n].children.contains_key(k));
        }
    }
    assert(parents_linked(nodes2)) by {
        assert forall|n: u32|
            #![trigger nodes2.contains_key(n)]
            nodes2.contains_key(n) && n != root_id() && !node_empty(nodes2[n]) implies {
            &&& nodes2[n].parent is Some
            &&& nodes2.contains_key(nodes2[n].parent.unwrap())
            &&& nodes2[n].parent.unwrap() < n
            &&& has_child(nodes2[nodes2[n].parent.unwrap()], n)
        } by {
            if n == m {
                let q = nm.parent.unwrap();
                let k = choose|k: Seq<char>| #[trigger] nodes[q].children.contains_key(k) && nodes[q].children[k] == m;
                assert(nodes2[q].children.contains_key(k));
            } else {
                assert(nodes.contains_key(n));
                let q = nodes[n].parent.unwrap();
                let k = choose|k: Seq<char>| #[trigger] nodes[q].children.contains_key(k) && nodes[q].children[k] == n;
                assert(nodes2[q].children.contains_key(k));
            }
        }
    }
    assert(files_linked(nodes2, files2)) by {
        assert forall|g: u32| #![trigger files2.contains_key(g)] files2.contains_key(g) implies {
            &&& files2[g].file_id == g
            &&& nodes2.contains_key(files2[g].module_id)
            &&& nodes2[files2[g].module_id].file_ids.contains(g)
        } by {
            if g == f {
                assert(node.file_ids[node.file_ids.len() - 1] == f);
            } else {
                let mg = files[g].module_id;
                assert(nodes[mg].file_ids.contains(g));
                if mg == m {
                    let i = choose|i: int| 0 <= i < nm.file_ids.len() && nm.file_ids[i] == g;
                    assert(node.file_ids[i] == g);
                }
            }
        }
        assert forall|n: u32, i: int|
            #![trigger nodes2[n].file_ids[i]]
            nodes2.contains_key(n) && 0 <= i < nodes2[n].file_ids.len() implies {
            &&& files2.contains_key(nodes2[n].file_ids[i])
            &&& files2[nodes2[n].file_ids[i]].module_id == n
        } by {
            if n == m && i == nm.file_ids.len() {
            } else {
                assert(nodes[n].file_ids[i] == nodes2[n].file_ids[i]);
                assert(files.contains_key(nodes[n].file_ids[i]));
            }
        }
    }
}

} // verus!
