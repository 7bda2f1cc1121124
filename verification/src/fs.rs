//! An explicit filesystem value.
//!
//! The engine performs no I/O: every operation reads and rewrites an `Fs`, a
//! flat collection of nodes keyed by absolute path.  A directory node stands
//! for a subtree that is moved or deleted wholesale, matching the engine's
//! one-call rename and recursive-delete steps; file nodes carry their text.
//!
//! Every mutation is specified by a transition function over the abstract
//! state `Seq<Node>`, and every operation keeps the well-formedness invariant
//! that paths are unique.
use vstd::prelude::*;
use vstd::string::*;

use crate::strutil::{contains_char, push_char, starts_with, starts_with_spec, str_eq};

verus! {

/// The abstract value of one filesystem node.
#[verifier::ext_equal]
pub ghost struct Node {
    pub path: Seq<char>,
    pub is_dir: bool,
    pub content: Seq<char>,
}

/// One filesystem node: an absolute path naming a directory (whole subtree)
/// or a file with its text.
pub struct FsEntry {
    pub path: String,
    pub is_dir: bool,
    pub content: String,
}

impl View for FsEntry {
    type V = Node;

    open spec fn view(&self) -> Node {
        Node { path: self.path@, is_dir: self.is_dir, content: self.content@ }
    }
}

impl FsEntry {
    /// A fresh entry with the same path, kind and content.
    pub fn duplicate(&self) -> (r: FsEntry)
        ensures
            r@ == self@,
    {
        FsEntry { path: self.path.clone(), is_dir: self.is_dir, content: self.content.clone() }
    }
}

/// A filesystem value: the nodes in directory order.
pub struct Fs {
    pub entries: Vec<FsEntry>,
}

impl View for Fs {
    type V = Seq<Node>;

    open spec fn view(&self) -> Seq<Node> {
        self.entries@.map_values(|e: FsEntry| e@)
    }
}

/// Paths are unique.
pub open spec fn fs_wf(ns: Seq<Node>) -> bool {
    forall|i: int, j: int|
        0 <= i < j < ns.len() ==> (#[trigger] ns[i]).path != (#[trigger] ns[j]).path
}

/// The first position at or after `i` whose node has path `p`, or `-1`.
pub open spec fn fs_find_from(ns: Seq<Node>, p: Seq<char>, i: int) -> int
    decreases ns.len() - i,
{
    if i < 0 || i >= ns.len() {
        -1
    } else if ns[i].path == p {
        i
    } else {
        fs_find_from(ns, p, i + 1)
    }
}

/// The position of the node with path `p`, or `-1`.
pub open spec fn fs_find(ns: Seq<Node>, p: Seq<char>) -> int {
    fs_find_from(ns, p, 0)
}

/// Whether a node with path `p` exists.
pub open spec fn fs_has(ns: Seq<Node>, p: Seq<char>) -> bool {
    exists|i: int| 0 <= i < ns.len() && (#[trigger] ns[i]).path == p
}

/// The node with path `p` (meaningful only when `fs_has`).
pub open spec fn fs_node(ns: Seq<Node>, p: Seq<char>) -> Node {
    ns[fs_find(ns, p)]
}

proof fn lemma_find_from_props(ns: Seq<Node>, p: Seq<char>, i: int)
    requires
        0 <= i <= ns.len(),
    ensures
        fs_find_from(ns, p, i) == -1 || i <= fs_find_from(ns, p, i) < ns.len(),
        fs_find_from(ns, p, i) == -1 ==> forall|j: int|
            i <= j < ns.len() ==> (#[trigger] ns[j]).path != p,
        fs_find_from(ns, p, i) >= 0 ==> {
            &&& i <= fs_find_from(ns, p, i) < ns.len()
            &&& ns[fs_find_from(ns, p, i)].path == p
            &&& forall|j: int| i <= j < fs_find_from(ns, p, i) ==> (#[trigger] ns[j]).path != p
        },
    decreases ns.len() - i,
{
    if i < ns.len() {
        lemma_find_from_props(ns, p, i + 1);
    }
}

/// How `fs_find` characterises `fs_has` and `fs_node`.
pub proof fn lemma_find(ns: Seq<Node>, p: Seq<char>)
    ensures
        fs_find(ns, p) == -1 || 0 <= fs_find(ns, p) < ns.len(),
        fs_find(ns, p) == -1 <==> !fs_has(ns, p),
        fs_find(ns, p) >= 0 ==> {
            &&& fs_find(ns, p) < ns.len()
            &&& ns[fs_find(ns, p)].path == p
            &&& forall|j: int| 0 <= j < fs_find(ns, p) ==> (#[trigger] ns[j]).path != p
        },
{
    lemma_find_from_props(ns, p, 0);
    if fs_find(ns, p) == -1 {
        assert(!fs_has(ns, p)) by {
            if fs_has(ns, p) {
                let j = choose|j: int| 0 <= j < ns.len() && (#[trigger] ns[j]).path == p;
                assert(ns[j].path != p);
            }
        }
    } else {
        assert(ns[fs_find(ns, p)].path == p);
        assert(fs_has(ns, p));
    }
}

/// Skipping positions known not to match does not change the result.
proof fn lemma_find_from_advance(ns: Seq<Node>, p: Seq<char>, i: int)
    requires
        0 <= i <= ns.len(),
        forall|j: int| 0 <= j < i ==> (#[trigger] ns[j]).path != p,
    ensures
        fs_find(ns, p) == fs_find_from(ns, p, i),
    decreases i,
{
    if i > 0 {
        lemma_find_from_advance(ns, p, i - 1);
    }
}

/// Insert or overwrite the node at path `p`.
pub open spec fn fs_upsert(ns: Seq<Node>, p: Seq<char>, is_dir: bool, content: Seq<char>) -> Seq<
    Node,
> {
    let n = Node { path: p, is_dir, content };
    let i = fs_find(ns, p);
    if i >= 0 {
        ns.update(i, n)
    } else {
        ns.push(n)
    }
}

/// Remove the node at path `p`, when present.
pub open spec fn fs_remove(ns: Seq<Node>, p: Seq<char>) -> Seq<Node> {
    let i = fs_find(ns, p);
    if i >= 0 {
        ns.remove(i)
    } else {
        ns
    }
}

/// Whether `p` lies strictly under directory `d`, at any depth.
pub open spec fn is_under_spec(p: Seq<char>, d: Seq<char>) -> bool {
    p.len() > d.len() + 1 && p.subrange(0, d.len() as int + 1) == d + seq!['/']
}

/// Whether `p` is a direct child of directory `d`.
pub open spec fn is_child_spec(p: Seq<char>, d: Seq<char>) -> bool {
    is_under_spec(p, d) && !contains_char(p.skip(d.len() as int + 1), '/')
}

/// The nodes that satisfy `pred`, in order.
pub open spec fn fs_filter(ns: Seq<Node>, pred: spec_fn(Node) -> bool) -> Seq<Node>
    decreases ns.len(),
{
    if ns.len() == 0 {
        Seq::empty()
    } else if pred(ns.last()) {
        fs_filter(ns.drop_last(), pred).push(ns.last())
    } else {
        fs_filter(ns.drop_last(), pred)
    }
}

/// One step of filtering from the left.
pub proof fn lemma_fs_filter_push(ns: Seq<Node>, x: Node, pred: spec_fn(Node) -> bool)
    ensures
        fs_filter(ns.push(x), pred) == if pred(x) {
            fs_filter(ns, pred).push(x)
        } else {
            fs_filter(ns, pred)
        },
{
    assert(ns.push(x).drop_last() =~= ns);
    assert(ns.push(x).last() == x);
}

/// Remove the node at `p` and everything under it.
pub open spec fn fs_remove_tree(ns: Seq<Node>, p: Seq<char>) -> Seq<Node> {
    fs_filter(ns, |n: Node| n.path != p && !is_under_spec(n.path, p))
}

/// Remove everything under directory `d`, keeping `d` itself.
pub open spec fn fs_remove_under(ns: Seq<Node>, d: Seq<char>) -> Seq<Node> {
    fs_filter(ns, |n: Node| !is_under_spec(n.path, d))
}

/// Move the node at `from` to `to`, overwriting any node at `to`.
pub open spec fn fs_rename(ns: Seq<Node>, from: Seq<char>, to: Seq<char>) -> Seq<Node> {
    let i = fs_find(ns, from);
    if i < 0 {
        ns
    } else {
        let n = ns[i];
        fs_upsert(ns.remove(i), to, n.is_dir, n.content)
    }
}

/// Add a directory node at `p` when none exists.
pub open spec fn fs_create_dir(ns: Seq<Node>, p: Seq<char>) -> Seq<Node> {
    if fs_has(ns, p) {
        ns
    } else {
        ns.push(Node { path: p, is_dir: true, content: Seq::empty() })
    }
}

/// The direct children of directory `d`, in directory order.
pub open spec fn fs_children(ns: Seq<Node>, d: Seq<char>) -> Seq<Node> {
    fs_filter(ns, |n: Node| is_child_spec(n.path, d))
}

/// Well-formedness survives an upsert.
pub proof fn lemma_wf_upsert(ns: Seq<Node>, p: Seq<char>, is_dir: bool, content: Seq<char>)
    requires
        fs_wf(ns),
    ensures
        fs_wf(fs_upsert(ns, p, is_dir, content)),
        fs_has(fs_upsert(ns, p, is_dir, content), p),
{
    lemma_find(ns, p);
    let out = fs_upsert(ns, p, is_dir, content);
    let i = fs_find(ns, p);
    if i >= 0 {
        assert(out[i].path == p);
    } else {
        assert(out[ns.len() as int].path == p);
    }
}

/// Well-formedness survives a removal.
pub proof fn lemma_wf_remove(ns: Seq<Node>, p: Seq<char>)
    requires
        fs_wf(ns),
    ensures
        fs_wf(fs_remove(ns, p)),
        !fs_has(fs_remove(ns, p), p),
{
    lemma_find(ns, p);
    let i = fs_find(ns, p);
    if i >= 0 {
        let out = ns.remove(i);
        assert forall|a: int, b: int| 0 <= a < b < out.len() implies (#[trigger] out[a]).path != (
        #[trigger] out[b]).path by {
            let a0 = if a < i {
                a
            } else {
                a + 1
            };
            let b0 = if b < i {
                b
            } else {
                b + 1
            };
            assert(out[a] == ns[a0] && out[b] == ns[b0]);
        }
        if fs_has(out, p) {
            let j = choose|j: int| 0 <= j < out.len() && (#[trigger] out[j]).path == p;
            let j0 = if j < i {
                j
            } else {
                j + 1
            };
            assert(ns[j0].path == p && j0 != i);
        }
    } else {
        if fs_has(ns, p) {
            let j = choose|j: int| 0 <= j < ns.len() && (#[trigger] ns[j]).path == p;
            lemma_find_from_props(ns, p, 0);
        }
    }
}

/// Well-formedness survives a rename.
pub proof fn lemma_wf_rename(ns: Seq<Node>, from: Seq<char>, to: Seq<char>)
    requires
        fs_wf(ns),
    ensures
        fs_wf(fs_rename(ns, from, to)),
{
    lemma_find(ns, from);
    let i = fs_find(ns, from);
    if i >= 0 {
        assert(fs_rename(ns, from, to) == fs_upsert(
            ns.remove(i),
            to,
            ns[i].is_dir,
            ns[i].content,
        ));
        assert(ns.remove(i) == fs_remove(ns, from));
        lemma_wf_remove(ns, from);
        lemma_wf_upsert(ns.remove(i), to, ns[i].is_dir, ns[i].content);
    }
}

/// Well-formedness survives a directory creation.
pub proof fn lemma_wf_create_dir(ns: Seq<Node>, p: Seq<char>)
    requires
        fs_wf(ns),
    ensures
        fs_wf(fs_create_dir(ns, p)),
        fs_has(fs_create_dir(ns, p), p),
{
    if !fs_has(ns, p) {
        let out = fs_create_dir(ns, p);
        assert(out[ns.len() as int].path == p);
    }
}

/// How an upsert changes presence and nodes.
pub proof fn lemma_has_upsert(ns: Seq<Node>, p: Seq<char>, is_dir: bool, content: Seq<char>, q: Seq<
    char,
>)
    requires
        fs_wf(ns),
    ensures
        fs_has(fs_upsert(ns, p, is_dir, content), q) <==> (q == p || fs_has(ns, q)),
        q == p ==> fs_node(fs_upsert(ns, p, is_dir, content), q) == (Node {
            path: p,
            is_dir,
            content,
        }),
        q != p && fs_has(ns, q) ==> fs_node(fs_upsert(ns, p, is_dir, content), q) == fs_node(
            ns,
            q,
        ),
{
    lemma_find(ns, p);
    lemma_find(ns, q);
    let out = fs_upsert(ns, p, is_dir, content);
    lemma_find(out, q);
    let i = fs_find(ns, p);
    let n = Node { path: p, is_dir, content };
    if i >= 0 {
        assert(out == ns.update(i, n));
        assert(out[i].path == p);
        if q == p {
            lemma_find(out, p);
            let k = fs_find(out, p);
            assert(k >= 0 ==> out[k].path == p);
            assert(fs_has(out, p));
            assert(k >= 0);
            assert(k == i) by {
                if k < i {
                    assert(out[k] == ns[k]);
                    assert(ns[k].path != p);
                } else if k > i {
                    assert(out[i].path == p);
                }
            }
        } else {
            if fs_has(ns, q) {
                let j = fs_find(ns, q);
                assert(ns[j].path == q);
                assert(j != i);
                assert(out[j] == ns[j]);
                assert(fs_has(out, q));
                let k = fs_find(out, q);
                assert(k >= 0);
                assert(out[k].path == q);
                assert(k == j) by {
                    if k < j {
                        if k == i {
                            assert(out[k].path == p);
                        } else {
                            assert(out[k] == ns[k]);
                            assert(ns[k].path != q);
                        }
                    } else if k > j {
                        assert(ns[j].path == q);
                        assert(out[j].path == q);
                    }
                }
                assert(fs_node(out, q) == fs_node(ns, q));
            } else {
                if fs_has(out, q) {
                    let k = choose|k: int| 0 <= k < out.len() && (#[trigger] out[k]).path == q;
                    if k == i {
                        assert(out[k].path == p);
                    } else {
                        assert(out[k] == ns[k]);
                        assert(fs_has(ns, q));
                    }
                }
            }
        }
    } else {
        assert(out == ns.push(n));
        assert(out[ns.len() as int] == n);
        if q == p {
            assert(fs_has(out, p));
            let k = fs_find(out, p);
            lemma_find(out, p);
            assert(k >= 0);
            assert(k == ns.len()) by {
                if k < ns.len() {
                    assert(out[k] == ns[k]);
                    assert(ns[k].path != p);
                }
            }
        } else {
            if fs_has(ns, q) {
                let j = fs_find(ns, q);
                assert(ns[j].path == q);
                assert(out[j] == ns[j]);
                assert(fs_has(out, q));
                let k = fs_find(out, q);
                assert(k >= 0);
                assert(out[k].path == q);
                assert(k == j) by {
                    if k < j {
                        assert(out[k] == ns[k]);
                        assert(ns[k].path != q);
                    } else if k > j {
                        assert(out[j].path == q);
                    }
                }
            } else {
                if fs_has(out, q) {
                    let k = choose|k: int| 0 <= k < out.len() && (#[trigger] out[k]).path == q;
                    if k < ns.len() {
                        assert(out[k] == ns[k]);
                        assert(fs_has(ns, q));
                    } else {
                        assert(out[k] == n);
                    }
                }
            }
        }
    }
}

/// How a removal changes presence and nodes.
pub proof fn lemma_has_remove(ns: Seq<Node>, p: Seq<char>, q: Seq<char>)
    requires
        fs_wf(ns),
    ensures
        fs_has(fs_remove(ns, p), q) <==> (fs_has(ns, q) && q != p),
        q != p && fs_has(ns, q) ==> fs_node(fs_remove(ns, p), q) == fs_node(ns, q),
{
    lemma_find(ns, p);
    lemma_find(ns, q);
    lemma_wf_remove(ns, p);
    let out = fs_remove(ns, p);
    lemma_find(out, q);
    let i = fs_find(ns, p);
    if i >= 0 {
        assert(out == ns.remove(i));
        if q == p {
            assert(!fs_has(out, p));
        } else {
            if fs_has(ns, q) {
                let j = fs_find(ns, q);
                assert(ns[j].path == q);
                assert(j != i);
                let j2 = if j < i {
                    j
                } else {
                    j - 1
                };
                assert(out[j2] == ns[j]);
                assert(fs_has(out, q));
                let k = fs_find(out, q);
                assert(k >= 0);
                assert(out[k].path == q);
                let k0 = if k < i {
                    k
                } else {
                    k + 1
                };
                assert(out[k] == ns[k0]);
                assert(k0 == j) by {
                    if k0 != j {
                        assert(ns[k0].path == q);
                        assert(ns[j].path == q);
                    }
                }
                assert(fs_node(out, q) == fs_node(ns, q));
            } else {
                if fs_has(out, q) {
                    let k = choose|k: int| 0 <= k < out.len() && (#[trigger] out[k]).path == q;
                    let k0 = if k < i {
                        k
                    } else {
                        k + 1
                    };
                    assert(out[k] == ns[k0]);
                    assert(fs_has(ns, q));
                }
            }
        }
    } else {
        assert(out == ns);
        assert(!fs_has(ns, p));
        if q == p && fs_has(ns, q) {
            assert(false);
        }
    }
}

/// How a directory creation changes presence and nodes.
pub proof fn lemma_has_create_dir(ns: Seq<Node>, p: Seq<char>, q: Seq<char>)
    requires
        fs_wf(ns),
    ensures
        fs_has(fs_create_dir(ns, p), q) <==> (q == p || fs_has(ns, q)),
        q != p && fs_has(ns, q) ==> fs_node(fs_create_dir(ns, p), q) == fs_node(ns, q),
        fs_has(ns, q) ==> fs_node(fs_create_dir(ns, p), q) == fs_node(ns, q),
{
    let out = fs_create_dir(ns, p);
    lemma_find(ns, q);
    lemma_find(out, q);
    if fs_has(ns, p) {
        assert(out == ns);
    } else {
        let n = Node { path: p, is_dir: true, content: Seq::empty() };
        assert(out == ns.push(n));
        assert(out[ns.len() as int] == n);
        if fs_has(ns, q) {
            let j = fs_find(ns, q);
            assert(ns[j].path == q);
            assert(out[j] == ns[j]);
            assert(fs_has(out, q));
            let k = fs_find(out, q);
            assert(k >= 0);
            assert(out[k].path == q);
            assert(k == j) by {
                if k < j {
                    assert(out[k] == ns[k]);
                    assert(ns[k].path != q);
                } else if k > j {
                    assert(out[j].path == q);
                }
            }
        } else {
            if fs_has(out, q) {
                let k = choose|k: int| 0 <= k < out.len() && (#[trigger] out[k]).path == q;
                if k < ns.len() {
                    assert(out[k] == ns[k]);
                    assert(fs_has(ns, q));
                } else {
                    assert(out[k] == n);
                    assert(q == p);
                }
            }
            if q == p {
                assert(fs_has(out, p));
            }
        }
    }
}

/// Which paths a filtered state holds.
pub proof fn lemma_fs_filter_has(ns: Seq<Node>, pred: spec_fn(Node) -> bool, q: Seq<char>)
    ensures
        fs_has(fs_filter(ns, pred), q) <==> exists|i: int|
            0 <= i < ns.len() && (#[trigger] ns[i]).path == q && pred(ns[i]),
    decreases ns.len(),
{
    let out = fs_filter(ns, pred);
    if ns.len() == 0 {
        if fs_has(out, q) {
            let k = choose|k: int| 0 <= k < out.len() && (#[trigger] out[k]).path == q;
        }
    } else {
        let front = ns.drop_last();
        lemma_fs_filter_has(front, pred, q);
        let ff = fs_filter(front, pred);
        if pred(ns.last()) {
            assert(out == ff.push(ns.last()));
            if fs_has(out, q) {
                let k = choose|k: int| 0 <= k < out.len() && (#[trigger] out[k]).path == q;
                if k < ff.len() {
                    assert(ff[k].path == q);
                    assert(fs_has(ff, q));
                    let i = choose|i: int|
                        0 <= i < front.len() && (#[trigger] front[i]).path == q && pred(front[i]);
                    assert(ns[i] == front[i]);
                } else {
                    assert(out[k] == ns.last());
                    assert(ns[ns.len() - 1].path == q && pred(ns[ns.len() - 1]));
                }
            }
            if exists|i: int| 0 <= i < ns.len() && (#[trigger] ns[i]).path == q && pred(ns[i]) {
                let i = choose|i: int|
                    0 <= i < ns.len() && (#[trigger] ns[i]).path == q && pred(ns[i]);
                if i < front.len() {
                    assert(front[i] == ns[i]);
                    assert(fs_has(ff, q));
                    let k = choose|k: int| 0 <= k < ff.len() && (#[trigger] ff[k]).path == q;
                    assert(out[k] == ff[k]);
                    assert(fs_has(out, q));
                } else {
                    assert(out[out.len() - 1] == ns.last());
                    assert(fs_has(out, q));
                }
            }
        } else {
            assert(out == ff);
            if fs_has(out, q) {
                let i = choose|i: int|
                    0 <= i < front.len() && (#[trigger] front[i]).path == q && pred(front[i]);
                assert(ns[i] == front[i]);
            }
            if exists|i: int| 0 <= i < ns.len() && (#[trigger] ns[i]).path == q && pred(ns[i]) {
                let i = choose|i: int|
                    0 <= i < ns.len() && (#[trigger] ns[i]).path == q && pred(ns[i]);
                assert(i < front.len()) by {
                    if i == ns.len() - 1 {
                        assert(pred(ns.last()));
                    }
                }
                assert(front[i] == ns[i]);
                assert(fs_has(ff, q));
            }
        }
    }
}

/// Every node a filter keeps satisfies the predicate.
pub proof fn lemma_fs_filter_elements_pred(ns: Seq<Node>, pred: spec_fn(Node) -> bool)
    ensures
        forall|i: int|
            0 <= i < fs_filter(ns, pred).len() ==> pred(#[trigger] fs_filter(ns, pred)[i]),
    decreases ns.len(),
{
    if ns.len() > 0 {
        let front = ns.drop_last();
        lemma_fs_filter_elements_pred(front, pred);
        let ff = fs_filter(front, pred);
        if pred(ns.last()) {
            assert(fs_filter(ns, pred) == ff.push(ns.last()));
            assert forall|i: int|
                0 <= i < fs_filter(ns, pred).len() implies pred(
                #[trigger] fs_filter(ns, pred)[i],
            ) by {
                if i < ff.len() {
                    assert(fs_filter(ns, pred)[i] == ff[i]);
                }
            }
        }
    }
}

/// A filter keeps nothing when nothing satisfies the predicate.
pub proof fn lemma_fs_filter_none(ns: Seq<Node>, pred: spec_fn(Node) -> bool)
    requires
        forall|i: int| 0 <= i < ns.len() ==> !pred(#[trigger] ns[i]),
    ensures
        fs_filter(ns, pred) == Seq::<Node>::empty(),
    decreases ns.len(),
{
    if ns.len() > 0 {
        let front = ns.drop_last();
        assert(forall|i: int| 0 <= i < front.len() ==> front[i] == ns[i]);
        lemma_fs_filter_none(front, pred);
        assert(!pred(ns[ns.len() - 1]));
    } else {
        assert(fs_filter(ns, pred) =~= Seq::<Node>::empty());
    }
}

/// A filter keeps exactly one node when exactly one satisfies the predicate.
pub proof fn lemma_fs_filter_single(ns: Seq<Node>, pred: spec_fn(Node) -> bool, j: int)
    requires
        0 <= j < ns.len(),
        pred(ns[j]),
        forall|i: int| 0 <= i < ns.len() && i != j ==> !pred(#[trigger] ns[i]),
    ensures
        fs_filter(ns, pred) == seq![ns[j]],
    decreases ns.len(),
{
    let front = ns.drop_last();
    if j == ns.len() - 1 {
        assert(forall|i: int| 0 <= i < front.len() ==> front[i] == ns[i]);
        lemma_fs_filter_none(front, pred);
        assert(fs_filter(ns, pred) =~= seq![ns[j]]);
    } else {
        assert(forall|i: int| 0 <= i < front.len() ==> front[i] == ns[i]);
        lemma_fs_filter_single(front, pred, j);
        assert(!pred(ns.last()));
        assert(fs_filter(ns, pred) =~= seq![ns[j]]);
    }
}

/// Whether `p` is a direct child of directory `d`.
pub fn is_child_of(p: &str, d: &str) -> (r: bool)
    ensures
        r == is_child_spec(p@, d@),
{
    let mut prefix = d.to_owned();
    push_char(&mut prefix, '/');
    let np = p.unicode_len();
    let k = prefix.as_str().unicode_len();
    if np <= k {
        return false;
    }
    if !starts_with(p, prefix.as_str()) {
        return false;
    }
    proof {
        assert(p@.subrange(0, k as int) == d@ + seq!['/']);
    }
    let mut i: usize = k;
    while i < np
        invariant
            np == p@.len(),
            k <= i <= np,
            k == d@.len() + 1,
            forall|j: int| k <= j < i ==> p@[j] != '/',
        decreases np - i,
    {
        if p.get_char(i) == '/' {
            assert(p@.skip(k as int)[i - k] == '/');
            return false;
        }
        i = i + 1;
    }
    proof {
        if contains_char(p@.skip(k as int), '/') {
            let j = choose|j: int| 0 <= j < p@.skip(k as int).len() && p@.skip(k as int)[j] == '/';
            assert(p@[j + k] == '/');
        }
    }
    true
}

/// Whether `p` lies strictly under directory `d`.
pub fn is_under(p: &str, d: &str) -> (r: bool)
    ensures
        r == is_under_spec(p@, d@),
{
    let mut prefix = d.to_owned();
    push_char(&mut prefix, '/');
    let np = p.unicode_len();
    let k = prefix.as_str().unicode_len();
    if np <= k {
        return false;
    }
    starts_with(p, prefix.as_str())
}

impl Fs {
    /// Paths are unique.
    pub open spec fn wf(&self) -> bool {
        fs_wf(self@)
    }

    /// An empty filesystem.
    pub fn new() -> (r: Fs)
        ensures
            r.wf(),
            r@ == Seq::<Node>::empty(),
    {
        let r = Fs { entries: Vec::new() };
        proof {
            assert(r@ =~= Seq::<Node>::empty());
        }
        r
    }

    fn find_index(&self, p: &str) -> (r: Option<usize>)
        ensures
            match r {
                Some(i) => fs_find(self@, p@) == i as int,
                None => fs_find(self@, p@) == -1,
            },
    {
        let n = self.entries.len();
        let mut i: usize = 0;
        while i < n
            invariant
                n == self.entries.len(),
                0 <= i <= n,
                forall|j: int| 0 <= j < i ==> (#[trigger] self@[j]).path != p@,
            decreases n - i,
        {
            if str_eq(self.entries[i].path.as_str(), p) {
                proof {
                    lemma_find_from_advance(self@, p@, i as int);
                }
                return Some(i);
            }
            i = i + 1;
        }
        proof {
            lemma_find_from_advance(self@, p@, n as int);
        }
        None
    }

    /// Whether a node exists at path `p`.
    pub fn exists_path(&self, p: &str) -> (r: bool)
        ensures
            r == fs_has(self@, p@),
    {
        proof {
            lemma_find(self@, p@);
        }
        match self.find_index(p) {
            Some(_) => true,
            None => false,
        }
    }

    /// Whether the node at `p` is a directory; meaningful only when present.
    pub fn is_dir_at(&self, p: &str) -> (r: bool)
        ensures
            fs_has(self@, p@) ==> r == fs_node(self@, p@).is_dir,
            !fs_has(self@, p@) ==> r == false,
    {
        proof {
            lemma_find(self@, p@);
        }
        match self.find_index(p) {
            Some(i) => self.entries[i].is_dir,
            None => false,
        }
    }

    /// The text of the file at `p`, when a file node is there.
    pub fn read_file(&self, p: &str) -> (r: Option<String>)
        ensures
            match r {
                Some(c) => fs_has(self@, p@) && !fs_node(self@, p@).is_dir && c@ == fs_node(
                    self@,
                    p@,
                ).content,
                None => !fs_has(self@, p@) || fs_node(self@, p@).is_dir,
            },
    {
        proof {
            lemma_find(self@, p@);
        }
        match self.find_index(p) {
            Some(i) => {
                if self.entries[i].is_dir {
                    None
                } else {
                    Some(self.entries[i].content.clone())
                }
            },
            None => None,
        }
    }

    /// Write the file at `p`, creating or overwriting the node.
    pub fn write_file(&mut self, p: &str, content: &str)
        requires
            old(self).wf(),
        ensures
            final(self).wf(),
            final(self)@ == fs_upsert(old(self)@, p@, false, content@),
    {
        proof {
            lemma_find(self@, p@);
            lemma_wf_upsert(self@, p@, false, content@);
        }
        let e = FsEntry { path: p.to_owned(), is_dir: false, content: content.to_owned() };
        match self.find_index(p) {
            Some(i) => {
                self.entries.set(i, e);
                proof {
                    assert(self@ =~= fs_upsert(old(self)@, p@, false, content@));
                }
            },
            None => {
                self.entries.push(e);
                proof {
                    assert(self@ =~= fs_upsert(old(self)@, p@, false, content@));
                }
            },
        }
    }

    /// Add a directory node at `p` when none exists; whether one was added.
    pub fn create_dir_all(&mut self, p: &str) -> (created: bool)
        requires
            old(self).wf(),
        ensures
            final(self).wf(),
            final(self)@ == fs_create_dir(old(self)@, p@),
            created == !fs_has(old(self)@, p@),
    {
        proof {
            lemma_find(self@, p@);
            lemma_wf_create_dir(self@, p@);
        }
        match self.find_index(p) {
            Some(_) => false,
            None => {
                let e = FsEntry { path: p.to_owned(), is_dir: true, content: String::new() };
                self.entries.push(e);
                proof {
                    assert(self@ =~= fs_create_dir(old(self)@, p@));
                }
                true
            },
        }
    }

    /// Remove the node at `p`; whether one was there.
    pub fn remove_path(&mut self, p: &str) -> (r: bool)
        requires
            old(self).wf(),
        ensures
            final(self).wf(),
            final(self)@ == fs_remove(old(self)@, p@),
            r == fs_has(old(self)@, p@),
    {
        proof {
            lemma_find(self@, p@);
            lemma_wf_remove(self@, p@);
        }
        match self.find_index(p) {
            Some(i) => {
                self.entries.remove(i);
                proof {
                    assert(self@ =~= fs_remove(old(self)@, p@));
                }
                true
            },
            None => false,
        }
    }

    /// Move the node at `from` to `to`, overwriting any node at `to`;
    /// whether a node was moved.
    pub fn rename(&mut self, from: &str, to: &str) -> (r: bool)
        requires
            old(self).wf(),
        ensures
            final(self).wf(),
            final(self)@ == fs_rename(old(self)@, from@, to@),
            r == fs_has(old(self)@, from@),
    {
        proof {
            lemma_find(self@, from@);
            lemma_wf_rename(self@, from@, to@);
        }
        match self.find_index(from) {
            Some(i) => {
                let e = self.entries.remove(i);
                proof {
                    assert(self@ =~= fs_remove(old(self)@, from@));
                    lemma_wf_remove(old(self)@, from@);
                    lemma_find(self@, to@);
                    lemma_wf_upsert(self@, to@, e@.is_dir, e@.content);
                }
                let moved = FsEntry { path: to.to_owned(), is_dir: e.is_dir, content: e.content };
                let ghost mid = self@;
                match self.find_index(to) {
                    Some(j) => {
                        self.entries.set(j, moved);
                        proof {
                            assert(self@ =~= fs_upsert(mid, to@, e@.is_dir, e@.content));
                        }
                    },
                    None => {
                        self.entries.push(moved);
                        proof {
                            assert(self@ =~= fs_upsert(mid, to@, e@.is_dir, e@.content));
                        }
                    },
                }
                true
            },
            None => false,
        }
    }

    /// Remove the node at `p` and everything under it; whether the node at
    /// `p` itself was there.
    pub fn remove_tree(&mut self, p: &str) -> (r: bool)
        requires
            old(self).wf(),
        ensures
            final(self).wf(),
            final(self)@ == fs_remove_tree(old(self)@, p@),
            r == fs_has(old(self)@, p@),
    {
        let found = self.exists_path(p);
        let n = self.entries.len();
        let mut kept: Vec<FsEntry> = Vec::new();
        let mut i: usize = 0;
        proof {
            assert(self@.take(0) =~= Seq::<Node>::empty());
            assert(kept@.map_values(|e: FsEntry| e@) =~= Seq::<Node>::empty());
        }
        while i < n
            invariant
                n == self.entries.len(),
                0 <= i <= n,
                kept@.map_values(|e: FsEntry| e@) == fs_remove_tree(self@.take(i as int), p@),
            decreases n - i,
        {
            let e = &self.entries[i];
            let keep = !str_eq(e.path.as_str(), p) && !is_under(e.path.as_str(), p);
            proof {
                assert(self@.take(i + 1) =~= self@.take(i as int).push(self@[i as int]));
                lemma_fs_filter_push(
                    self@.take(i as int),
                    self@[i as int],
                    |nd: Node| nd.path != p@ && !is_under_spec(nd.path, p@),
                );
            }
            if keep {
                let d = e.duplicate();
                kept.push(d);
                proof {
                    assert(kept@.map_values(|e: FsEntry| e@) =~= fs_remove_tree(
                        self@.take(i + 1),
                        p@,
                    ));
                }
            }
            i = i + 1;
        }
        proof {
            assert(self@.take(n as int) =~= self@);
        }
        self.entries = kept;
        proof {
            lemma_remove_tree_wf(old(self)@, p@);
        }
        found
    }

    /// Remove everything under directory `d`, keeping `d` itself; whether
    /// the directory node was there.
    pub fn remove_under(&mut self, d: &str) -> (r: bool)
        requires
            old(self).wf(),
        ensures
            final(self).wf(),
            final(self)@ == fs_remove_under(old(self)@, d@),
            r == fs_has(old(self)@, d@),
    {
        let found = self.exists_path(d);
        let n = self.entries.len();
        let mut kept: Vec<FsEntry> = Vec::new();
        let mut i: usize = 0;
        proof {
            assert(self@.take(0) =~= Seq::<Node>::empty());
            assert(kept@.map_values(|e: FsEntry| e@) =~= Seq::<Node>::empty());
        }
        while i < n
            invariant
                n == self.entries.len(),
                0 <= i <= n,
                kept@.map_values(|e: FsEntry| e@) == fs_remove_under(self@.take(i as int), d@),
            decreases n - i,
        {
            let e = &self.entries[i];
            let keep = !is_under(e.path.as_str(), d);
            proof {
                assert(self@.take(i + 1) =~= self@.take(i as int).push(self@[i as int]));
                lemma_fs_filter_push(
                    self@.take(i as int),
                    self@[i as int],
                    |nd: Node| !is_under_spec(nd.path, d@),
                );
            }
            if keep {
                let dup = e.duplicate();
                kept.push(dup);
                proof {
                    assert(kept@.map_values(|e: FsEntry| e@) =~= fs_remove_under(
                        self@.take(i + 1),
                        d@,
                    ));
                }
            }
            i = i + 1;
        }
        proof {
            assert(self@.take(n as int) =~= self@);
        }
        self.entries = kept;
        proof {
            lemma_remove_under_wf(old(self)@, d@);
        }
        found
    }

    /// The direct children of directory `d`, in directory order.
    pub fn list_children(&self, d: &str) -> (r: Vec<FsEntry>)
        ensures
            r@.map_values(|e: FsEntry| e@) == fs_children(self@, d@),
    {
        let n = self.entries.len();
        let mut out: Vec<FsEntry> = Vec::new();
        let mut i: usize = 0;
        proof {
            assert(self@.take(0) =~= Seq::<Node>::empty());
            assert(out@.map_values(|e: FsEntry| e@) =~= Seq::<Node>::empty());
        }
        while i < n
            invariant
                n == self.entries.len(),
                0 <= i <= n,
                out@.map_values(|e: FsEntry| e@) == fs_children(self@.take(i as int), d@),
            decreases n - i,
        {
            let e = &self.entries[i];
            let keep = is_child_of(e.path.as_str(), d);
            proof {
                assert(self@.take(i + 1) =~= self@.take(i as int).push(self@[i as int]));
                lemma_fs_filter_push(
                    self@.take(i as int),
                    self@[i as int],
                    |nd: Node| is_child_spec(nd.path, d@),
                );
            }
            if keep {
                let dup = e.duplicate();
                out.push(dup);
                proof {
                    assert(out@.map_values(|e: FsEntry| e@) =~= fs_children(
                        self@.take(i + 1),
                        d@,
                    ));
                }
            }
            i = i + 1;
        }
        proof {
            assert(self@.take(n as int) =~= self@);
        }
        out
    }
}

/// Every element of a filtered sequence is an element of the original.
pub proof fn lemma_fs_filter_membership(ns: Seq<Node>, pred: spec_fn(Node) -> bool)
    ensures
        forall|x: Node| #[trigger] fs_filter(ns, pred).contains(x) ==> ns.contains(x),
    decreases ns.len(),
{
    if ns.len() > 0 {
        let front = ns.drop_last();
        lemma_fs_filter_membership(front, pred);
        assert forall|x: Node| #[trigger] fs_filter(ns, pred).contains(x) implies ns.contains(
            x,
        ) by {
            if pred(ns.last()) && x == ns.last() {
                assert(ns[ns.len() - 1] == x);
            } else {
                assert(fs_filter(ns, pred).contains(x) ==> fs_filter(front, pred).contains(x));
                if fs_filter(front, pred).contains(x) {
                    let j = choose|j: int| 0 <= j < front.len() && front[j] == x;
                    assert(ns[j] == x);
                }
            }
        }
    }
}

/// Filtering keeps well-formedness.
pub proof fn lemma_fs_filter_wf(ns: Seq<Node>, pred: spec_fn(Node) -> bool)
    requires
        fs_wf(ns),
    ensures
        fs_wf(fs_filter(ns, pred)),
    decreases ns.len(),
{
    if ns.len() > 0 {
        let front = ns.drop_last();
        assert(fs_wf(front));
        lemma_fs_filter_wf(front, pred);
        lemma_fs_filter_membership(front, pred);
        let ff = fs_filter(front, pred);
        if pred(ns.last()) {
            let out = ff.push(ns.last());
            assert forall|a: int, b: int| 0 <= a < b < out.len() implies (#[trigger] out[a]).path
                != (#[trigger] out[b]).path by {
                if b == out.len() - 1 {
                    assert(ff.contains(out[a]));
                    assert(front.contains(out[a]));
                    let j = choose|j: int| 0 <= j < front.len() && front[j] == out[a];
                    assert(ns[j] == out[a]);
                    assert(ns[ns.len() - 1] == out[b]);
                }
            }
        }
    }
}

/// Removing a tree keeps well-formedness.
pub proof fn lemma_remove_tree_wf(ns: Seq<Node>, p: Seq<char>)
    requires
        fs_wf(ns),
    ensures
        fs_wf(fs_remove_tree(ns, p)),
{
    lemma_fs_filter_wf(ns, |n: Node| n.path != p && !is_under_spec(n.path, p));
}

/// Removing everything under a directory keeps well-formedness.
pub proof fn lemma_remove_under_wf(ns: Seq<Node>, d: Seq<char>)
    requires
        fs_wf(ns),
    ensures
        fs_wf(fs_remove_under(ns, d)),
{
    lemma_fs_filter_wf(ns, |n: Node| !is_under_spec(n.path, d));
}

} // verus!
