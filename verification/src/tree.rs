//! The mathematics of a rooted, ordered tree that is kept in an arena.
//!
//! A tree is a sequence of nodes. Node 0 is the root. Every other node names
//! its parent by index, and the parent always has the smaller index, so no
//! cycle can form. The children of a node are ordered by their indices.

use vstd::prelude::*;
use vstd::set_lib::{lemma_int_range, set_int_range};

verus! {

/// One node of a tree: its name and the index of its parent.
pub struct NodeView {
    pub name: Seq<char>,
    pub parent: Option<int>,
}

/// Node 0 is the only node without a parent, and every parent comes before
/// its children.
pub open spec fn well_formed(v: Seq<NodeView>) -> bool {
    forall|i: int|
        0 <= i < v.len() ==> match (#[trigger] v[i]).parent {
            None => i == 0,
            Some(p) => 0 <= p < i,
        }
}

/// `children` lists the children of node `i`: exactly the nodes that name
/// `i` as their parent, in rising order.
pub open spec fn is_child_list(v: Seq<NodeView>, i: int, children: Seq<usize>) -> bool {
    &&& forall|k: int|
        0 <= k < children.len() ==> i < #[trigger] children[k] < v.len() && v[children[k] as int].parent
            == Some(i)
    &&& forall|k1: int, k2: int|
        0 <= k1 < k2 < children.len() ==> #[trigger] children[k1] < #[trigger] children[k2]
    &&& forall|j: int|
        0 <= j < v.len() && (#[trigger] v[j]).parent == Some(i) ==> exists|k: int|
            0 <= k < children.len() && #[trigger] children[k] as int == j
}

/// Node `j` is node `a` or one of its descendants.
pub open spec fn in_subtree(v: Seq<NodeView>, a: int, j: int) -> bool
    decreases j,
{
    0 <= j < v.len() && (j == a || match v[j].parent {
        Some(p) => 0 <= p < j && in_subtree(v, a, p),
        None => false,
    })
}

/// The number of proper ancestors of node `j`.
pub open spec fn depth(v: Seq<NodeView>, j: int) -> nat
    decreases j,
{
    if 0 <= j < v.len() {
        match v[j].parent {
            Some(p) => if 0 <= p < j {
                depth(v, p) + 1
            } else {
                0
            },
            None => 0,
        }
    } else {
        0
    }
}

/// Node `i` carries a set flag.
pub open spec fn flagged(flags: Seq<bool>, i: int) -> bool {
    0 <= i < flags.len() && flags[i]
}

/// Node `i` is flagged or has a flagged descendant.
pub open spec fn kept(v: Seq<NodeView>, flags: Seq<bool>, i: int) -> bool {
    exists|j: int| flagged(flags, j) && #[trigger] in_subtree(v, i, j)
}

/// Every node but the first hangs under a node that lies on the path from
/// the root to the node before it: the nodes stand in pre-order.
pub open spec fn in_pre_order(v: Seq<NodeView>) -> bool {
    forall|k: int|
        1 <= k < v.len() ==> match (#[trigger] v[k]).parent {
            Some(p) => in_subtree(v, p, k - 1),
            None => false,
        }
}

/// `emb` sends each node of `res` to a node of `src` so that names, parents
/// and the order of siblings are kept, no node of `src` is hit twice, and
/// the nodes hit are exactly the kept ones.
pub open spec fn embeds(
    src: Seq<NodeView>,
    flags: Seq<bool>,
    res: Seq<NodeView>,
    emb: Seq<int>,
) -> bool {
    &&& emb.len() == res.len()
    &&& forall|k: int|
        0 <= k < res.len() ==> 0 <= #[trigger] emb[k] < src.len() && kept(src, flags, emb[k])
    &&& forall|i: int|
        0 <= i < src.len() && #[trigger] kept(src, flags, i) ==> exists|k: int|
            0 <= k < res.len() && #[trigger] emb[k] == i
    &&& forall|k1: int, k2: int|
        0 <= k1 < k2 < res.len() ==> #[trigger] emb[k1] != #[trigger] emb[k2]
    &&& forall|k: int| 0 <= k < res.len() ==> (#[trigger] res[k]).name == src[emb[k]].name
    &&& forall|k: int|
        0 <= k < res.len() ==> match (#[trigger] res[k]).parent {
            None => src[emb[k]].parent is None,
            Some(p) => 0 <= p < res.len() && src[emb[k]].parent == Some(emb[p]),
        }
    &&& forall|k1: int, k2: int|
        0 <= k1 < k2 < res.len() && (#[trigger] res[k1]).parent == (#[trigger] res[k2]).parent
            ==> emb[k1] < emb[k2]
}

/// `res` is the smallest subtree of `src` that holds every flagged node
/// and all its ancestors, with its nodes in pre-order.
pub open spec fn is_matching_subtree(
    src: Seq<NodeView>,
    flags: Seq<bool>,
    res: Seq<NodeView>,
) -> bool {
    &&& well_formed(res)
    &&& in_pre_order(res)
    &&& exists|emb: Seq<int>| embeds(src, flags, res, emb)
}

/// The flags of a tree whose nodes are all flagged.
pub open spec fn all_flagged(v: Seq<NodeView>) -> Seq<bool> {
    Seq::new(v.len(), |i: int| true)
}

/// `f` sends the nodes of `b` one to one onto the nodes of `a`, keeping
/// names, parents and the order of siblings.
pub open spec fn is_isomorphism(a: Seq<NodeView>, b: Seq<NodeView>, f: Seq<int>) -> bool {
    &&& a.len() == b.len()
    &&& embeds(a, all_flagged(a), b, f)
}

/// The two trees have the same shape and the same names.
pub open spec fn isomorphic(a: Seq<NodeView>, b: Seq<NodeView>) -> bool {
    exists|f: Seq<int>| is_isomorphism(a, b, f)
}

/// A node of a subtree has no smaller index than the subtree's root.
pub proof fn lemma_in_subtree_order(v: Seq<NodeView>, a: int, j: int)
    requires
        in_subtree(v, a, j),
    ensures
        0 <= a <= j < v.len(),
    decreases j,
{
    if j != a {
        lemma_in_subtree_order(v, a, v[j].parent->0);
    }
}

/// A node lies in the subtree of its parent.
pub proof fn lemma_in_subtree_of_parent(v: Seq<NodeView>, j: int)
    requires
        well_formed(v),
        0 <= j < v.len(),
        v[j].parent is Some,
    ensures
        in_subtree(v, v[j].parent->0, j),
        0 <= v[j].parent->0 < j,
{
    let p = v[j].parent->0;
    assert(in_subtree(v, p, p));
}

/// A subtree of a subtree lies in the outer subtree.
pub proof fn lemma_in_subtree_trans(v: Seq<NodeView>, a: int, b: int, c: int)
    requires
        in_subtree(v, a, b),
        in_subtree(v, b, c),
    ensures
        in_subtree(v, a, c),
    decreases c,
{
    if c != b {
        lemma_in_subtree_trans(v, a, b, v[c].parent->0);
    }
}

/// Every node lies in the subtree of the root.
pub proof fn lemma_root_reaches(v: Seq<NodeView>, j: int)
    requires
        well_formed(v),
        0 <= j < v.len(),
    ensures
        in_subtree(v, 0, j),
    decreases j,
{
    if j != 0 {
        lemma_root_reaches(v, v[j].parent->0);
    }
}

/// Two subtrees that share a node are nested.
pub proof fn lemma_subtrees_nested(v: Seq<NodeView>, a: int, b: int, j: int)
    requires
        in_subtree(v, a, j),
        in_subtree(v, b, j),
    ensures
        in_subtree(v, a, b) || in_subtree(v, b, a),
    decreases j,
{
    if j == a {
    } else if j == b {
    } else {
        lemma_subtrees_nested(v, a, b, v[j].parent->0);
    }
}

/// Two nodes with the same parent that lie on one path to the root are
/// the same node.
pub proof fn lemma_path_meets_siblings_once(v: Seq<NodeView>, x: int, y: int, j: int)
    requires
        in_subtree(v, x, j),
        in_subtree(v, y, j),
        0 <= x < v.len(),
        0 <= y < v.len(),
        v[x].parent == v[y].parent,
        well_formed(v),
    ensures
        x == y,
{
    lemma_subtrees_nested(v, x, y, j);
    if x != y {
        if in_subtree(v, x, y) {
            let p = v[y].parent->0;
            assert(in_subtree(v, x, p));
            lemma_in_subtree_order(v, x, p);
        } else {
            let p = v[x].parent->0;
            assert(in_subtree(v, y, p));
            lemma_in_subtree_order(v, y, p);
        }
    }
}

/// A proper descendant of `a` lies in the subtree of one child of `a`.
pub proof fn lemma_child_towards(v: Seq<NodeView>, a: int, j: int) -> (c: int)
    requires
        in_subtree(v, a, j),
        j != a,
    ensures
        0 <= c < v.len(),
        v[c].parent == Some(a),
        in_subtree(v, c, j),
    decreases j,
{
    let p = v[j].parent->0;
    if p == a {
        j
    } else {
        let c = lemma_child_towards(v, a, p);
        c
    }
}

/// A node with a kept descendant is kept.
pub proof fn lemma_kept_upwards(v: Seq<NodeView>, flags: Seq<bool>, a: int, j: int)
    requires
        in_subtree(v, a, j),
        kept(v, flags, j),
    ensures
        kept(v, flags, a),
{
    let w = choose|w: int| flagged(flags, w) && #[trigger] in_subtree(v, j, w);
    lemma_in_subtree_trans(v, a, j, w);
}

/// `level` indentation steps of four spaces each.
pub open spec fn indentation(level: nat) -> Seq<char> {
    Seq::new(4 * level, |i: int| ' ')
}

/// The line that shows a name at an indentation level.
pub open spec fn item_line(name: Seq<char>, level: nat) -> Seq<char> {
    indentation(level) + name
}

/// The line of node `i`; the root has none.
pub open spec fn own_lines(v: Seq<NodeView>, i: int) -> Seq<Seq<char>> {
    if i == 0 {
        Seq::empty()
    } else {
        seq![item_line(v[i].name, (depth(v, i) - 1) as nat)]
    }
}

/// The lines of node `i` and of its descendants, in pre-order.
pub open spec fn node_lines(v: Seq<NodeView>, i: int) -> Seq<Seq<char>>
    decreases v.len() - i, v.len() - i,
{
    if 0 <= i < v.len() {
        own_lines(v, i) + child_lines(v, i, i + 1)
    } else {
        Seq::empty()
    }
}

/// The lines of the subtrees of those children of node `i` whose index is
/// at least `c`, in the order of the children.
pub open spec fn child_lines(v: Seq<NodeView>, i: int, c: int) -> Seq<Seq<char>>
    decreases v.len() - i, v.len() - c,
{
    if 0 <= i < c < v.len() {
        (if v[c].parent == Some(i) {
            node_lines(v, c)
        } else {
            Seq::empty()
        }) + child_lines(v, i, c + 1)
    } else {
        Seq::empty()
    }
}

/// The lines that show a tree: one for each node but the root, in
/// pre-order, each indented by the number of its ancestors less one.
pub open spec fn rendered(v: Seq<NodeView>) -> Seq<Seq<char>> {
    node_lines(v, 0)
}

/// The depth of a node is at most its index.
pub proof fn lemma_depth_bound(v: Seq<NodeView>, j: int)
    requires
        0 <= j < v.len(),
    ensures
        depth(v, j) <= j,
    decreases j,
{
    match v[j].parent {
        Some(p) => {
            if 0 <= p < j {
                lemma_depth_bound(v, p);
            }
        },
        None => {},
    }
}

/// Where no child of node `i` has an index in `lo..hi`, the children from
/// `lo` on give the lines of the children from `hi` on.
pub proof fn lemma_child_lines_skip(v: Seq<NodeView>, i: int, lo: int, hi: int)
    requires
        0 <= i < lo <= hi,
        forall|c: int| lo <= c < hi && c < v.len() ==> (#[trigger] v[c]).parent != Some(i),
    ensures
        child_lines(v, i, lo) == child_lines(v, i, hi),
    decreases hi - lo,
{
    if lo < hi {
        if lo < v.len() {
            assert(v[lo].parent != Some(i));
            lemma_child_lines_skip(v, i, lo + 1, hi);
        } else {
        }
    }
}

/// What lies in a subtree still lies in it after a node is appended.
pub proof fn lemma_in_subtree_push(v: Seq<NodeView>, node: NodeView, a: int, j: int)
    requires
        in_subtree(v, a, j),
    ensures
        in_subtree(v.push(node), a, j),
    decreases j,
{
    let w = v.push(node);
    assert(w[j] == v[j]);
    if j != a {
        lemma_in_subtree_push(v, node, a, v[j].parent->0);
    }
}

/// A tree stays in pre-order when a node is appended under a node that
/// lies on the path from the root to the last node.
pub proof fn lemma_in_pre_order_push(v: Seq<NodeView>, node: NodeView)
    requires
        in_pre_order(v),
        v.len() > 0 ==> node.parent is Some && in_subtree(v, node.parent->0, v.len() - 1),
    ensures
        in_pre_order(v.push(node)),
{
    let w = v.push(node);
    assert forall|k: int| 1 <= k < w.len() implies match (#[trigger] w[k]).parent {
        Some(p) => in_subtree(w, p, k - 1),
        None => false,
    } by {
        if k < v.len() {
            assert(w[k] == v[k]);
            lemma_in_subtree_push(v, node, v[k].parent->0, k - 1);
        } else {
            lemma_in_subtree_push(v, node, node.parent->0, k - 1);
        }
    }
}

/// The flags that a predicate on names gives to the nodes of a tree.
pub open spec fn flags_by_name(v: Seq<NodeView>, pred: spec_fn(Seq<char>) -> bool) -> Seq<bool> {
    Seq::new(v.len(), |i: int| pred(v[i].name))
}

/// Where every node of `src` is kept, a tree that embeds into `src` has
/// as many nodes as `src`.
pub proof fn lemma_embeds_onto_all(
    src: Seq<NodeView>,
    flags: Seq<bool>,
    res: Seq<NodeView>,
    emb: Seq<int>,
)
    requires
        embeds(src, flags, res, emb),
        forall|i: int| 0 <= i < src.len() ==> kept(src, flags, i),
    ensures
        res.len() == src.len(),
{
    let n = src.len() as int;
    assert(emb.no_duplicates());
    emb.unique_seq_to_set();
    lemma_int_range(0, n);
    assert(emb.to_set() =~= set_int_range(0, n)) by {
        assert forall|i: int| set_int_range(0, n).contains(i) implies emb.to_set().contains(i) by {
            assert(kept(src, flags, i));
            let k = choose|k: int| 0 <= k < res.len() && #[trigger] emb[k] == i;
            assert(emb.contains(i));
        }
        assert forall|i: int| emb.to_set().contains(i) implies set_int_range(0, n).contains(i) by {
            let k = choose|k: int| 0 <= k < emb.len() && emb[k] == i;
            assert(0 <= emb[k] < src.len());
        }
    }
}

/// Where the image of one node lies below the image of another, the first
/// node lies below the second.
pub proof fn lemma_embedded_in_subtree(
    src: Seq<NodeView>,
    flags: Seq<bool>,
    res: Seq<NodeView>,
    emb: Seq<int>,
    k: int,
    j: int,
)
    requires
        well_formed(res),
        embeds(src, flags, res, emb),
        0 <= k < res.len(),
        0 <= j < res.len(),
        in_subtree(src, emb[k], emb[j]),
    ensures
        in_subtree(res, k, j),
    decreases j,
{
    if emb[j] == emb[k] {
        if k < j {
            assert(emb[k] != emb[j]);
        } else if j < k {
            assert(emb[j] != emb[k]);
        }
    } else {
        assert(res[j].parent is Some);
        let pj = res[j].parent->0;
        assert(src[emb[j]].parent == Some(emb[pj]));
        lemma_embedded_in_subtree(src, flags, res, emb, k, pj);
    }
}

/// In a tree in pre-order the nodes of a subtree stand together: once a
/// node after the subtree's root lies outside the subtree, so does every
/// later node.
pub proof fn lemma_pre_order_closed(v: Seq<NodeView>, q: int, j: int, t: int)
    requires
        well_formed(v),
        in_pre_order(v),
        0 <= q < j <= t < v.len(),
        !in_subtree(v, q, j),
    ensures
        !in_subtree(v, q, t),
    decreases t - j,
{
    if t > j {
        lemma_pre_order_closed(v, q, j, t - 1);
        if in_subtree(v, q, t) {
            let pt = v[t].parent->0;
            assert(in_subtree(v, q, pt));
            assert(in_subtree(v, pt, t - 1));
            lemma_in_subtree_trans(v, q, pt, t - 1);
        }
    }
}

/// Two trees whose first `k` nodes have the same parents have the same
/// subtrees among those nodes.
pub proof fn lemma_in_subtree_agree(a: Seq<NodeView>, b: Seq<NodeView>, k: int, x: int, j: int)
    requires
        k <= a.len(),
        k <= b.len(),
        forall|i: int| 0 <= i < k ==> (#[trigger] a[i]).parent == b[i].parent,
        0 <= j < k,
        in_subtree(a, x, j),
    ensures
        in_subtree(b, x, j),
    decreases j,
{
    assert(a[j].parent == b[j].parent);
    if j != x {
        lemma_in_subtree_agree(a, b, k, x, a[j].parent->0);
    }
}

/// An isomorphism between two trees in pre-order sends each node to the
/// node with the same index.
pub proof fn lemma_isomorphism_is_identity(a: Seq<NodeView>, b: Seq<NodeView>, f: Seq<int>, k: int)
    requires
        well_formed(a),
        well_formed(b),
        in_pre_order(a),
        in_pre_order(b),
        is_isomorphism(a, b, f),
        0 <= k <= b.len(),
    ensures
        forall|j: int| 0 <= j < k ==> #[trigger] f[j] == j,
    decreases k,
{
    if k > 0 {
        let m = k - 1;
        lemma_isomorphism_is_identity(a, b, f, m);
        let flags = all_flagged(a);
        // The first m nodes have the same parents in both trees.
        assert forall|i: int| 0 <= i < m implies (#[trigger] a[i]).parent == b[i].parent by {
            assert(f[i] == i);
            match b[i].parent {
                Some(pi) => {
                    assert(0 <= pi < i);
                    assert(f[pi] == pi);
                },
                None => {},
            }
        }
        if m == 0 {
            assert(b[0].parent is None);
            assert(a[f[0]].parent is None);
        } else {
            assert(0 <= f[m] < a.len());
            // f[m] is no smaller than m.
            if f[m] < m {
                assert(f[f[m]] == f[m]);
                assert(f[f[m]] != f[m]);
            }
            if f[m] > m {
                assert(in_subtree(a, m, m));
                assert(flagged(flags, m));
                assert(kept(a, flags, m));
                let n2 = choose|n2: int| 0 <= n2 < b.len() && #[trigger] f[n2] == m;
                if n2 < m {
                    assert(f[n2] == n2);
                }
                assert(n2 > m);
                let p = b[m].parent->0;
                assert(0 <= p < m);
                assert(f[p] == p);
                assert(a[f[m]].parent == Some(p));
                let q2 = b[n2].parent->0;
                assert(0 <= q2 < n2);
                assert(a[m].parent == Some(f[q2]));
                let q = f[q2];
                assert(0 <= q < m);
                assert(f[q] == q);
                if q2 < q {
                    assert(f[q2] != f[q]);
                } else if q < q2 {
                    assert(f[q] != f[q2]);
                }
                assert(q2 == q);
                assert(in_subtree(b, p, m - 1));
                assert(in_subtree(a, q2, m - 1));
                lemma_in_subtree_agree(a, b, m, q2, m - 1);
                lemma_subtrees_nested(b, p, q2, m - 1);
                if p == q2 {
                    assert(b[m].parent == b[n2].parent);
                    assert(f[m] < f[n2]);
                } else if in_subtree(b, p, q2) {
                    // Node m hangs under p, above the subtree of q2, so the
                    // subtree of q2 has ended by m; yet n2 hangs under q2.
                    if in_subtree(b, q2, m) {
                        assert(in_subtree(b, q2, p));
                        lemma_in_subtree_order(b, q2, p);
                        lemma_in_subtree_order(b, p, q2);
                    }
                    lemma_pre_order_closed(b, q2, m, n2);
                    lemma_in_subtree_of_parent(b, n2);
                } else {
                    // Node m hangs under q2, above the subtree of p, so the
                    // subtree of p has ended by m; yet f[m] hangs under p.
                    assert(in_subtree(b, q2, p));
                    lemma_in_subtree_agree(b, a, m, q2, p);
                    if in_subtree(a, p, m) {
                        assert(in_subtree(a, p, q2));
                        lemma_in_subtree_order(a, p, q2);
                        lemma_in_subtree_order(a, q2, p);
                    }
                    lemma_pre_order_closed(a, p, m, f[m]);
                    lemma_in_subtree_of_parent(a, f[m]);
                }
            }
        }
        assert(f[m] == m);
    }
}

/// Two trees in pre-order that have the same shape and the same names are
/// equal.
pub proof fn lemma_isomorphic_pre_order_equal(a: Seq<NodeView>, b: Seq<NodeView>)
    requires
        well_formed(a),
        well_formed(b),
        in_pre_order(a),
        in_pre_order(b),
        isomorphic(a, b),
    ensures
        a == b,
{
    let f = choose|f: Seq<int>| is_isomorphism(a, b, f);
    lemma_isomorphism_is_identity(a, b, f, b.len() as int);
    assert forall|k: int| 0 <= k < a.len() implies a[k] == b[k] by {
        assert(f[k] == k);
        assert(b[k].name == a[f[k]].name);
        match b[k].parent {
            Some(p) => {
                assert(f[p] == p);
            },
            None => {},
        }
    }
    assert(a =~= b);
}

/// Searching with flags that are set for every node gives a tree of the
/// same shape and with the same names as the tree searched; it gives the
/// very same tree where that tree stood in pre-order.
pub proof fn lemma_subtree_of_all_is_isomorphic(
    src: Seq<NodeView>,
    flags: Seq<bool>,
    res: Seq<NodeView>,
)
    requires
        well_formed(src),
        is_matching_subtree(src, flags, res),
        forall|i: int| 0 <= i < src.len() ==> flagged(flags, i),
    ensures
        isomorphic(src, res),
        in_pre_order(src) ==> res == src,
{
    let emb = choose|emb: Seq<int>| embeds(src, flags, res, emb);
    let all = all_flagged(src);
    assert forall|i: int| 0 <= i < src.len() implies kept(src, flags, i) && kept(src, all, i) by {
        assert(in_subtree(src, i, i));
        assert(flagged(flags, i));
        assert(flagged(all, i));
    }
    lemma_embeds_onto_all(src, flags, res, emb);
    assert(embeds(src, all, res, emb));
    assert(is_isomorphism(src, res, emb));
    if in_pre_order(src) {
        lemma_isomorphic_pre_order_equal(src, res);
    }
}

/// Searching the result of a search once more, with the same predicate on
/// names, gives that result again.
pub proof fn lemma_subtree_matching_is_idempotent(
    src: Seq<NodeView>,
    pred: spec_fn(Seq<char>) -> bool,
    once: Seq<NodeView>,
    twice: Seq<NodeView>,
)
    requires
        well_formed(src),
        is_matching_subtree(src, flags_by_name(src, pred), once),
        is_matching_subtree(once, flags_by_name(once, pred), twice),
    ensures
        twice == once,
{
    let flags1 = flags_by_name(src, pred);
    let flags2 = flags_by_name(once, pred);
    let emb1 = choose|emb: Seq<int>| embeds(src, flags1, once, emb);
    let emb2 = choose|emb: Seq<int>| embeds(once, flags2, twice, emb);
    let all = all_flagged(once);
    assert forall|k: int| 0 <= k < once.len() implies kept(once, flags2, k) && kept(
        once,
        all,
        k,
    ) by {
        assert(kept(src, flags1, emb1[k]));
        let w = choose|w: int| flagged(flags1, w) && #[trigger] in_subtree(src, emb1[k], w);
        assert(in_subtree(src, w, w));
        assert(kept(src, flags1, w));
        let j = choose|j: int| 0 <= j < once.len() && #[trigger] emb1[j] == w;
        lemma_embedded_in_subtree(src, flags1, once, emb1, k, j);
        assert(once[j].name == src[emb1[j]].name);
        assert(flagged(flags2, j));
        assert(in_subtree(once, k, k));
        assert(flagged(all, k));
    }
    lemma_embeds_onto_all(once, flags2, twice, emb2);
    assert(embeds(once, all, twice, emb2));
    assert(is_isomorphism(once, twice, emb2));
    lemma_isomorphic_pre_order_equal(once, twice);
}

} // verus!
