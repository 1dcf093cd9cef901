//! The arena that holds a schema tree, and the walks over it.
//!
//! The walks recurse along the tree: their stack grows with the depth of
//! the tree, not with the number of its nodes.

use vstd::prelude::*;
use crate::commands::schema::DBItem;
use crate::tree::{
    NodeView, child_lines, depth, embeds, flagged, in_pre_order, in_subtree, is_child_list,
    is_matching_subtree, kept, lemma_child_lines_skip, lemma_child_towards, lemma_depth_bound,
    lemma_in_pre_order_push, lemma_in_subtree_of_parent, lemma_in_subtree_order,
    lemma_in_subtree_trans, lemma_kept_upwards, lemma_path_meets_siblings_once,
    lemma_root_reaches, node_lines, own_lines, well_formed,
};

verus! {

/// A node of the arena.
#[derive(Clone, Debug, PartialEq, Eq)]
pub struct Node {
    pub item: DBItem,
    pub parent: Option<usize>,
    pub children: Vec<usize>,
}

/// The index of a node's parent as a mathematical integer.
pub open spec fn parent_view(parent: Option<usize>) -> Option<int> {
    match parent {
        Some(p) => Some(p as int),
        None => None,
    }
}

/// The nodes of an arena as mathematical values.
pub open spec fn nodes_view(nodes: Seq<Node>) -> Seq<NodeView> {
    Seq::new(
        nodes.len(),
        |i: int| NodeView { name: nodes[i].item.name@, parent: parent_view(nodes[i].parent) },
    )
}

/// The list of children names node `j`.
pub open spec fn listed(children: Seq<usize>, j: int) -> bool {
    exists|w: int| 0 <= w < children.len() && #[trigger] children[w] as int == j
}

/// The child lists of an arena agree with its parent indices: each list
/// holds, in rising order, exactly the nodes that name the list's owner as
/// their parent.
pub closed spec fn links_consistent(nodes: Seq<Node>) -> bool {
    &&& well_formed(nodes_view(nodes))
    &&& forall|i: int, k: int|
        0 <= i < nodes.len() && 0 <= k < nodes[i].children@.len() ==> {
            &&& i < (#[trigger] nodes[i].children@[k]) < nodes.len()
            &&& parent_view(nodes[nodes[i].children@[k] as int].parent) == Some(i)
        }
    &&& forall|i: int, k1: int, k2: int|
        0 <= i < nodes.len() && 0 <= k1 < k2 < nodes[i].children@.len()
            ==> (#[trigger] nodes[i].children@[k1]) < (#[trigger] nodes[i].children@[k2])
    &&& forall|j: int|
        0 < j < nodes.len() ==> (#[trigger] nodes[j]).parent is Some && listed(
            nodes[nodes[j].parent->0 as int].children@,
            j,
        )
}

/// An arena without nodes is consistent.
pub proof fn lemma_links_empty(nodes: Seq<Node>)
    requires
        nodes.len() == 0,
    ensures
        links_consistent(nodes),
{
}

/// The tree of a consistent arena is well formed.
pub proof fn lemma_links_well_formed(nodes: Seq<Node>)
    requires
        links_consistent(nodes),
    ensures
        well_formed(nodes_view(nodes)),
{
}

/// The child list of a node of a consistent arena lists the node's
/// children.
pub proof fn lemma_links_children(nodes: Seq<Node>, i: int)
    requires
        links_consistent(nodes),
        0 <= i < nodes.len(),
    ensures
        is_child_list(nodes_view(nodes), i, nodes[i].children@),
{
    let v = nodes_view(nodes);
    let children = nodes[i].children@;
    assert forall|j: int| 0 <= j < v.len() && (#[trigger] v[j]).parent == Some(i) implies exists|
        k: int,
    | 0 <= k < children.len() && #[trigger] children[k] as int == j by {
        assert(nodes[j].parent is Some);
        assert(listed(nodes[nodes[j].parent->0 as int].children@, j));
    }
}

/// Appends a copy of `item` to the arena, under `parent` where one is given.
pub(crate) fn push_node(nodes: &mut Vec<Node>, item: DBItem, parent: Option<usize>)
    requires
        links_consistent(old(nodes)@),
        match parent {
            Some(p) => p < old(nodes)@.len(),
            None => old(nodes)@.len() == 0,
        },
    ensures
        links_consistent(final(nodes)@),
        nodes_view(final(nodes)@) == nodes_view(old(nodes)@).push(
            NodeView { name: item.name@, parent: parent_view(parent) },
        ),
        final(nodes)@.len() == old(nodes)@.len() + 1,
{
    let index = nodes.len();
    let ghost before = nodes@;
    match parent {
        Some(p) => {
            nodes[p].children.push(index);
        },
        None => {},
    }
    nodes.push(Node { item, parent, children: Vec::new() });
    proof {
        let after = nodes@;
        assert(nodes_view(after) =~= nodes_view(before).push(
            NodeView { name: item.name@, parent: parent_view(parent) },
        ));
        assert(well_formed(nodes_view(after)));
        assert forall|j: int| 0 < j < after.len() implies (#[trigger] after[j]).parent is Some
            && listed(after[after[j].parent->0 as int].children@, j) by {
            if j < before.len() {
                assert(nodes_view(before)[j].parent is Some);
                let q = before[j].parent->0 as int;
                assert(listed(before[q].children@, j));
                let w = choose|w: int|
                    0 <= w < before[q].children@.len() && #[trigger] before[q].children@[w] as int
                        == j;
                assert(after[q].children@[w] as int == j);
            } else {
                let q = parent->0 as int;
                assert(after[q].children@[after[q].children@.len() - 1] as int == j);
            }
        }
    }
}

/// A copy of the arena.
pub(crate) fn clone_nodes(nodes: &Vec<Node>) -> (copy: Vec<Node>)
    requires
        links_consistent(nodes@),
    ensures
        links_consistent(copy@),
        nodes_view(copy@) == nodes_view(nodes@),
{
    let mut copy: Vec<Node> = Vec::new();
    let mut i: usize = 0;
    while i < nodes.len()
        invariant
            i <= nodes@.len(),
            copy@.len() == i,
            forall|j: int|
                0 <= j < i ==> {
                    &&& (#[trigger] copy@[j]).item.name@ == nodes@[j].item.name@
                    &&& copy@[j].parent == nodes@[j].parent
                    &&& copy@[j].children@ == nodes@[j].children@
                },
        decreases nodes@.len() - i,
    {
        let node = &nodes[i];
        let children = node.children.clone();
        assert(children@ =~= node.children@);
        copy.push(Node { item: DBItem { name: node.item.name.clone() }, parent: node.parent, children });
        i = i + 1;
    }
    proof {
        assert(nodes_view(copy@) =~= nodes_view(nodes@));
        assert forall|j: int| 0 < j < copy@.len() implies (#[trigger] copy@[j]).parent is Some
            && listed(copy@[copy@[j].parent->0 as int].children@, j) by {
            assert(nodes@[j].parent is Some);
            assert(nodes_view(nodes@)[j].parent is Some);
        }
    }
    copy
}

/// Appends the lines of one node and of its descendants.
pub(crate) fn render_node(nodes: &Vec<Node>, index: usize, level: usize, lines: &mut Vec<String>)
    requires
        links_consistent(nodes@),
        index < nodes_view(nodes@).len(),
        index > 0 ==> level == depth(nodes_view(nodes@), index as int) - 1,
    ensures
        final(lines).deep_view() == old(lines).deep_view() + node_lines(
            nodes_view(nodes@),
            index as int,
        ),
    decreases nodes_view(nodes@).len() - index,
{
    proof {
        lemma_depth_bound(nodes_view(nodes@), index as int);
    }
    if index > 0 {
        let line = nodes[index].item.print(level);
        lines.push(line);
    }
    assert(lines.deep_view() =~= old(lines).deep_view() + own_lines(
        nodes_view(nodes@),
        index as int,
    ));
    let child_level: usize = if index > 0 {
        level + 1
    } else {
        0
    };
    let total = nodes.len();
    let count = nodes[index].children.len();
    let mut k: usize = 0;
    let ghost mut from: int = index as int + 1;
    while k < count
        invariant
            k <= count,
            index < nodes_view(nodes@).len(),
            total == nodes@.len(),
            count == nodes@[index as int].children@.len(),
            links_consistent(nodes@),
            index as int + 1 <= from,
            k > 0 ==> from == nodes@[index as int].children@[k - 1] + 1,
            k == 0 ==> from == index as int + 1,
            child_level == depth(nodes_view(nodes@), index as int),
            child_level < nodes_view(nodes@).len(),
            lines.deep_view() + child_lines(nodes_view(nodes@), index as int, from) == old(
                lines,
            ).deep_view() + node_lines(nodes_view(nodes@), index as int),
        decreases count - k,
    {
        let child = nodes[index].children[k];
        proof {
            let v = nodes_view(nodes@);
            let cs = nodes@[index as int].children@;
            assert(index < cs[k as int] < nodes@.len());
            assert forall|c: int| from <= c < child && c < v.len() implies (#[trigger] v[c]).parent
                != Some(index as int) by {
                if v[c].parent == Some(index as int) {
                    assert(listed(cs, c));
                    let w = choose|w: int| 0 <= w < cs.len() && #[trigger] cs[w] as int == c;
                    if w < k {
                        if w < k - 1 {
                            assert(cs[w] < cs[k - 1]);
                        }
                    } else if w > k {
                        assert(cs[k as int] < cs[w]);
                    }
                }
            }
            if k > 0 {
                assert(cs[k - 1] < cs[k as int]);
            }
            lemma_child_lines_skip(v, index as int, from, child as int);
            assert(v[child as int].parent == Some(index as int));
            lemma_depth_bound(v, child as int);
        }
        let ghost before = lines.deep_view();
        render_node(nodes, child, child_level, lines);
        proof {
            let v = nodes_view(nodes@);
            assert(child_lines(v, index as int, child as int) == node_lines(v, child as int)
                + child_lines(v, index as int, child as int + 1));
            assert((before + node_lines(v, child as int)) + child_lines(
                v,
                index as int,
                child as int + 1,
            ) =~= before + child_lines(v, index as int, child as int));
            from = child as int + 1;
        }
        k = k + 1;
    }
    proof {
        let v = nodes_view(nodes@);
        let cs = nodes@[index as int].children@;
        assert(v.len() == nodes@.len());
        assert forall|c: int| from <= c < v.len() implies (#[trigger] v[c]).parent != Some(
            index as int,
        ) by {
            if v[c].parent == Some(index as int) {
                assert(listed(cs, c));
                let w = choose|w: int| 0 <= w < cs.len() && #[trigger] cs[w] as int == c;
                if w < k - 1 {
                    assert(cs[w] < cs[k - 1]);
                }
            }
        }
        lemma_child_lines_skip(v, index as int, from, v.len() as int);
        assert(child_lines(v, index as int, v.len() as int) =~= Seq::<Seq<char>>::empty());
        assert(lines.deep_view() + Seq::<Seq<char>>::empty() =~= lines.deep_view());
    }
}

/// The source node `i` has a copy in the result.
spec fn present(map: Seq<Option<usize>>, i: int) -> bool {
    0 <= i < map.len() && map[i] is Some
}

/// With a node, its parent has a copy in the result.
spec fn ancestor_closed(sv: Seq<NodeView>, map: Seq<Option<usize>>) -> bool {
    forall|i: int| #[trigger]
        present(map, i) ==> match sv[i].parent {
            Some(p) => present(map, p),
            None => true,
        }
}

/// Each copy is sent back to a kept node whose entry in the table names
/// the copy.
spec fn back_linked(
    sv: Seq<NodeView>,
    flags: Seq<bool>,
    map: Seq<Option<usize>>,
    emb: Seq<int>,
) -> bool {
    forall|k: int|
        0 <= k < emb.len() ==> 0 <= #[trigger] emb[k] < map.len() && map[emb[k]] is Some
            && map[emb[k]]->0 as int == k && kept(sv, flags, emb[k])
}

/// Each entry of the table names a copy that is sent back to the entry's
/// node.
spec fn forth_linked(map: Seq<Option<usize>>, emb: Seq<int>) -> bool {
    forall|i: int| #[trigger]
        present(map, i) ==> (map[i]->0) < emb.len() && emb[map[i]->0 as int] == i
}

/// A copy has the name of the node that it was copied from.
spec fn names_agree(sv: Seq<NodeView>, rv: Seq<NodeView>, emb: Seq<int>) -> bool {
    forall|k: int| 0 <= k < rv.len() ==> (#[trigger] rv[k]).name == sv[emb[k]].name
}

/// A copy hangs under the copy of the parent of the node that it was
/// copied from.
spec fn parents_agree(sv: Seq<NodeView>, rv: Seq<NodeView>, emb: Seq<int>) -> bool {
    forall|k: int|
        0 <= k < rv.len() ==> match (#[trigger] rv[k]).parent {
            None => sv[emb[k]].parent is None,
            Some(p) => 0 <= p < rv.len() && sv[emb[k]].parent == Some(emb[p]),
        }
}

/// Copies with one parent stand in the order of the nodes that they were
/// copied from.
spec fn siblings_agree(rv: Seq<NodeView>, emb: Seq<int>) -> bool {
    forall|k1: int, k2: int|
        0 <= k1 < k2 < rv.len() && (#[trigger] rv[k1]).parent == (#[trigger] rv[k2]).parent
            ==> emb[k1] < emb[k2]
}

/// What holds of a search at every step: `res` is a tree in pre-order,
/// `map` sends each copied node of `src` to its copy and `emb` each copy
/// back to the node that it was copied from, only kept nodes are copied,
/// and a copy has the name of that node, hangs under the copy of that
/// node's parent, and stands among its siblings as that node does.
#[verifier::opaque]
spec fn search_inv(
    src: Seq<Node>,
    flags: Seq<bool>,
    res: Seq<Node>,
    map: Seq<Option<usize>>,
    emb: Seq<int>,
) -> bool {
    let sv = nodes_view(src);
    let rv = nodes_view(res);
    &&& links_consistent(src)
    &&& links_consistent(res)
    &&& in_pre_order(rv)
    &&& map.len() == src.len()
    &&& emb.len() == res.len()
    &&& back_linked(sv, flags, map, emb)
    &&& forth_linked(map, emb)
    &&& names_agree(sv, rv, emb)
    &&& parents_agree(sv, rv, emb)
    &&& siblings_agree(rv, emb)
    &&& ancestor_closed(sv, map)
}

/// Every copied node that shares its parent with a node on the path from
/// the root to `x` is that node or stands before it.
spec fn siblings_left(sv: Seq<NodeView>, map: Seq<Option<usize>>, x: int) -> bool {
    forall|j: int, y: int|
        #[trigger] present(map, j) && #[trigger] in_subtree(sv, y, x) && sv[j].parent
            == sv[y].parent ==> j <= y
}

/// The node copied last lies below every copied node on the path from the
/// root to `x`.
spec fn last_under(
    sv: Seq<NodeView>,
    map: Seq<Option<usize>>,
    emb: Seq<int>,
    x: int,
) -> bool {
    emb.len() > 0 ==> forall|y: int|
        present(map, y) && #[trigger] in_subtree(sv, y, x) ==> in_subtree(
            sv,
            y,
            emb[emb.len() - 1],
        )
}

/// The later table has every entry of the earlier one.
spec fn extends(before: Seq<Option<usize>>, after: Seq<Option<usize>>) -> bool {
    &&& before.len() == after.len()
    &&& forall|i: int| #[trigger] present(before, i) ==> after[i] == before[i]
}

/// With a copied node, every node above it is copied.
proof fn lemma_present_upwards(sv: Seq<NodeView>, map: Seq<Option<usize>>, a: int, j: int)
    requires
        ancestor_closed(sv, map),
        present(map, j),
        in_subtree(sv, a, j),
    ensures
        present(map, a),
    decreases j,
{
    if j != a {
        lemma_present_upwards(sv, map, a, sv[j].parent->0);
    }
}

/// A copy lies below the copy of every copied node that the node it was
/// copied from lies below.
proof fn lemma_image_in_subtree(
    sv: Seq<NodeView>,
    flags: Seq<bool>,
    rv: Seq<NodeView>,
    map: Seq<Option<usize>>,
    emb: Seq<int>,
    y: int,
    k: int,
)
    requires
        well_formed(rv),
        emb.len() == rv.len(),
        back_linked(sv, flags, map, emb),
        parents_agree(sv, rv, emb),
        0 <= k < rv.len(),
        in_subtree(sv, y, emb[k]),
        present(map, y),
    ensures
        in_subtree(rv, map[y]->0 as int, k),
    decreases k,
{
    let top = map[y]->0 as int;
    if emb[k] == y {
        assert(map[emb[k]]->0 as int == k);
    } else {
        let q = sv[emb[k]].parent->0;
        assert(in_subtree(sv, y, q));
        assert(rv[k].parent is Some);
        let pk = rv[k].parent->0;
        assert(emb[pk] == q);
        assert(0 <= pk < k);
        lemma_image_in_subtree(sv, flags, rv, map, emb, y, pk);
        assert(in_subtree(rv, top, pk));
        assert(in_subtree(rv, top, k));
    }
}

/// The invariant of a search survives the copying of one more node.
proof fn lemma_attach_keeps_inv(
    src: Seq<Node>,
    flags: Seq<bool>,
    res0: Seq<Node>,
    res1: Seq<Node>,
    map0: Seq<Option<usize>>,
    emb0: Seq<int>,
    x: int,
    target: Option<usize>,
    index: usize,
)
    requires
        search_inv(src, flags, res0, map0, emb0),
        0 <= x < src.len(),
        !present(map0, x),
        kept(nodes_view(src), flags, x),
        links_consistent(res1),
        res1.len() == res0.len() + 1,
        index as int == res0.len(),
        nodes_view(res1) == nodes_view(res0).push(
            NodeView { name: nodes_view(src)[x].name, parent: parent_view(target) },
        ),
        match nodes_view(src)[x].parent {
            None => target is None && res0.len() == 0,
            Some(p) => present(map0, p) && target == map0[p],
        },
        forall|j: int| #[trigger]
            present(map0, j) && nodes_view(src)[j].parent == nodes_view(src)[x].parent ==> j < x,
        res0.len() > 0 ==> target is Some && in_subtree(
            nodes_view(res0),
            target->0 as int,
            res0.len() - 1,
        ),
    ensures
        search_inv(src, flags, res1, map0.update(x, Some(index)), emb0.push(x)),
{
    reveal(search_inv);
    let sv = nodes_view(src);
    let rv0 = nodes_view(res0);
    let rv1 = nodes_view(res1);
    let map1 = map0.update(x, Some(index));
    let emb1 = emb0.push(x);
    let n0 = res0.len() as int;
    let node = NodeView { name: sv[x].name, parent: parent_view(target) };
    lemma_in_pre_order_push(rv0, node);
    assert(rv1.len() == res1.len());
    assert forall|k: int| 0 <= k < emb1.len() implies 0 <= #[trigger] emb1[k] < map1.len()
        && map1[emb1[k]] is Some && map1[emb1[k]]->0 as int == k && kept(sv, flags, emb1[k]) by {
        if k < n0 {
            assert(emb1[k] == emb0[k]);
        }
    }
    assert forall|i: int| #[trigger] present(map1, i) implies (map1[i]->0) < emb1.len()
        && emb1[map1[i]->0 as int] == i by {
        if i != x {
            assert(present(map0, i));
        }
    }
    assert forall|k: int| 0 <= k < rv1.len() implies (#[trigger] rv1[k]).name
        == sv[emb1[k]].name by {
        if k < n0 {
            assert(rv1[k] == rv0[k]);
        }
    }
    assert forall|k: int| 0 <= k < rv1.len() implies match (#[trigger] rv1[k]).parent {
        None => sv[emb1[k]].parent is None,
        Some(p) => 0 <= p < rv1.len() && sv[emb1[k]].parent == Some(emb1[p]),
    } by {
        if k < n0 {
            assert(rv1[k] == rv0[k]);
        } else {
            match sv[x].parent {
                None => {},
                Some(p) => {
                    assert(present(map0, p));
                },
            }
        }
    }
    assert forall|k1: int, k2: int|
        0 <= k1 < k2 < rv1.len() && (#[trigger] rv1[k1]).parent == (#[trigger] rv1[k2]).parent
        implies emb1[k1] < emb1[k2] by {
        assert(rv1[k1] == rv0[k1]);
        if k2 < n0 {
            assert(rv1[k2] == rv0[k2]);
        } else {
            let j = emb0[k1];
            assert(present(map0, j));
            match sv[x].parent {
                None => {},
                Some(p) => {
                    assert(present(map0, p));
                    let pk = rv0[k1].parent->0;
                    assert(emb0[pk] == p);
                },
            }
        }
    }
    assert forall|i: int| #[trigger] present(map1, i) implies match sv[i].parent {
        Some(p) => present(map1, p),
        None => true,
    } by {
        if i != x {
            assert(present(map0, i));
        }
        match sv[i].parent {
            Some(p) => {
                assert(present(map0, p));
            },
            None => {},
        }
    }
}

/// What a search knows without looking into its invariant.
proof fn lemma_inv_basics(
    src: Seq<Node>,
    flags: Seq<bool>,
    res: Seq<Node>,
    map: Seq<Option<usize>>,
    emb: Seq<int>,
)
    requires
        search_inv(src, flags, res, map, emb),
    ensures
        links_consistent(src),
        links_consistent(res),
        well_formed(nodes_view(src)),
        well_formed(nodes_view(res)),
        map.len() == src.len(),
        emb.len() == res.len(),
        nodes_view(res).len() == res.len(),
        nodes_view(src).len() == src.len(),
{
    reveal(search_inv);
}

/// How the state of a search may change while the path to `x` is copied:
/// no entry of the table is lost, the new entries are nodes of the path,
/// and where anything was copied, `x` was copied last.
spec fn path_attached(
    sv: Seq<NodeView>,
    map0: Seq<Option<usize>>,
    emb0: Seq<int>,
    map1: Seq<Option<usize>>,
    emb1: Seq<int>,
    x: int,
) -> bool {
    &&& extends(map0, map1)
    &&& present(map1, x)
    &&& forall|i: int| #[trigger] present(map1, i) && !present(map0, i) ==> in_subtree(sv, i, x)
    &&& emb1.len() >= emb0.len()
    &&& emb1.len() > emb0.len() ==> emb1[emb1.len() - 1] == x
    &&& emb1.len() == emb0.len() ==> emb1 == emb0 && map1 == map0
}

/// Before the path to the parent of `x` is copied.
proof fn lemma_attach_parent_first(
    src: Seq<Node>,
    flags: Seq<bool>,
    res: Seq<Node>,
    map: Seq<Option<usize>>,
    emb: Seq<int>,
    x: int,
)
    requires
        search_inv(src, flags, res, map, emb),
        0 <= x < src.len(),
        nodes_view(src)[x].parent is Some,
        kept(nodes_view(src), flags, x),
        siblings_left(nodes_view(src), map, x),
        last_under(nodes_view(src), map, emb, x),
    ensures
        ({
            let p = nodes_view(src)[x].parent->0;
            &&& 0 <= p < x
            &&& kept(nodes_view(src), flags, p)
            &&& siblings_left(nodes_view(src), map, p)
            &&& last_under(nodes_view(src), map, emb, p)
        }),
{
    let sv = nodes_view(src);
    let p = sv[x].parent->0;
    lemma_inv_basics(src, flags, res, map, emb);
    lemma_in_subtree_of_parent(sv, x);
    assert(in_subtree(sv, x, x));
    lemma_kept_upwards(sv, flags, p, x);
    assert forall|j: int, y: int|
        #[trigger] present(map, j) && #[trigger] in_subtree(sv, y, p) && sv[j].parent
            == sv[y].parent implies j <= y by {
        lemma_in_subtree_trans(sv, y, p, x);
    }
    if emb.len() > 0 {
        assert forall|y: int| present(map, y) && #[trigger] in_subtree(sv, y, p) implies in_subtree(
            sv,
            y,
            emb[emb.len() - 1],
        ) by {
            lemma_in_subtree_trans(sv, y, p, x);
        }
    }
}

/// While the root has no copy, no node has one.
proof fn lemma_nothing_without_root(
    src: Seq<Node>,
    flags: Seq<bool>,
    res: Seq<Node>,
    map: Seq<Option<usize>>,
    emb: Seq<int>,
)
    requires
        search_inv(src, flags, res, map, emb),
        !present(map, 0),
    ensures
        res.len() == 0,
{
    reveal(search_inv);
    let sv = nodes_view(src);
    if res.len() > 0 {
        let j = emb[0];
        assert(present(map, j));
        lemma_root_reaches(sv, j);
        lemma_present_upwards(sv, map, 0, j);
    }
}

/// After the path to the parent of `x` was copied, `x` can be copied.
proof fn lemma_attach_ready(
    src: Seq<Node>,
    flags: Seq<bool>,
    res0: Seq<Node>,
    before: Seq<Option<usize>>,
    emb: Seq<int>,
    map0: Seq<Option<usize>>,
    cur: Seq<int>,
    x: int,
)
    requires
        search_inv(src, flags, res0, map0, cur),
        0 <= x < src.len(),
        before.len() == src.len(),
        !present(before, x),
        nodes_view(src)[x].parent is Some,
        path_attached(nodes_view(src), before, emb, map0, cur, nodes_view(src)[x].parent->0),
        siblings_left(nodes_view(src), before, x),
        last_under(nodes_view(src), before, emb, x),
    ensures
        !present(map0, x),
        present(map0, nodes_view(src)[x].parent->0),
        map0[nodes_view(src)[x].parent->0]->0 < res0.len(),
        forall|j: int| #[trigger]
            present(map0, j) && nodes_view(src)[j].parent == nodes_view(src)[x].parent ==> j < x,
        res0.len() > 0 && in_subtree(
            nodes_view(res0),
            map0[nodes_view(src)[x].parent->0]->0 as int,
            res0.len() - 1,
        ),
{
    reveal(search_inv);
    let sv = nodes_view(src);
    let p = sv[x].parent->0;
    lemma_in_subtree_of_parent(sv, x);
    assert(in_subtree(sv, x, x));
    if present(map0, x) {
        assert(in_subtree(sv, x, p));
        lemma_in_subtree_order(sv, x, p);
    }
    assert forall|j: int| #[trigger] present(map0, j) && sv[j].parent == sv[x].parent implies j
        < x by {
        if present(before, j) {
            assert(j <= x);
        } else {
            assert(in_subtree(sv, j, p));
            lemma_in_subtree_order(sv, j, p);
        }
    }
    let top = map0[p]->0 as int;
    assert(cur[top] == p);
    let last = res0.len() - 1;
    if cur.len() > emb.len() {
        assert(cur[last] == p);
        assert(map0[cur[last]]->0 as int == last);
        assert(in_subtree(nodes_view(res0), top, last));
    } else {
        assert(in_subtree(sv, p, cur[last]));
        lemma_image_in_subtree(sv, flags, nodes_view(res0), map0, cur, p, last);
    }
}

/// After `x` was copied too, the whole path to `x` is copied.
proof fn lemma_attach_done(
    sv: Seq<NodeView>,
    before: Seq<Option<usize>>,
    emb: Seq<int>,
    map0: Seq<Option<usize>>,
    cur: Seq<int>,
    x: int,
    index: usize,
)
    requires
        well_formed(sv),
        0 <= x < sv.len(),
        before.len() == sv.len(),
        !present(before, x),
        !present(map0, x),
        match sv[x].parent {
            Some(p) => path_attached(sv, before, emb, map0, cur, p) && siblings_left(sv, map0, p),
            None => map0 == before && cur == emb,
        },
        siblings_left(sv, before, x),
        forall|j: int| #[trigger] present(map0, j) && sv[j].parent == sv[x].parent ==> j < x,
    ensures
        path_attached(sv, before, emb, map0.update(x, Some(index)), cur.push(x), x),
        siblings_left(sv, map0.update(x, Some(index)), x),
{
    let map1 = map0.update(x, Some(index));
    assert(in_subtree(sv, x, x));
    assert forall|i: int| #[trigger] present(map1, i) && !present(before, i) implies in_subtree(
        sv,
        i,
        x,
    ) by {
        if i != x {
            assert(present(map0, i));
            let p = sv[x].parent->0;
            lemma_in_subtree_of_parent(sv, x);
            lemma_in_subtree_trans(sv, i, p, x);
        }
    }
    assert forall|i: int| #[trigger] present(before, i) implies map1[i] == before[i] by {
        assert(present(map0, i) && map0[i] == before[i]);
    }
    assert forall|j: int, y: int|
        #[trigger] present(map1, j) && #[trigger] in_subtree(sv, y, x) && sv[j].parent
            == sv[y].parent implies j <= y by {
        lemma_in_subtree_order(sv, y, x);
        if j == x {
            lemma_path_meets_siblings_once(sv, x, y, x);
        } else if y == x {
            assert(present(map0, j));
        } else {
            assert(present(map0, j));
            let p = sv[x].parent->0;
            assert(in_subtree(sv, y, p));
        }
    }
}

/// Copies the nodes on the path from the root to `x` that have no copy
/// yet, the root first, each under the copy of its parent.
fn attach_path(
    src: &Vec<Node>,
    x: usize,
    res: &mut Vec<Node>,
    map: &mut Vec<Option<usize>>,
    Ghost(flags): Ghost<Seq<bool>>,
    Ghost(emb): Ghost<Seq<int>>,
) -> (out: Ghost<Seq<int>>)
    requires
        search_inv(src@, flags, old(res)@, old(map)@, emb),
        x < src@.len(),
        kept(nodes_view(src@), flags, x as int),
        siblings_left(nodes_view(src@), old(map)@, x as int),
        last_under(nodes_view(src@), old(map)@, emb, x as int),
    ensures
        search_inv(src@, flags, final(res)@, final(map)@, out@),
        path_attached(nodes_view(src@), old(map)@, emb, final(map)@, out@, x as int),
        siblings_left(nodes_view(src@), final(map)@, x as int),
    decreases x,
{
    let ghost sv = nodes_view(src@);
    proof {
        lemma_inv_basics(src@, flags, res@, map@, emb);
    }
    if map[x].is_some() {
        return Ghost(emb);
    }
    let ghost mut cur = emb;
    let target: Option<usize> = match src[x].parent {
        None => {
            proof {
                lemma_nothing_without_root(src@, flags, res@, map@, emb);
            }
            None
        },
        Some(p) => {
            proof {
                lemma_attach_parent_first(src@, flags, res@, map@, emb, x as int);
            }
            let r = attach_path(src, p, res, map, Ghost(flags), Ghost(emb));
            proof {
                cur = r@;
                lemma_inv_basics(src@, flags, res@, map@, cur);
                lemma_attach_ready(src@, flags, res@, old(map)@, emb, map@, cur, x as int);
            }
            map[p]
        },
    };
    let index = res.len();
    let item = DBItem { name: src[x].item.name.clone() };
    let ghost res0 = res@;
    let ghost map0 = map@;
    push_node(res, item, target);
    map[x] = Some(index);
    proof {
        assert(map@ =~= map0.update(x as int, Some(index)));
        lemma_attach_keeps_inv(src@, flags, res0, res@, map0, cur, x as int, target, index);
        lemma_attach_done(sv, old(map)@, emb, map0, cur, x as int, index);
    }
    Ghost(cur.push(x as int))
}

/// No node of the subtree of `node` has a copy.
spec fn untouched(sv: Seq<NodeView>, map: Seq<Option<usize>>, node: int) -> bool {
    forall|j: int| #[trigger] in_subtree(sv, node, j) ==> !present(map, j)
}

/// How the state of a search may change while the subtree of `node` is
/// walked: no entry of the table is lost, the new entries are nodes of the
/// subtree or of the path to it, every kept node of the subtree has a copy
/// afterwards, and where anything was copied, a node of the subtree was
/// copied last.
spec fn subtree_searched(
    sv: Seq<NodeView>,
    flags: Seq<bool>,
    map0: Seq<Option<usize>>,
    emb0: Seq<int>,
    map1: Seq<Option<usize>>,
    emb1: Seq<int>,
    node: int,
) -> bool {
    &&& extends(map0, map1)
    &&& forall|i: int| #[trigger]
        present(map1, i) && !present(map0, i) ==> in_subtree(sv, node, i) || in_subtree(
            sv,
            i,
            node,
        )
    &&& forall|j: int| #[trigger] in_subtree(sv, node, j) && kept(sv, flags, j) ==> present(map1, j)
    &&& emb1.len() >= emb0.len()
    &&& emb1.len() > emb0.len() ==> in_subtree(sv, node, emb1[emb1.len() - 1])
    &&& emb1.len() == emb0.len() ==> emb1 == emb0 && map1 == map0
}

/// The state of a search after the subtrees of the first `k` children of
/// `node` were walked; `from` is one more than the last of them.
spec fn children_searched(
    sv: Seq<NodeView>,
    flags: Seq<bool>,
    map0: Seq<Option<usize>>,
    emb0: Seq<int>,
    map1: Seq<Option<usize>>,
    emb1: Seq<int>,
    node: int,
    cs: Seq<usize>,
    k: int,
    from: int,
) -> bool {
    &&& extends(map0, map1)
    &&& forall|i: int| #[trigger]
        present(map1, i) && !present(map0, i) ==> in_subtree(sv, node, i) || in_subtree(
            sv,
            i,
            node,
        )
    &&& forall|t: int, j: int|
        0 <= t < k && #[trigger] in_subtree(sv, cs[t] as int, j) && kept(sv, flags, j) ==> present(
            map1,
            j,
        )
    &&& forall|c: int| #[trigger] present(map1, c) && sv[c].parent == Some(node) ==> c < from
    &&& emb1.len() >= emb0.len()
    &&& emb1.len() > emb0.len() ==> in_subtree(sv, node, emb1[emb1.len() - 1])
    &&& emb1.len() == emb0.len() ==> emb1 == emb0 && map1 == map0
}

/// Before the first child of `node` is walked.
proof fn lemma_children_start(
    sv: Seq<NodeView>,
    flags: Seq<bool>,
    map: Seq<Option<usize>>,
    emb: Seq<int>,
    node: int,
    cs: Seq<usize>,
)
    requires
        well_formed(sv),
        0 <= node < sv.len(),
        map.len() == sv.len(),
        untouched(sv, map, node),
    ensures
        children_searched(sv, flags, map, emb, map, emb, node, cs, 0, node + 1),
{
    assert forall|c: int| #[trigger] present(map, c) && sv[c].parent == Some(node) implies c < node
        + 1 by {
        lemma_in_subtree_of_parent(sv, c);
    }
}

/// Before the child `k` of `node` is walked.
proof fn lemma_child_first(
    src: Seq<Node>,
    flags: Seq<bool>,
    res: Seq<Node>,
    map0: Seq<Option<usize>>,
    emb0: Seq<int>,
    map: Seq<Option<usize>>,
    emb: Seq<int>,
    node: int,
    k: int,
    from: int,
)
    requires
        search_inv(src, flags, res, map, emb),
        0 <= node < src.len(),
        0 <= k < src[node].children@.len(),
        children_searched(
            nodes_view(src),
            flags,
            map0,
            emb0,
            map,
            emb,
            node,
            src[node].children@,
            k,
            from,
        ),
        k == 0 ==> from == node + 1,
        k > 0 ==> from == src[node].children@[k - 1] + 1,
        siblings_left(nodes_view(src), map, node),
        last_under(nodes_view(src), map, emb, node),
    ensures
        ({
            let child = src[node].children@[k] as int;
            let sv = nodes_view(src);
            &&& node < child < src.len()
            &&& from <= child
            &&& sv[child].parent == Some(node)
            &&& untouched(sv, map, child)
            &&& siblings_left(sv, map, child)
            &&& last_under(sv, map, emb, child)
        }),
{
    reveal(search_inv);
    let sv = nodes_view(src);
    let cs = src[node].children@;
    let child = cs[k] as int;
    assert(node < cs[k] < src.len());
    if k > 0 {
        assert(cs[k - 1] < cs[k]);
    }
    assert(sv[child].parent == Some(node));
    assert(in_subtree(sv, child, child));
    assert forall|j: int| #[trigger] in_subtree(sv, child, j) implies !present(map, j) by {
        if present(map, j) {
            lemma_present_upwards(sv, map, child, j);
        }
    }
    assert forall|j: int, y: int|
        #[trigger] present(map, j) && #[trigger] in_subtree(sv, y, child) && sv[j].parent
            == sv[y].parent implies j <= y by {
        if y != child {
            assert(in_subtree(sv, y, node));
        }
    }
    if emb.len() > 0 {
        assert forall|y: int| present(map, y) && #[trigger] in_subtree(sv, y, child) implies in_subtree(
            sv,
            y,
            emb[emb.len() - 1],
        ) by {
            assert(y != child);
            assert(in_subtree(sv, y, node));
        }
    }
}

/// After the child `k` of `node` was walked.
proof fn lemma_child_done(
    sv: Seq<NodeView>,
    flags: Seq<bool>,
    map0: Seq<Option<usize>>,
    emb0: Seq<int>,
    map1: Seq<Option<usize>>,
    emb1: Seq<int>,
    map2: Seq<Option<usize>>,
    emb2: Seq<int>,
    node: int,
    cs: Seq<usize>,
    k: int,
    from: int,
)
    requires
        well_formed(sv),
        0 <= k < cs.len(),
        0 <= node < cs[k] < sv.len(),
        sv[cs[k] as int].parent == Some(node),
        from <= cs[k],
        children_searched(sv, flags, map0, emb0, map1, emb1, node, cs, k, from),
        subtree_searched(sv, flags, map1, emb1, map2, emb2, cs[k] as int),
        siblings_left(sv, map2, cs[k] as int),
        last_under(sv, map2, emb2, cs[k] as int),
    ensures
        children_searched(sv, flags, map0, emb0, map2, emb2, node, cs, k + 1, cs[k] + 1),
        siblings_left(sv, map2, node),
        last_under(sv, map2, emb2, node),
{
    let child = cs[k] as int;
    lemma_in_subtree_of_parent(sv, child);
    assert forall|i: int| #[trigger] present(map0, i) implies map2[i] == map0[i] by {
        assert(present(map1, i));
    }
    assert forall|i: int| #[trigger] present(map2, i) && !present(map0, i) implies in_subtree(
        sv,
        node,
        i,
    ) || in_subtree(sv, i, node) by {
        if !present(map1, i) {
            if in_subtree(sv, child, i) {
                lemma_in_subtree_trans(sv, node, child, i);
            } else {
                assert(in_subtree(sv, i, child));
                if i == child {
                    assert(in_subtree(sv, node, i));
                } else {
                    assert(in_subtree(sv, i, node));
                }
            }
        }
    }
    assert forall|t: int, j: int|
        0 <= t < k + 1 && #[trigger] in_subtree(sv, cs[t] as int, j) && kept(
            sv,
            flags,
            j,
        ) implies present(map2, j) by {
        if t < k {
            assert(present(map1, j));
        }
    }
    assert forall|c: int| #[trigger] present(map2, c) && sv[c].parent == Some(node) implies c
        < child + 1 by {
        if !present(map1, c) {
            if in_subtree(sv, child, c) {
                if c != child {
                    assert(in_subtree(sv, child, node));
                    lemma_in_subtree_order(sv, child, node);
                }
            } else {
                assert(in_subtree(sv, c, child));
                if c != child {
                    assert(in_subtree(sv, c, node));
                    lemma_in_subtree_order(sv, c, node);
                }
            }
        }
    }
    if emb2.len() > emb0.len() {
        if emb2.len() > emb1.len() {
            lemma_in_subtree_trans(sv, node, child, emb2[emb2.len() - 1]);
        }
    }
    assert forall|j: int, y: int|
        #[trigger] present(map2, j) && #[trigger] in_subtree(sv, y, node) && sv[j].parent
            == sv[y].parent implies j <= y by {
        lemma_in_subtree_trans(sv, y, node, child);
    }
    if emb2.len() > 0 {
        assert forall|y: int| present(map2, y) && #[trigger] in_subtree(sv, y, node) implies in_subtree(
            sv,
            y,
            emb2[emb2.len() - 1],
        ) by {
            lemma_in_subtree_trans(sv, y, node, child);
        }
    }
}

/// A kept node below `node` has a copy once all children of `node` were
/// walked, and with it `node` has one.
proof fn lemma_children_complete(
    src: Seq<Node>,
    flags: Seq<bool>,
    map0: Seq<Option<usize>>,
    emb0: Seq<int>,
    map1: Seq<Option<usize>>,
    emb1: Seq<int>,
    node: int,
    from: int,
    j: int,
)
    requires
        links_consistent(src),
        0 <= node < src.len(),
        ancestor_closed(nodes_view(src), map1),
        children_searched(
            nodes_view(src),
            flags,
            map0,
            emb0,
            map1,
            emb1,
            node,
            src[node].children@,
            src[node].children@.len() as int,
            from,
        ),
        in_subtree(nodes_view(src), node, j),
        j != node,
        kept(nodes_view(src), flags, j),
    ensures
        present(map1, j),
        present(map1, node),
{
    let sv = nodes_view(src);
    let cs = src[node].children@;
    let c = lemma_child_towards(sv, node, j);
    assert(parent_view(src[c].parent) == Some(node));
    assert(src[c].parent->0 as int == node);
    assert(listed(cs, c));
    let t = choose|t: int| 0 <= t < cs.len() && #[trigger] cs[t] as int == c;
    assert(in_subtree(sv, cs[t] as int, j));
    assert(present(map1, j));
    lemma_present_upwards(sv, map1, c, j);
    assert(present(map1, c));
}

/// After all children of a node without a flag were walked.
proof fn lemma_subtree_done_unflagged(
    src: Seq<Node>,
    flags: Seq<bool>,
    map0: Seq<Option<usize>>,
    emb0: Seq<int>,
    map1: Seq<Option<usize>>,
    emb1: Seq<int>,
    node: int,
    from: int,
)
    requires
        links_consistent(src),
        0 <= node < src.len(),
        ancestor_closed(nodes_view(src), map1),
        children_searched(
            nodes_view(src),
            flags,
            map0,
            emb0,
            map1,
            emb1,
            node,
            src[node].children@,
            src[node].children@.len() as int,
            from,
        ),
        !flagged(flags, node),
    ensures
        subtree_searched(nodes_view(src), flags, map0, emb0, map1, emb1, node),
{
    let sv = nodes_view(src);
    assert forall|j: int| #[trigger] in_subtree(sv, node, j) && kept(sv, flags, j) implies present(
        map1,
        j,
    ) by {
        if j == node {
            let w = choose|w: int| flagged(flags, w) && #[trigger] in_subtree(sv, node, w);
            assert(in_subtree(sv, w, w));
            lemma_children_complete(src, flags, map0, emb0, map1, emb1, node, from, w);
        } else {
            lemma_children_complete(src, flags, map0, emb0, map1, emb1, node, from, j);
        }
    }
}

/// After all children of a flagged node were walked and the path to the
/// node was copied.
proof fn lemma_subtree_done_flagged(
    src: Seq<Node>,
    flags: Seq<bool>,
    map0: Seq<Option<usize>>,
    emb0: Seq<int>,
    map1: Seq<Option<usize>>,
    emb1: Seq<int>,
    map2: Seq<Option<usize>>,
    emb2: Seq<int>,
    node: int,
    from: int,
)
    requires
        links_consistent(src),
        0 <= node < src.len(),
        ancestor_closed(nodes_view(src), map1),
        children_searched(
            nodes_view(src),
            flags,
            map0,
            emb0,
            map1,
            emb1,
            node,
            src[node].children@,
            src[node].children@.len() as int,
            from,
        ),
        path_attached(nodes_view(src), map1, emb1, map2, emb2, node),
        last_under(nodes_view(src), map1, emb1, node),
    ensures
        subtree_searched(nodes_view(src), flags, map0, emb0, map2, emb2, node),
        last_under(nodes_view(src), map2, emb2, node),
{
    let sv = nodes_view(src);
    assert(in_subtree(sv, node, node));
    assert forall|i: int| #[trigger] present(map0, i) implies map2[i] == map0[i] by {
        assert(present(map1, i));
    }
    assert forall|j: int| #[trigger] in_subtree(sv, node, j) && kept(sv, flags, j) implies present(
        map2,
        j,
    ) by {
        if j != node {
            lemma_children_complete(src, flags, map0, emb0, map1, emb1, node, from, j);
        }
    }
    assert forall|i: int| #[trigger] present(map2, i) && !present(map0, i) implies in_subtree(
        sv,
        node,
        i,
    ) || in_subtree(sv, i, node) by {
        if !present(map1, i) {
            assert(in_subtree(sv, i, node));
        }
    }
}

/// Walks the subtree of `node` in post-order and copies, for each flagged
/// node met, the nodes on the path from the root to it that have no copy
/// yet.
fn visit(
    src: &Vec<Node>,
    matched: &Vec<bool>,
    node: usize,
    res: &mut Vec<Node>,
    map: &mut Vec<Option<usize>>,
    Ghost(emb): Ghost<Seq<int>>,
) -> (out: Ghost<Seq<int>>)
    requires
        search_inv(src@, matched@, old(res)@, old(map)@, emb),
        node < src@.len(),
        untouched(nodes_view(src@), old(map)@, node as int),
        siblings_left(nodes_view(src@), old(map)@, node as int),
        last_under(nodes_view(src@), old(map)@, emb, node as int),
    ensures
        search_inv(src@, matched@, final(res)@, final(map)@, out@),
        subtree_searched(
            nodes_view(src@),
            matched@,
            old(map)@,
            emb,
            final(map)@,
            out@,
            node as int,
        ),
        siblings_left(nodes_view(src@), final(map)@, node as int),
        last_under(nodes_view(src@), final(map)@, out@, node as int),
    decreases src@.len() - node,
{
    let ghost sv = nodes_view(src@);
    let ghost flags = matched@;
    let ghost cs = src@[node as int].children@;
    let ghost mut cur = emb;
    let ghost mut from: int = node as int + 1;
    let count = src[node].children.len();
    let mut k: usize = 0;
    proof {
        lemma_inv_basics(src@, flags, res@, map@, emb);
        lemma_children_start(sv, flags, map@, emb, node as int, cs);
    }
    while k < count
        invariant
            k <= count,
            node < src@.len(),
            sv == nodes_view(src@),
            flags == matched@,
            cs == src@[node as int].children@,
            count == cs.len(),
            search_inv(src@, flags, res@, map@, cur),
            children_searched(sv, flags, old(map)@, emb, map@, cur, node as int, cs, k as int, from),
            k == 0 ==> from == node + 1,
            k > 0 ==> from == cs[k - 1] + 1,
            siblings_left(sv, map@, node as int),
            last_under(sv, map@, cur, node as int),
        decreases count - k,
    {
        let child = src[node].children[k];
        let ghost map1 = map@;
        let ghost emb1 = cur;
        proof {
            lemma_child_first(
                src@,
                flags,
                res@,
                old(map)@,
                emb,
                map1,
                emb1,
                node as int,
                k as int,
                from,
            );
        }
        let r = visit(src, matched, child, res, map, Ghost(cur));
        proof {
            cur = r@;
            lemma_inv_basics(src@, flags, res@, map@, cur);
            lemma_child_done(
                sv,
                flags,
                old(map)@,
                emb,
                map1,
                emb1,
                map@,
                cur,
                node as int,
                cs,
                k as int,
                from,
            );
            from = child as int + 1;
        }
        k = k + 1;
    }
    proof {
        lemma_inv_ancestor_closed(src@, flags, res@, map@, cur);
    }
    if node < matched.len() && matched[node] {
        let ghost map1 = map@;
        let ghost emb1 = cur;
        proof {
            assert(flagged(flags, node as int) && in_subtree(sv, node as int, node as int));
        }
        let r = attach_path(src, node, res, map, Ghost(flags), Ghost(cur));
        proof {
            cur = r@;
            lemma_subtree_done_flagged(
                src@,
                flags,
                old(map)@,
                emb,
                map1,
                emb1,
                map@,
                cur,
                node as int,
                from,
            );
        }
    } else {
        proof {
            lemma_subtree_done_unflagged(src@, flags, old(map)@, emb, map@, cur, node as int, from);
        }
    }
    Ghost(cur)
}

/// With a copied node, its parent is copied.
proof fn lemma_inv_ancestor_closed(
    src: Seq<Node>,
    flags: Seq<bool>,
    res: Seq<Node>,
    map: Seq<Option<usize>>,
    emb: Seq<int>,
)
    requires
        search_inv(src, flags, res, map, emb),
    ensures
        ancestor_closed(nodes_view(src), map),
{
    reveal(search_inv);
}

/// A search starts with no node copied.
proof fn lemma_search_start(src: Seq<Node>, flags: Seq<bool>, res: Seq<Node>, map: Seq<Option<usize>>)
    requires
        links_consistent(src),
        res.len() == 0,
        map.len() == src.len(),
        forall|i: int| 0 <= i < map.len() ==> map[i] is None,
    ensures
        search_inv(src, flags, res, map, Seq::<int>::empty()),
        untouched(nodes_view(src), map, 0),
        siblings_left(nodes_view(src), map, 0),
        last_under(nodes_view(src), map, Seq::<int>::empty(), 0),
{
    reveal(search_inv);
    lemma_links_empty(res);
}

/// What a search has built when the whole tree was walked.
proof fn lemma_search_end(
    src: Seq<Node>,
    flags: Seq<bool>,
    res: Seq<Node>,
    map0: Seq<Option<usize>>,
    map: Seq<Option<usize>>,
    emb: Seq<int>,
)
    requires
        src.len() > 0,
        search_inv(src, flags, res, map, emb),
        subtree_searched(nodes_view(src), flags, map0, Seq::<int>::empty(), map, emb, 0),
    ensures
        links_consistent(res),
        is_matching_subtree(nodes_view(src), flags, nodes_view(res)),
{
    reveal(search_inv);
    let sv = nodes_view(src);
    let rv = nodes_view(res);
    assert forall|i: int| 0 <= i < sv.len() && #[trigger] kept(sv, flags, i) implies exists|k: int|
        0 <= k < rv.len() && #[trigger] emb[k] == i by {
        lemma_root_reaches(sv, i);
        assert(present(map, i));
        let k = map[i]->0 as int;
        assert(emb[k] == i);
    }
    assert forall|k1: int, k2: int| 0 <= k1 < k2 < rv.len() implies #[trigger] emb[k1]
        != #[trigger] emb[k2] by {
        assert(map[emb[k1]]->0 as int == k1);
        assert(map[emb[k2]]->0 as int == k2);
    }
    assert(embeds(sv, flags, rv, emb));
}

/// The smallest subtree that holds every flagged node and its ancestors.
///
/// The tree is walked in post-order. For each flagged node the nodes on
/// the path from the root to it that have no copy yet are copied, the root
/// first, each under the copy of its parent; a table from nodes to copies
/// tells which have one.
pub(crate) fn matching_subtree(src: &Vec<Node>, matched: &Vec<bool>) -> (res: Vec<Node>)
    requires
        links_consistent(src@),
    ensures
        links_consistent(res@),
        is_matching_subtree(nodes_view(src@), matched@, nodes_view(res@)),
{
    let total = src.len();
    let mut res: Vec<Node> = Vec::new();
    let mut map: Vec<Option<usize>> = Vec::new();
    let mut filled: usize = 0;
    while filled < total
        invariant
            filled <= total,
            map@.len() == filled,
            forall|i: int| 0 <= i < map@.len() ==> map@[i] is None,
        decreases total - filled,
    {
        map.push(None);
        filled = filled + 1;
    }
    if total == 0 {
        proof {
            lemma_links_empty(res@);
            let rv = nodes_view(res@);
            assert(embeds(nodes_view(src@), matched@, rv, Seq::<int>::empty()));
        }
        return res;
    }
    let ghost map0 = map@;
    proof {
        lemma_search_start(src@, matched@, res@, map@);
    }
    let out = visit(src, matched, 0, &mut res, &mut map, Ghost(Seq::<int>::empty()));
    proof {
        lemma_search_end(src@, matched@, res@, map0, map@, out@);
    }
    res
}

} // verus!
