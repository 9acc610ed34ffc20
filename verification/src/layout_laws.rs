//! What holds of every layout tree: its tiles divide the screen, and its operations keep the
//! panes in order.
use vstd::prelude::*;

use crate::geometry::Area;
use crate::layout;
use crate::layout::{LayoutNode, Tile};
use crate::ratio;
use crate::ratio::{Ratio, HALF, MANTISSA_END};

verus! {

/// The tiles are those of the panes, in their order.
pub proof fn law_tiles_follow_panes(node: LayoutNode, area: Area)
    ensures
        node.tiles(area).len() == node.panes().len(),
        forall|i: int|
            0 <= i < node.panes().len() ==> (#[trigger] node.tiles(area)[i]).pane
                == node.panes()[i],
        node.panes().len() > 0,
    decreases node,
{
    if let LayoutNode::Split { is_vertical, split_ratio, left, right } = node {
        law_tiles_follow_panes(*left, layout::first_part(is_vertical, split_ratio, area));
        law_tiles_follow_panes(*right, layout::second_part(is_vertical, split_ratio, area));
    }
}

/// The two parts of a split divide its area.
proof fn lemma_parts(is_vertical: bool, ratio: Ratio, area: Area)
    requires
        ratio.wf(),
        area.width >= 0,
        area.height >= 0,
    ensures
        ({
            let a = layout::first_part(is_vertical, ratio, area);
            let b = layout::second_part(is_vertical, ratio, area);
            &&& a.inside(area)
            &&& b.inside(area)
            &&& a.width >= 0
            &&& a.height >= 0
            &&& b.width >= 0
            &&& b.height >= 0
            &&& forall|px: int, py: int| #[trigger]
                area.holds(px, py) <==> a.holds(px, py) || b.holds(px, py)
            &&& forall|px: int, py: int| !(#[trigger] a.holds(px, py) && b.holds(px, py))
        }),
{
    ratio::lemma_scaled_below(ratio.units as nat, area.width as nat);
    ratio::lemma_scaled_below(ratio.units as nat, area.height as nat);
}

/// A single pane is given the whole area. A split gives its first part the share of the columns,
/// or of the rows, that its ratio says, from the left or from above, and its second part all the
/// rest; both have the full extent in the other direction.
pub proof fn law_a_split_divides_one_way(node: LayoutNode, area: Area)
    ensures
        node matches LayoutNode::Leaf { pane } ==> node.tiles(area) == seq![Tile { pane, area }],
        node matches LayoutNode::Split { is_vertical, split_ratio, left, right } ==> {
            let across = ratio::scaled(split_ratio.units as nat, area.width as nat) as int;
            let down = ratio::scaled(split_ratio.units as nat, area.height as nat) as int;
            let (x, y, width, height) = (area.x, area.y, area.width, area.height);
            node.tiles(area) == (if is_vertical {
                left.tiles(Area { x, y, width: across, height }) + right.tiles(
                    Area { x: x + across, y, width: width - across, height },
                )
            } else {
                left.tiles(Area { x, y, width, height: down }) + right.tiles(
                    Area { x, y: y + down, width, height: height - down },
                )
            })
        },
{
}

/// Every tile lies inside the divided area.
pub proof fn law_tiles_inside(node: LayoutNode, area: Area)
    requires
        node.wf(),
        area.width >= 0,
        area.height >= 0,
    ensures
        forall|i: int|
            0 <= i < node.tiles(area).len() ==> {
                let tile = #[trigger] node.tiles(area)[i];
                tile.area.inside(area) && tile.area.width >= 0 && tile.area.height >= 0
            },
    decreases node,
{
    if let LayoutNode::Split { is_vertical, split_ratio, left, right } = node {
        lemma_parts(is_vertical, split_ratio, area);
        let a = layout::first_part(is_vertical, split_ratio, area);
        let b = layout::second_part(is_vertical, split_ratio, area);
        law_tiles_inside(*left, a);
        law_tiles_inside(*right, b);
        assert forall|i: int| 0 <= i < node.tiles(area).len() implies {
            let tile = #[trigger] node.tiles(area)[i];
            tile.area.inside(area) && tile.area.width >= 0 && tile.area.height >= 0
        } by {
            let n = left.tiles(a).len();
            if i < n {
                assert(node.tiles(area)[i] == left.tiles(a)[i]);
            } else {
                assert(node.tiles(area)[i] == right.tiles(b)[i - n]);
            }
        }
    }
}

/// No part of the screen is left over: every cell of the divided area is in some tile.
pub proof fn law_tiles_cover(node: LayoutNode, area: Area, px: int, py: int)
    requires
        node.wf(),
        area.width >= 0,
        area.height >= 0,
        area.holds(px, py),
    ensures
        exists|i: int|
            0 <= i < node.tiles(area).len() && (#[trigger] node.tiles(area)[i]).area.holds(px, py),
    decreases node,
{
    match node {
        LayoutNode::Leaf { pane } => {
            assert(node.tiles(area)[0].area.holds(px, py));
        },
        LayoutNode::Split { is_vertical, split_ratio, left, right } => {
            let a = layout::first_part(is_vertical, split_ratio, area);
            let b = layout::second_part(is_vertical, split_ratio, area);
            lemma_parts(is_vertical, split_ratio, area);
            if a.holds(px, py) {
                law_tiles_cover(*left, a, px, py);
                let i = choose|i: int|
                    0 <= i < left.tiles(a).len() && (#[trigger] left.tiles(a)[i]).area.holds(px, py);
                assert(node.tiles(area)[i] == left.tiles(a)[i]);
            } else {
                law_tiles_cover(*right, b, px, py);
                let i = choose|i: int|
                    0 <= i < right.tiles(b).len() && (#[trigger] right.tiles(b)[i]).area.holds(
                        px,
                        py,
                    );
                assert(node.tiles(area)[left.tiles(a).len() + i] == right.tiles(b)[i]);
            }
        },
    }
}

/// No part of the screen is given twice: no cell is in two tiles.
pub proof fn law_tiles_disjoint(node: LayoutNode, area: Area, i: int, j: int, px: int, py: int)
    requires
        node.wf(),
        area.width >= 0,
        area.height >= 0,
        0 <= i < node.tiles(area).len(),
        0 <= j < node.tiles(area).len(),
        node.tiles(area)[i].area.holds(px, py),
        node.tiles(area)[j].area.holds(px, py),
    ensures
        i == j,
    decreases node,
{
    if let LayoutNode::Split { is_vertical, split_ratio, left, right } = node {
        let a = layout::first_part(is_vertical, split_ratio, area);
        let b = layout::second_part(is_vertical, split_ratio, area);
        let n = left.tiles(a).len();
        lemma_parts(is_vertical, split_ratio, area);
        law_tiles_inside(*left, a);
        law_tiles_inside(*right, b);
        if i < n {
            assert(node.tiles(area)[i] == left.tiles(a)[i]);
            assert(a.holds(px, py));
        } else {
            assert(node.tiles(area)[i] == right.tiles(b)[i - n]);
            assert(b.holds(px, py));
        }
        if j < n {
            assert(node.tiles(area)[j] == left.tiles(a)[j]);
            assert(a.holds(px, py));
        } else {
            assert(node.tiles(area)[j] == right.tiles(b)[j - n]);
            assert(b.holds(px, py));
        }
        if i < n && j < n {
            law_tiles_disjoint(*left, a, i, j, px, py);
        } else if i >= n && j >= n {
            law_tiles_disjoint(*right, b, i - n, j - n, px, py);
        }
    }
}

/// Where every pane is as large as the least size allows, the panes are exactly the tiles:
/// widening for the border changes nothing, so they cover the screen without overlap.
pub proof fn law_roomy_panes_are_tiles(
    node: LayoutNode,
    area: Area,
    min_width: int,
    min_height: int,
)
    requires
        min_width >= 2,
        min_height >= 2,
        node.roomy(area.width, area.height, min_width, min_height),
    ensures
        layout::bordered(node.tiles(area)) == node.tiles(area),
{
    let origin = Area { x: 0, y: 0, ..area };
    layout::lemma_tiles_move(node, area, origin);
    assert forall|i: int| 0 <= i < node.tiles(area).len() implies layout::bordered(node.tiles(area))[i]
        == #[trigger] node.tiles(area)[i] by {
        assert(node.tiles(origin)[i].area.width >= min_width);
    }
    assert(layout::bordered(node.tiles(area)) =~= node.tiles(area));
}

/// A split in the middle halves the pane: the first half is the smaller by at most one.
pub proof fn law_split_halves(is_vertical: bool, area: Area)
    requires
        0 <= area.width < MANTISSA_END,
        0 <= area.height < MANTISSA_END,
    ensures
        ({
            let ratio = Ratio { units: HALF };
            let a = layout::first_part(is_vertical, ratio, area);
            let b = layout::second_part(is_vertical, ratio, area);
            if is_vertical {
                a.width == area.width / 2 && a.width <= b.width <= a.width + 1
            } else {
                a.height == area.height / 2 && a.height <= b.height <= a.height + 1
            }
        }),
{
    ratio::lemma_half_is_half(area.width as nat);
    ratio::lemma_half_is_half(area.height as nat);
}

/// A new node in place of a leaf puts its panes where the leaf's pane was.
pub proof fn lemma_with_leaf_panes(node: LayoutNode, i: int, new: LayoutNode)
    requires
        0 <= i < node.panes().len(),
        node.panes().no_duplicates(),
    ensures
        node.with_leaf(node.panes()[i], new).panes() == node.panes().take(i) + new.panes()
            + node.panes().skip(i + 1),
        node.wf() && new.wf() ==> node.with_leaf(node.panes()[i], new).wf(),
    decreases node,
{
    let id = node.panes()[i];
    match node {
        LayoutNode::Leaf { pane } => {
            assert(node.panes().take(0) + new.panes() + node.panes().skip(1) =~= new.panes());
        },
        LayoutNode::Split { is_vertical, split_ratio, left, right } => {
            let a = left.panes();
            let b = right.panes();
            assert(node.panes() == a + b);
            lemma_parts_distinct(a, b);
            if i < a.len() {
                assert(a[i] == id);
                assert(a.contains(id));
                lemma_with_leaf_panes(*left, i, new);
                assert(a.take(i) + new.panes() + a.skip(i + 1) + b =~= node.panes().take(i)
                    + new.panes() + node.panes().skip(i + 1));
            } else {
                assert(b[i - a.len()] == id);
                assert(!a.contains(id)) by {
                    if a.contains(id) {
                        let k = choose|k: int| 0 <= k < a.len() && a[k] == id;
                        assert((a + b)[k] == id);
                    }
                }
                lemma_with_leaf_panes(*right, i - a.len(), new);
                assert(a + (b.take(i - a.len()) + new.panes() + b.skip(i - a.len() + 1))
                    =~= node.panes().take(i) + new.panes() + node.panes().skip(i + 1));
            }
        },
    }
}

/// Taking a pane out of a tree of several leaves all the others in their order.
pub proof fn law_collapse_keeps_order(node: LayoutNode, i: int)
    requires
        node is Split,
        0 <= i < node.panes().len(),
        node.panes().no_duplicates(),
    ensures
        node.without(node.panes()[i]).panes() == node.panes().remove(i),
        node.wf() ==> node.without(node.panes()[i]).wf(),
    decreases node,
{
    let id = node.panes()[i];
    if let LayoutNode::Split { is_vertical, split_ratio, left, right } = node {
        let a = left.panes();
        let b = right.panes();
        assert(node.panes() == a + b);
        law_tiles_follow_panes(*left, Area { x: 0, y: 0, width: 0, height: 0 });
        law_tiles_follow_panes(*right, Area { x: 0, y: 0, width: 0, height: 0 });
        lemma_parts_distinct(a, b);
        assert forall|j: int, k: int| 0 <= j < a.len() && 0 <= k < b.len() implies a[j] != b[k] by {
            assert((a + b)[j] == a[j]);
            assert((a + b)[a.len() + k] == b[k]);
        }
        if *left == (LayoutNode::Leaf { pane: id }) {
            assert(a =~= seq![id]);
            assert(i == 0) by {
                assert((a + b)[0] == id);
            }
            assert((a + b).remove(0) =~= b);
        } else if *right == (LayoutNode::Leaf { pane: id }) {
            assert(b =~= seq![id]);
            assert(i == a.len()) by {
                assert((a + b)[a.len() as int] == id);
            }
            assert((a + b).remove(i) =~= a);
        } else if i < a.len() {
            assert(a[i] == id);
            assert(a.contains(id));
            if *left is Leaf {
                assert(a =~= seq![id]);
            }
            law_collapse_keeps_order(*left, i);
            assert(a.remove(i) + b =~= (a + b).remove(i));
        } else {
            let k = i - a.len();
            assert(b[k] == id);
            assert(!a.contains(id));
            if *right is Leaf {
                assert(b =~= seq![id]);
            }
            law_collapse_keeps_order(*right, k);
            assert(a + b.remove(k) =~= (a + b).remove(i));
        }
    }
}

/// The node that a split puts in place of pane `id`.
pub open spec fn split_node(id: usize, new_id: usize, is_vertical: bool) -> LayoutNode {
    LayoutNode::Split {
        is_vertical,
        split_ratio: Ratio { units: HALF },
        left: Box::new(LayoutNode::Leaf { pane: id }),
        right: Box::new(LayoutNode::Leaf { pane: new_id }),
    }
}

/// Closing the pane that a split made gives back the layout before the split.
pub proof fn law_collapse_undoes_split(
    node: LayoutNode,
    id: usize,
    new_id: usize,
    is_vertical: bool,
)
    requires
        node.panes().contains(id),
        !node.panes().contains(new_id),
    ensures
        node.with_leaf(id, split_node(id, new_id, is_vertical)).without(new_id) == node,
        node.with_leaf(id, split_node(id, new_id, is_vertical)).panes().contains(new_id),
    decreases node,
{
    broadcast use vstd::seq_lib::lemma_seq_concat_contains_all_elements;

    let pair = split_node(id, new_id, is_vertical);
    match node {
        LayoutNode::Leaf { pane } => {
            assert(pane == id);
            assert(seq![new_id][0] == new_id);
            assert(node.with_leaf(id, pair) == pair);
            assert(pair->left.panes() == seq![id]);
            assert(pair->right.panes() == seq![new_id]);
            assert(new_id != id) by {
                assert(node.panes()[0] == id);
            }
        },
        LayoutNode::Split { is_vertical: v, split_ratio, left, right } => {
            let grown = node.with_leaf(id, pair);
            if left.panes().contains(id) {
                law_collapse_undoes_split(*left, id, new_id, is_vertical);
                assert(right.panes() == seq![new_id] ==> right.panes()[0] == new_id);
                assert(*right != (LayoutNode::Leaf { pane: new_id }));
                assert(*grown->left != (LayoutNode::Leaf { pane: new_id })) by {
                    if *left is Leaf {
                        assert(grown->left == Box::new(pair));
                    }
                }
            } else {
                law_collapse_undoes_split(*right, id, new_id, is_vertical);
                assert(left.panes() == seq![new_id] ==> left.panes()[0] == new_id);
                assert(*left != (LayoutNode::Leaf { pane: new_id }));
                assert(*grown->right != (LayoutNode::Leaf { pane: new_id })) by {
                    if *right is Leaf {
                        assert(grown->right == Box::new(pair));
                    }
                }
            }
        },
    }
}

/// The path to a pane exists and ends at the pane's leaf, and every node on the way is a split.
pub proof fn law_path_leads_to_pane(node: LayoutNode, id: usize)
    requires
        node.panes().contains(id),
    ensures
        node.has_path(node.path_to(id)),
        node.at_path(node.path_to(id)) == (LayoutNode::Leaf { pane: id }),
        forall|d: int|
            0 <= d < node.path_to(id).len() ==> node.has_path(#[trigger] node.path_to(id).take(d))
                && node.at_path(node.path_to(id).take(d)) is Split,
    decreases node,
{
    broadcast use vstd::seq_lib::lemma_seq_concat_contains_all_elements;

    if let LayoutNode::Split { left, right, .. } = node {
        let path = node.path_to(id);
        let below = if left.panes().contains(id) {
            *left
        } else {
            *right
        };
        law_path_leads_to_pane(below, id);
        assert(path.drop_first() =~= below.path_to(id));
        assert forall|d: int| 0 <= d < path.len() implies node.has_path(#[trigger] path.take(d))
            && node.at_path(path.take(d)) is Split by {
            if d > 0 {
                assert(path.take(d).drop_first() =~= below.path_to(id).take(d - 1));
            }
        }
    }
}

/// Changing the ratio of a split leaves its panes as they are.
pub proof fn lemma_with_ratio(node: LayoutNode, path: Seq<bool>, ratio: Ratio)
    requires
        node.wf(),
        ratio.wf(),
        node.has_path(path),
        node.at_path(path) is Split,
    ensures
        node.with_ratio(path, ratio).wf(),
        node.with_ratio(path, ratio).panes() == node.panes(),
    decreases node,
{
    if path.len() > 0 {
        if let LayoutNode::Split { left, right, .. } = node {
            if path[0] {
                lemma_with_ratio(*right, path.drop_first(), ratio);
            } else {
                lemma_with_ratio(*left, path.drop_first(), ratio);
            }
        }
    }
}

/// Putting back the node that is there changes nothing.
pub proof fn lemma_same_node(node: LayoutNode, path: Seq<bool>)
    requires
        node.has_path(path),
    ensures
        node.with_path(path, node.at_path(path)) == node,
    decreases node,
{
    if path.len() > 0 {
        if let LayoutNode::Split { left, right, .. } = node {
            if path[0] {
                lemma_same_node(*right, path.drop_first());
            } else {
                lemma_same_node(*left, path.drop_first());
            }
        }
    }
}

/// What was put in place of a node is there, and can be replaced in its turn.
pub proof fn lemma_put_twice(
    node: LayoutNode,
    path: Seq<bool>,
    first: LayoutNode,
    second: LayoutNode,
)
    requires
        node.has_path(path),
    ensures
        node.with_path(path, first).has_path(path),
        node.with_path(path, first).at_path(path) == first,
        node.with_path(path, first).with_path(path, second) == node.with_path(path, second),
    decreases node,
{
    if path.len() > 0 {
        if let LayoutNode::Split { left, right, .. } = node {
            if path[0] {
                lemma_put_twice(*right, path.drop_first(), first, second);
            } else {
                lemma_put_twice(*left, path.drop_first(), first, second);
            }
        }
    }
}

/// The splits of a whole tree have ratios in range.
pub proof fn lemma_ratio_at(root: LayoutNode, path: Seq<bool>)
    requires
        root.wf(),
        root.has_path(path),
    ensures
        root.at_path(path).wf(),
    decreases root,
{
    if path.len() > 0 {
        if let LayoutNode::Split { left, right, .. } = root {
            if path[0] {
                lemma_ratio_at(*right, path.drop_first());
            } else {
                lemma_ratio_at(*left, path.drop_first());
            }
        }
    }
}

/// Changing a ratio and changing it back leaves the tree as it was.
pub proof fn lemma_ratio_back(root: LayoutNode, path: Seq<bool>, ratio: Ratio)
    requires
        root.has_path(path),
        root.at_path(path) is Split,
    ensures
        root.with_ratio(path, ratio).has_path(path),
        root.with_ratio(path, ratio).with_ratio(path, root.at_path(path)->split_ratio) == root,
{
    let node = root.at_path(path);
    lemma_put_twice(root, path, node.at_ratio(ratio), node);
    lemma_same_node(root, path);
    assert(node.at_ratio(ratio).at_ratio(node->split_ratio) == node);
}

/// A new node in place of a leaf divides the tile that the leaf had, and no other tile changes.
pub proof fn law_split_divides_one_tile(node: LayoutNode, i: int, new: LayoutNode, area: Area)
    requires
        0 <= i < node.panes().len(),
        node.panes().no_duplicates(),
    ensures
        node.tiles(area).len() == node.panes().len(),
        node.with_leaf(node.panes()[i], new).tiles(area) == node.tiles(area).take(i) + new.tiles(
            node.tiles(area)[i].area,
        ) + node.tiles(area).skip(i + 1),
    decreases node,
{
    let id = node.panes()[i];
    law_tiles_follow_panes(node, area);
    match node {
        LayoutNode::Leaf { pane } => {
            assert(node.tiles(area).take(0) + new.tiles(area) + node.tiles(area).skip(1)
                =~= new.tiles(area));
        },
        LayoutNode::Split { is_vertical, split_ratio, left, right } => {
            let first = layout::first_part(is_vertical, split_ratio, area);
            let second = layout::second_part(is_vertical, split_ratio, area);
            let a = left.panes();
            let b = right.panes();
            let s = left.tiles(first);
            let t = right.tiles(second);
            law_tiles_follow_panes(*left, first);
            law_tiles_follow_panes(*right, second);
            lemma_parts_distinct(a, b);
            if i < a.len() {
                assert(a[i] == id);
                assert(a.contains(id));
                law_split_divides_one_tile(*left, i, new, first);
                assert((s + t)[i] == s[i]);
                assert(s.take(i) + new.tiles(s[i].area) + s.skip(i + 1) + t =~= (s + t).take(i)
                    + new.tiles(s[i].area) + (s + t).skip(i + 1));
            } else {
                let k = i - a.len();
                assert(b[k] == id);
                assert(!a.contains(id)) by {
                    if a.contains(id) {
                        let j = choose|j: int| 0 <= j < a.len() && a[j] == id;
                        assert((a + b)[j] == id);
                    }
                }
                law_split_divides_one_tile(*right, k, new, second);
                assert((s + t)[i] == t[k]);
                assert(s + (t.take(k) + new.tiles(t[k].area) + t.skip(k + 1)) =~= (s + t).take(i)
                    + new.tiles(t[k].area) + (s + t).skip(i + 1));
            }
        },
    }
}

/// The parts of a list without duplicates have none.
proof fn lemma_parts_distinct(a: Seq<usize>, b: Seq<usize>)
    requires
        (a + b).no_duplicates(),
    ensures
        a.no_duplicates(),
        b.no_duplicates(),
{
    assert forall|j: int, k: int| 0 <= j < a.len() && 0 <= k < a.len() && j != k implies a[j]
        != a[k] by {
        assert((a + b)[j] == a[j]);
        assert((a + b)[k] == a[k]);
    }
    assert forall|j: int, k: int| 0 <= j < b.len() && 0 <= k < b.len() && j != k implies b[j]
        != b[k] by {
        assert((a + b)[a.len() + j] == b[j]);
        assert((a + b)[a.len() + k] == b[k]);
    }
}

/// A node in place of another one divides the area that the other had, and leaves everything
/// around it as it is: returns the tiles before that area, the area, and the tiles after it.
pub proof fn lemma_tiles_around(
    node: LayoutNode,
    path: Seq<bool>,
    new: LayoutNode,
    area: Area,
) -> (around: (Seq<Tile>, Area, Seq<Tile>))
    requires
        node.has_path(path),
    ensures
        node.tiles(area) == around.0 + node.at_path(path).tiles(around.1) + around.2,
        node.with_path(path, new).tiles(area) == around.0 + new.tiles(around.1) + around.2,
    decreases node,
{
    let none = Seq::<Tile>::empty();
    assert(none + node.tiles(area) + none =~= node.tiles(area));
    assert(none + new.tiles(area) + none =~= new.tiles(area));
    match node {
        LayoutNode::Leaf { .. } => (none, area, none),
        LayoutNode::Split { is_vertical, split_ratio, left, right } => {
            let s = left.tiles(layout::first_part(is_vertical, split_ratio, area));
            let t = right.tiles(layout::second_part(is_vertical, split_ratio, area));
            if path.len() == 0 {
                (none, area, none)
            } else if path[0] {
                let second = layout::second_part(is_vertical, split_ratio, area);
                let rest = path.drop_first();
                let (a, b, c) = lemma_tiles_around(*right, rest, new, second);
                let was = right.at_path(rest).tiles(b);
                assert(s + (a + was + c) =~= (s + a) + was + c);
                assert(s + (a + new.tiles(b) + c) =~= (s + a) + new.tiles(b) + c);
                (s + a, b, c)
            } else {
                let first = layout::first_part(is_vertical, split_ratio, area);
                let rest = path.drop_first();
                let (a, b, c) = lemma_tiles_around(*left, rest, new, first);
                let was = left.at_path(rest).tiles(b);
                assert((a + was + c) + t =~= a + was + (c + t));
                assert((a + new.tiles(b) + c) + t =~= a + new.tiles(b) + (c + t));
                (a, b, c + t)
            }
        },
    }
}

/// A node in place of another one leaves all panes outside it where they are: pane `i`, which is
/// not in the node that was there, has its tile still. Returns its new index.
pub proof fn law_other_tiles_stay(
    node: LayoutNode,
    path: Seq<bool>,
    new: LayoutNode,
    area: Area,
    i: int,
) -> (k: int)
    requires
        node.has_path(path),
        0 <= i < node.panes().len(),
        !node.at_path(path).panes().contains(node.panes()[i]),
    ensures
        0 <= k < node.with_path(path, new).panes().len(),
        node.with_path(path, new).tiles(area).len() == node.with_path(path, new).panes().len(),
        node.with_path(path, new).tiles(area)[k] == node.tiles(area)[i],
        k == i || k == i + new.panes().len() - node.at_path(path).panes().len(),
{
    let was = node.at_path(path);
    let (a, b, c) = lemma_tiles_around(node, path, new, area);
    law_tiles_follow_panes(node, area);
    law_tiles_follow_panes(node.with_path(path, new), area);
    law_tiles_follow_panes(was, b);
    law_tiles_follow_panes(new, b);
    let n = was.panes().len();
    assert(node.tiles(area)[i].pane == node.panes()[i]);
    if i < a.len() {
        i
    } else {
        if i < a.len() + n {
            let j = i - a.len();
            assert(node.tiles(area)[i] == was.tiles(b)[j]);
            assert(was.panes()[j] == node.panes()[i]);
        }
        i + new.panes().len() - n
    }
}

/// The panes below a node are panes of the tree.
proof fn lemma_panes_below(node: LayoutNode, path: Seq<bool>, id: usize)
    requires
        node.has_path(path),
        node.at_path(path).panes().contains(id),
    ensures
        node.panes().contains(id),
    decreases node,
{
    broadcast use vstd::seq_lib::lemma_seq_concat_contains_all_elements;

    if path.len() > 0 {
        if let LayoutNode::Split { left, right, .. } = node {
            if path[0] {
                lemma_panes_below(*right, path.drop_first(), id);
            } else {
                lemma_panes_below(*left, path.drop_first(), id);
            }
        }
    }
}

/// There is one way to a pane only.
pub proof fn lemma_one_way(node: LayoutNode, path: Seq<bool>, id: usize)
    requires
        node.panes().no_duplicates(),
        node.has_path(path),
        node.at_path(path) == (LayoutNode::Leaf { pane: id }),
    ensures
        node.panes().contains(id),
        path == node.path_to(id),
    decreases node,
{
    broadcast use vstd::seq_lib::lemma_seq_concat_contains_all_elements;

    assert(seq![id][0] == id);
    lemma_panes_below(node, path, id);
    match node {
        LayoutNode::Leaf { .. } => {
            assert(path =~= node.path_to(id));
        },
        LayoutNode::Split { left, right, .. } => {
            let a = left.panes();
            let b = right.panes();
            lemma_parts_distinct(a, b);
            let rest = path.drop_first();
            assert(path.len() > 0);
            if path[0] {
                lemma_panes_below(*right, rest, id);
                lemma_one_way(*right, rest, id);
                if a.contains(id) {
                    let j = choose|j: int| 0 <= j < a.len() && a[j] == id;
                    let k = choose|k: int| 0 <= k < b.len() && b[k] == id;
                    assert((a + b)[j] == (a + b)[a.len() + k]);
                }
                assert(path =~= seq![true] + rest);
            } else {
                lemma_panes_below(*left, rest, id);
                lemma_one_way(*left, rest, id);
                assert(path =~= seq![false] + rest);
            }
        },
    }
}

/// Closing a pane gives its place to the other part of the split it was in, and to no other: in
/// the tree that part stands where the split stood, and everything else is as it was.
pub proof fn law_the_other_part_takes_the_place(
    node: LayoutNode,
    path: Seq<bool>,
    id: usize,
    other: LayoutNode,
)
    requires
        node.panes().no_duplicates(),
        node.has_path(path),
        node.at_path(path) matches LayoutNode::Split { left, right, .. } && {
            ||| *left == (LayoutNode::Leaf { pane: id }) && *right == other
            ||| *right == (LayoutNode::Leaf { pane: id }) && *left == other
        },
    ensures
        node.without(id) == node.with_path(path, other),
    decreases node,
{
    broadcast use vstd::seq_lib::lemma_seq_concat_contains_all_elements;

    assert(seq![id][0] == id);
    let leaf = LayoutNode::Leaf { pane: id };
    let split = node.at_path(path);
    assert(leaf.panes().contains(id));
    assert(split.panes() == split->left.panes() + split->right.panes());
    assert(split.panes().contains(id));
    if let LayoutNode::Split { left, right, .. } = node {
        let a = left.panes();
        let b = right.panes();
        lemma_parts_distinct(a, b);
        assert forall|j: int, k: int| 0 <= j < a.len() && 0 <= k < b.len() implies a[j] != b[k] by {
            assert((a + b)[j] == a[j]);
            assert((a + b)[a.len() + k] == b[k]);
        }
        assert(!(a.contains(id) && b.contains(id))) by {
            if a.contains(id) && b.contains(id) {
                let j = choose|j: int| 0 <= j < a.len() && a[j] == id;
                let k = choose|k: int| 0 <= k < b.len() && b[k] == id;
                assert(a[j] == b[k]);
            }
        }
        if path.len() == 0 {
            if *right == (LayoutNode::Leaf { pane: id }) && *left == (LayoutNode::Leaf {
                pane: id,
            }) {
                assert(a.contains(id) && b.contains(id));
            }
        } else {
            let rest = path.drop_first();
            if path[0] {
                assert(right.at_path(rest).panes().contains(id));
                lemma_panes_below(*right, rest, id);
                assert(*left != (LayoutNode::Leaf { pane: id }));
                law_the_other_part_takes_the_place(*right, rest, id, other);
            } else {
                assert(left.at_path(rest).panes().contains(id));
                lemma_panes_below(*left, rest, id);
                assert(*right != (LayoutNode::Leaf { pane: id }));
                law_the_other_part_takes_the_place(*left, rest, id, other);
            }
        }
    }
}

/// A new node takes the place of the leaf of a pane: it stands where the one path to that pane
/// leads, and everything else is as it was.
pub proof fn law_a_leaf_is_replaced_in_place(
    node: LayoutNode,
    path: Seq<bool>,
    id: usize,
    new: LayoutNode,
)
    requires
        node.panes().no_duplicates(),
        node.has_path(path),
        node.at_path(path) == (LayoutNode::Leaf { pane: id }),
    ensures
        node.with_leaf(id, new) == node.with_path(path, new),
{
    lemma_one_way(node, path, id);
    lemma_leaf_at_path(node, id, new);
}

/// The same with the path that is found.
proof fn lemma_leaf_at_path(node: LayoutNode, id: usize, new: LayoutNode)
    requires
        node.panes().contains(id),
    ensures
        node.with_leaf(id, new) == node.with_path(node.path_to(id), new),
    decreases node,
{
    broadcast use vstd::seq_lib::lemma_seq_concat_contains_all_elements;

    if let LayoutNode::Split { left, right, .. } = node {
        let below = if left.panes().contains(id) {
            *left
        } else {
            *right
        };
        lemma_leaf_at_path(below, id, new);
        assert(node.path_to(id).drop_first() =~= below.path_to(id));
    }
}

} // verus!
