//! The tree of splits that divides the screen among the panes.
use vstd::prelude::*;

use crate::geometry::{Area, Rect};
use crate::ratio;
use crate::ratio::Ratio;

verus! {

/// A part of the screen: one pane, or two parts side by side (a vertical boundary between them)
/// or one above the other.
#[derive(Debug)]
pub enum LayoutNode {
    Leaf { pane: usize },
    Split { is_vertical: bool, split_ratio: Ratio, left: Box<LayoutNode>, right: Box<LayoutNode> },
}

/// A pane and the part of the screen that it is given.
pub struct Tile {
    pub pane: usize,
    pub area: Area,
}

/// The first (left or upper) part of a split area.
pub open spec fn first_part(is_vertical: bool, ratio: Ratio, area: Area) -> Area {
    if is_vertical {
        Area { width: ratio::scaled(ratio.units as nat, area.width as nat) as int, ..area }
    } else {
        Area { height: ratio::scaled(ratio.units as nat, area.height as nat) as int, ..area }
    }
}

/// The second (right or lower) part of a split area: what the first leaves.
pub open spec fn second_part(is_vertical: bool, ratio: Ratio, area: Area) -> Area {
    let first = first_part(is_vertical, ratio, area);
    if is_vertical {
        Area { x: area.x + first.width, width: area.width - first.width, ..area }
    } else {
        Area { y: area.y + first.height, height: area.height - first.height, ..area }
    }
}

impl LayoutNode {
    /// Every split is at a ratio between 0.01 and 0.99.
    pub open spec fn wf(self) -> bool
        decreases self,
    {
        match self {
            LayoutNode::Leaf { .. } => true,
            LayoutNode::Split { split_ratio, left, right, .. } => {
                split_ratio.wf() && left.wf() && right.wf()
            },
        }
    }

    /// The panes of the tree, from left to right.
    pub open spec fn panes(self) -> Seq<usize>
        decreases self,
    {
        match self {
            LayoutNode::Leaf { pane } => seq![pane],
            LayoutNode::Split { left, right, .. } => left.panes() + right.panes(),
        }
    }

    /// The part of `area` that each pane is given, in the order of `panes`.
    pub open spec fn tiles(self, area: Area) -> Seq<Tile>
        decreases self,
    {
        match self {
            LayoutNode::Leaf { pane } => seq![Tile { pane, area }],
            LayoutNode::Split { is_vertical, split_ratio, left, right } => left.tiles(
                first_part(is_vertical, split_ratio, area),
            ) + right.tiles(second_part(is_vertical, split_ratio, area)),
        }
    }

    /// The tree with `new` in place of the first leaf that is pane `id`.
    pub open spec fn with_leaf(self, id: usize, new: LayoutNode) -> LayoutNode
        decreases self,
    {
        match self {
            LayoutNode::Leaf { pane } => if pane == id {
                new
            } else {
                self
            },
            LayoutNode::Split { is_vertical, split_ratio, left, right } => if left.panes().contains(
                id,
            ) {
                LayoutNode::Split {
                    is_vertical,
                    split_ratio,
                    left: Box::new(left.with_leaf(id, new)),
                    right,
                }
            } else {
                LayoutNode::Split {
                    is_vertical,
                    split_ratio,
                    left,
                    right: Box::new(right.with_leaf(id, new)),
                }
            },
        }
    }

    /// The leaf of pane `pane_id`.
    pub fn find_layout_node_mut<'a>(node: &'a mut LayoutNode, pane_id: usize) -> (found: Option<
        &'a mut LayoutNode,
    >)
        ensures
            match found {
                Some(leaf) => {
                    &&& old(node).panes().contains(pane_id)
                    &&& *leaf == (LayoutNode::Leaf { pane: pane_id })
                    &&& *final(node) == old(node).with_leaf(pane_id, *final(leaf))
                },
                None => !old(node).panes().contains(pane_id) && *final(node) == *old(node),
            },
        decreases *old(node),
    {
        broadcast use vstd::seq_lib::lemma_seq_concat_contains_all_elements;

        assert(seq![pane_id][0] == pane_id);
        match node {
            LayoutNode::Leaf { pane } => {
                if *pane == pane_id {
                    Some(node)
                } else {
                    None
                }
            },
            LayoutNode::Split { left, right, .. } => {
                if let Some(found) = Self::find_layout_node_mut(&mut **left, pane_id) {
                    return Some(found);
                }
                if let Some(found) = Self::find_layout_node_mut(&mut **right, pane_id) {
                    return Some(found);
                }
                None
            },
        }
    }

    /// `path` leads from this node to a node below it; `true` is a step to the second part.
    pub open spec fn has_path(self, path: Seq<bool>) -> bool
        decreases self,
    {
        path.len() == 0 || match self {
            LayoutNode::Leaf { .. } => false,
            LayoutNode::Split { left, right, .. } => if path[0] {
                right.has_path(path.drop_first())
            } else {
                left.has_path(path.drop_first())
            },
        }
    }

    /// The node to which `path` leads.
    pub open spec fn at_path(self, path: Seq<bool>) -> LayoutNode
        decreases self,
    {
        if path.len() == 0 {
            self
        } else {
            match self {
                LayoutNode::Leaf { .. } => self,
                LayoutNode::Split { left, right, .. } => if path[0] {
                    right.at_path(path.drop_first())
                } else {
                    left.at_path(path.drop_first())
                },
            }
        }
    }

    /// The tree with `new` in place of the node to which `path` leads.
    pub open spec fn with_path(self, path: Seq<bool>, new: LayoutNode) -> LayoutNode
        decreases self,
    {
        if path.len() == 0 {
            new
        } else {
            match self {
                LayoutNode::Leaf { .. } => self,
                LayoutNode::Split { is_vertical, split_ratio, left, right } => if path[0] {
                    LayoutNode::Split {
                        is_vertical,
                        split_ratio,
                        left,
                        right: Box::new(right.with_path(path.drop_first(), new)),
                    }
                } else {
                    LayoutNode::Split {
                        is_vertical,
                        split_ratio,
                        left: Box::new(left.with_path(path.drop_first(), new)),
                        right,
                    }
                },
            }
        }
    }

    /// The tree with the split to which `path` leads at the ratio `ratio`.
    pub open spec fn with_ratio(self, path: Seq<bool>, ratio: Ratio) -> LayoutNode {
        self.with_path(path, self.at_path(path).at_ratio(ratio))
    }

    /// The split at the ratio `ratio`.
    pub open spec fn at_ratio(self, ratio: Ratio) -> LayoutNode {
        match self {
            LayoutNode::Leaf { .. } => self,
            LayoutNode::Split { is_vertical, left, right, .. } => LayoutNode::Split {
                is_vertical,
                split_ratio: ratio,
                left,
                right,
            },
        }
    }

    /// The node to which `path` leads.
    pub fn node_at_path_mut<'a>(
        node: &'a mut LayoutNode,
        path: &[bool],
    ) -> (target: &'a mut LayoutNode)
        requires
            old(node).has_path(path@),
        ensures
            *target == old(node).at_path(path@),
            *final(node) == old(node).with_path(path@, *final(target)),
        decreases path@.len(),
    {
        if path.len() == 0 {
            return node;
        }
        match node {
            LayoutNode::Leaf { .. } => node,
            LayoutNode::Split { left, right, .. } => {
                let rest = &path[1..path.len()];
                assert(rest@ =~= path@.drop_first());
                if path[0] {
                    Self::node_at_path_mut(&mut **right, rest)
                } else {
                    Self::node_at_path_mut(&mut **left, rest)
                }
            },
        }
    }

    /// The steps from this node to the first leaf that is pane `id`.
    pub open spec fn path_to(self, id: usize) -> Seq<bool>
        decreases self,
    {
        match self {
            LayoutNode::Leaf { .. } => Seq::empty(),
            LayoutNode::Split { left, right, .. } => if left.panes().contains(id) {
                seq![false] + left.path_to(id)
            } else {
                seq![true] + right.path_to(id)
            },
        }
    }

    /// Appends to `path` the steps to pane `pane_id`, if the tree has it.
    pub fn find_path(node: &LayoutNode, pane_id: usize, path: &mut Vec<bool>) -> (found: bool)
        ensures
            found == node.panes().contains(pane_id),
            found ==> final(path)@ == old(path)@ + node.path_to(pane_id),
            !found ==> final(path)@ == old(path)@,
        decreases node,
    {
        broadcast use vstd::seq_lib::lemma_seq_concat_contains_all_elements;

        assert(seq![pane_id][0] == pane_id);
        match node {
            LayoutNode::Leaf { pane } => {
                assert(path@ + Seq::<bool>::empty() =~= path@);
                *pane == pane_id
            },
            LayoutNode::Split { left, right, .. } => {
                path.push(false);
                if Self::find_path(&**left, pane_id, path) {
                    assert(path@ =~= old(path)@ + (seq![false] + left.path_to(pane_id)));
                    return true;
                }
                path.pop();
                assert(path@ =~= old(path)@);
                path.push(true);
                if Self::find_path(&**right, pane_id, path) {
                    assert(path@ =~= old(path)@ + (seq![true] + right.path_to(pane_id)));
                    return true;
                }
                path.pop();
                assert(path@ =~= old(path)@);
                false
            },
        }
    }

    /// The tree without pane `id`: the other part takes the place of the split it was in.
    pub open spec fn without(self, id: usize) -> LayoutNode
        decreases self,
    {
        match self {
            LayoutNode::Leaf { .. } => self,
            LayoutNode::Split { is_vertical, split_ratio, left, right } => {
                if *left == (LayoutNode::Leaf { pane: id }) {
                    *right
                } else if *right == (LayoutNode::Leaf { pane: id }) {
                    *left
                } else if left.panes().contains(id) {
                    LayoutNode::Split {
                        is_vertical,
                        split_ratio,
                        left: Box::new(left.without(id)),
                        right,
                    }
                } else {
                    LayoutNode::Split {
                        is_vertical,
                        split_ratio,
                        left,
                        right: Box::new(right.without(id)),
                    }
                }
            },
        }
    }

    /// The node is the leaf of pane `id`.
    pub fn is_leaf_of(&self, id: usize) -> (result: bool)
        ensures
            result == (*self == (LayoutNode::Leaf { pane: id })),
    {
        match self {
            LayoutNode::Leaf { pane } => *pane == id,
            LayoutNode::Split { .. } => false,
        }
    }

    /// Takes pane `target` out of the tree and says whether the tree had it.
    pub fn collapse_layout(node: &mut LayoutNode, target: usize) -> (found: bool)
        ensures
            found == old(node).panes().contains(target),
            found ==> *final(node) == old(node).without(target),
            !found ==> *final(node) == *old(node),
        decreases *old(node),
    {
        broadcast use vstd::seq_lib::lemma_seq_concat_contains_all_elements;

        assert(seq![target][0] == target);
        let mut whole = LayoutNode::Leaf { pane: target };
        std::mem::swap(node, &mut whole);
        match whole {
            LayoutNode::Leaf { pane } => {
                *node = LayoutNode::Leaf { pane };
                pane == target
            },
            LayoutNode::Split { is_vertical, split_ratio, mut left, mut right } => {
                if left.is_leaf_of(target) {
                    assert(left.panes()[0] == target);
                    *node = *right;
                    return true;
                }
                if right.is_leaf_of(target) {
                    assert(right.panes()[0] == target);
                    *node = *left;
                    return true;
                }
                let found = Self::collapse_layout(&mut *left, target)
                    || Self::collapse_layout(&mut *right, target);
                *node = LayoutNode::Split { is_vertical, split_ratio, left, right };
                found
            },
        }
    }

    /// The node of a single pane.
    pub fn leaf(pane: usize) -> (node: LayoutNode)
        ensures
            node == (LayoutNode::Leaf { pane }),
            node.wf(),
    {
        LayoutNode::Leaf { pane }
    }

    /// The node is a single pane.
    pub fn is_leaf(&self) -> (result: bool)
        ensures
            result == (self is Leaf),
    {
        matches!(self, LayoutNode::Leaf { .. })
    }

    /// Appends to `out` each pane with the place it is given in an area.
    pub fn apply_layout(
        node: &LayoutNode,
        x: usize,
        y: usize,
        width: usize,
        height: usize,
        out: &mut Vec<(usize, Rect)>,
    )
        requires
            node.wf(),
            x + width <= usize::MAX,
            y + height <= usize::MAX,
        ensures
            places(final(out)@) == places(old(out)@) + bordered(
                node.tiles(
                    Area {
                        x: x as int,
                        y: y as int,
                        width: width as int,
                        height: height as int,
                    },
                ),
            ),
        decreases node,
    {
        match node {
            LayoutNode::Leaf { pane } => {
                let rect = Rect {
                    x,
                    y,
                    width: if width < 2 {
                        2
                    } else {
                        width
                    },
                    height: if height < 2 {
                        2
                    } else {
                        height
                    },
                };
                out.push((*pane, rect));
                assert(places(out@) =~= places(old(out)@) + bordered(
                    node.tiles(
                        Area {
                            x: x as int,
                            y: y as int,
                            width: width as int,
                            height: height as int,
                        },
                    ),
                ));
            },
            LayoutNode::Split { is_vertical, split_ratio, left, right } => {
                let ghost area = Area {
                    x: x as int,
                    y: y as int,
                    width: width as int,
                    height: height as int,
                };
                if *is_vertical {
                    let lw: usize = split_ratio.scale(width);
                    Self::apply_layout(&**left, x, y, lw, height, out);
                    Self::apply_layout(&**right, x + lw, y, width - lw, height, out);
                } else {
                    let th: usize = split_ratio.scale(height);
                    Self::apply_layout(&**left, x, y, width, th, out);
                    Self::apply_layout(&**right, x, y + th, width, height - th, out);
                }
                proof {
                    let first = left.tiles(first_part(*is_vertical, *split_ratio, area));
                    let second = right.tiles(second_part(*is_vertical, *split_ratio, area));
                    assert(bordered(first + second) =~= bordered(first) + bordered(second));
                    assert(places(out@) =~= places(old(out)@) + bordered(first + second));
                }
            },
        }
    }

    /// Every pane of the tree would get at least `min_width` columns and `min_height` rows of an
    /// area of `width` columns and `height` rows.
    pub open spec fn roomy(self, width: int, height: int, min_width: int, min_height: int) -> bool {
        let tiles = self.tiles(Area { x: 0, y: 0, width, height });
        forall|i: int|
            0 <= i < tiles.len() ==> (#[trigger] tiles[i]).area.width >= min_width
                && tiles[i].area.height >= min_height
    }

    /// Whether every pane of the tree would be large enough in an area.
    pub fn check_min_sizes(
        node: &LayoutNode,
        width: usize,
        height: usize,
        min_width: usize,
        min_height: usize,
    ) -> (ok: bool)
        requires
            node.wf(),
        ensures
            ok == node.roomy(
                width as int,
                height as int,
                min_width as int,
                min_height as int,
            ),
        decreases node,
    {
        match node {
            LayoutNode::Leaf { pane } => {
                let ok = width >= min_width && height >= min_height;
                proof {
                    let area = Area { x: 0, y: 0, width: width as int, height: height as int };
                    assert(node.tiles(area)[0].area == area);
                }
                ok
            },
            LayoutNode::Split { is_vertical, split_ratio, left, right } => {
                proof {
                    lemma_roomy_split(
                        *node,
                        width as int,
                        height as int,
                        min_width as int,
                        min_height as int,
                    );
                }
                if *is_vertical {
                    let lw: usize = split_ratio.scale(width);
                    Self::check_min_sizes(&**left, lw, height, min_width, min_height)
                        && Self::check_min_sizes(
                        &**right,
                        width - lw,
                        height,
                        min_width,
                        min_height,
                    )
                } else {
                    let th: usize = split_ratio.scale(height);
                    Self::check_min_sizes(&**left, width, th, min_width, min_height)
                        && Self::check_min_sizes(
                        &**right,
                        width,
                        height - th,
                        min_width,
                        min_height,
                    )
                }
            },
        }
    }
}

/// What `apply_layout` has recorded, over the integers.
pub open spec fn places(entries: Seq<(usize, Rect)>) -> Seq<Tile> {
    entries.map_values(|entry: (usize, Rect)| Tile { pane: entry.0, area: entry.1@ })
}

/// The tiles, each with room for its border.
pub open spec fn bordered(tiles: Seq<Tile>) -> Seq<Tile> {
    tiles.map_values(|tile: Tile| Tile { pane: tile.pane, area: tile.area.with_border() })
}

/// The size of a tile does not depend on where the divided area lies.
pub proof fn lemma_tiles_move(node: LayoutNode, a: Area, b: Area)
    requires
        a.width == b.width,
        a.height == b.height,
    ensures
        node.tiles(a).len() == node.tiles(b).len(),
        forall|i: int|
            0 <= i < node.tiles(a).len() ==> (#[trigger] node.tiles(a)[i]).area.width
                == node.tiles(b)[i].area.width && node.tiles(a)[i].area.height == node.tiles(
                b,
            )[i].area.height,
    decreases node,
{
    if let LayoutNode::Split { is_vertical, split_ratio, left, right } = node {
        lemma_tiles_move(
            *left,
            first_part(is_vertical, split_ratio, a),
            first_part(is_vertical, split_ratio, b),
        );
        lemma_tiles_move(
            *right,
            second_part(is_vertical, split_ratio, a),
            second_part(is_vertical, split_ratio, b),
        );
    }
}

/// A split is roomy if both its parts are.
proof fn lemma_roomy_split(
    node: LayoutNode,
    width: int,
    height: int,
    min_width: int,
    min_height: int,
)
    requires
        node is Split,
    ensures
        ({
            let area = Area { x: 0, y: 0, width, height };
            let a = first_part(node->is_vertical, node->split_ratio, area);
            let b = second_part(node->is_vertical, node->split_ratio, area);
            node.roomy(width, height, min_width, min_height) == (node->left.roomy(
                a.width,
                a.height,
                min_width,
                min_height,
            ) && node->right.roomy(b.width, b.height, min_width, min_height))
        }),
{
    let area = Area { x: 0, y: 0, width, height };
    let a = first_part(node->is_vertical, node->split_ratio, area);
    let b = second_part(node->is_vertical, node->split_ratio, area);
    let b0 = Area { x: 0, y: 0, ..b };
    lemma_tiles_move(*node->right, b, b0);
    let first = node->left.tiles(a);
    let second = node->right.tiles(b);
    let all = node.tiles(area);
    assert(all == first + second);
    assert forall|i: int| 0 <= i < first.len() implies all[i] == #[trigger] first[i] by {}
    assert forall|i: int| 0 <= i < second.len() implies all[first.len() + i] == #[trigger] second[i] by {}
    if node.roomy(width, height, min_width, min_height) {
        assert forall|i: int| 0 <= i < first.len() implies (#[trigger] first[i]).area.width
            >= min_width && first[i].area.height >= min_height by {
            assert(all[i] == first[i]);
        }
        assert forall|i: int| 0 <= i < node->right.tiles(b0).len() implies (
        #[trigger] node->right.tiles(b0)[i]).area.width >= min_width && node->right.tiles(
            b0,
        )[i].area.height >= min_height by {
            assert(second[i].area.width == node->right.tiles(b0)[i].area.width);
            assert(all[first.len() + i] == second[i]);
        }
    }
    if node->left.roomy(a.width, a.height, min_width, min_height) && node->right.roomy(
        b.width,
        b.height,
        min_width,
        min_height,
    ) {
        assert forall|i: int| 0 <= i < all.len() implies (#[trigger] all[i]).area.width >= min_width
            && all[i].area.height >= min_height by {
            if i < first.len() {
                assert(all[i] == first[i]);
            } else {
                let j = i - first.len();
                assert(all[i] == second[j]);
                assert(second[j].area.width == node->right.tiles(b0)[j].area.width);
            }
        }
    }
}

} // verus!
