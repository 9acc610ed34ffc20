use mmux::geometry::Rect;
use mmux::layout::LayoutNode;
use mmux::ratio::Ratio;

fn split(is_vertical: bool, left: LayoutNode, right: LayoutNode) -> LayoutNode {
    LayoutNode::Split {
        is_vertical,
        split_ratio: Ratio::half(),
        left: Box::new(left),
        right: Box::new(right),
    }
}

fn leaf(pane: usize) -> LayoutNode {
    LayoutNode::leaf(pane)
}

/// Pane 0 on the left; 1 above 2 on the right.
fn three() -> LayoutNode {
    split(true, leaf(0), split(false, leaf(1), leaf(2)))
}

fn rect(x: usize, y: usize, width: usize, height: usize) -> Rect {
    Rect { x, y, width, height }
}

fn places(node: &LayoutNode, width: usize, height: usize) -> Vec<(usize, Rect)> {
    let mut out = Vec::new();
    LayoutNode::apply_layout(node, 0, 0, width, height, &mut out);
    out
}

fn shape(node: &LayoutNode) -> String {
    format!("{:?}", node)
}

#[test]
fn leaves_are_leaves() {
    assert!(leaf(4).is_leaf());
    assert!(!three().is_leaf());
    assert!(leaf(4).is_leaf_of(4));
    assert!(!leaf(4).is_leaf_of(5));
    assert!(!three().is_leaf_of(0));
}

#[test]
fn apply_layout_divides_the_area() {
    assert_eq!(
        places(&three(), 81, 25),
        vec![
            (0, rect(0, 0, 40, 25)),
            (1, rect(40, 0, 41, 12)),
            (2, rect(40, 12, 41, 13)),
        ]
    );
}

#[test]
fn apply_layout_appends_and_shifts() {
    let mut out = vec![(9, rect(1, 2, 3, 4))];
    LayoutNode::apply_layout(&leaf(7), 5, 6, 20, 10, &mut out);
    assert_eq!(out, vec![(9, rect(1, 2, 3, 4)), (7, rect(5, 6, 20, 10))]);
}

#[test]
fn apply_layout_leaves_room_for_borders() {
    assert_eq!(
        places(&three(), 1, 1),
        vec![(0, rect(0, 0, 2, 2)), (1, rect(0, 0, 2, 2)), (2, rect(0, 0, 2, 2))]
    );
}

#[test]
fn apply_layout_follows_the_ratio() {
    let mut node = three();
    if let LayoutNode::Split { split_ratio, .. } = &mut node {
        *split_ratio = split_ratio.step(true).step(true);
    }
    assert_eq!(places(&node, 100, 40)[0], (0, rect(0, 0, 60, 40)));
    assert_eq!(places(&node, 100, 40)[1], (1, rect(60, 0, 40, 20)));
}

#[test]
fn every_cell_is_in_one_tile() {
    let node = split(false, three(), split(true, leaf(3), leaf(4)));
    let found = places(&node, 63, 41);
    for x in 0..63 {
        for y in 0..41 {
            let n = found
                .iter()
                .filter(|(_, r)| {
                    r.x <= x && x < r.x + r.width && r.y <= y && y < r.y + r.height
                })
                .count();
            assert_eq!(n, 1);
        }
    }
}

#[test]
fn check_min_sizes_looks_at_every_pane() {
    assert!(LayoutNode::check_min_sizes(&three(), 40, 20, 20, 10));
    assert!(!LayoutNode::check_min_sizes(&three(), 39, 20, 20, 10));
    assert!(!LayoutNode::check_min_sizes(&three(), 40, 19, 20, 10));
    assert!(LayoutNode::check_min_sizes(&leaf(0), 19, 10, 19, 10));
    assert!(!LayoutNode::check_min_sizes(&leaf(0), 18, 10, 19, 10));
    assert!(!LayoutNode::check_min_sizes(&leaf(0), 19, 9, 19, 10));
}

#[test]
fn find_layout_node_mut_finds_leaves() {
    let mut node = three();
    match LayoutNode::find_layout_node_mut(&mut node, 2) {
        Some(found) => *found = leaf(8),
        None => panic!("pane 2 is in the tree"),
    }
    assert_eq!(shape(&node), shape(&split(true, leaf(0), split(false, leaf(1), leaf(8)))));
    assert!(LayoutNode::find_layout_node_mut(&mut node, 2).is_none());
}

#[test]
fn find_path_gives_the_turns() {
    let node = three();
    let mut path = Vec::new();
    assert!(LayoutNode::find_path(&node, 2, &mut path));
    assert_eq!(path, vec![true, true]);
    let mut path = Vec::new();
    assert!(LayoutNode::find_path(&node, 0, &mut path));
    assert_eq!(path, vec![false]);
    let mut path = vec![true];
    assert!(!LayoutNode::find_path(&node, 9, &mut path));
    assert_eq!(path, vec![true]);
    let mut path = Vec::new();
    assert!(LayoutNode::find_path(&leaf(3), 3, &mut path));
    assert!(path.is_empty());
}

#[test]
fn node_at_path_mut_follows_the_turns() {
    let mut node = three();
    assert!(LayoutNode::node_at_path_mut(&mut node, &[true, false]).is_leaf_of(1));
    assert!(!LayoutNode::node_at_path_mut(&mut node, &[]).is_leaf());
    *LayoutNode::node_at_path_mut(&mut node, &[true]) = leaf(5);
    assert_eq!(shape(&node), shape(&split(true, leaf(0), leaf(5))));
}

#[test]
fn collapse_layout_gives_the_place_to_the_sibling() {
    let mut node = three();
    assert!(LayoutNode::collapse_layout(&mut node, 1));
    assert_eq!(shape(&node), shape(&split(true, leaf(0), leaf(2))));
    let mut node = three();
    assert!(LayoutNode::collapse_layout(&mut node, 0));
    assert_eq!(shape(&node), shape(&split(false, leaf(1), leaf(2))));
    let mut node = three();
    assert!(LayoutNode::collapse_layout(&mut node, 2));
    assert_eq!(shape(&node), shape(&split(true, leaf(0), leaf(1))));
}

#[test]
fn collapse_layout_keeps_a_tree_without_the_pane() {
    let mut node = three();
    assert!(!LayoutNode::collapse_layout(&mut node, 9));
    assert_eq!(shape(&node), shape(&three()));
    let mut node = leaf(1);
    assert!(LayoutNode::collapse_layout(&mut node, 1));
    assert!(node.is_leaf_of(1));
}

#[test]
fn collapse_layout_undoes_a_split() {
    let mut node = three();
    match LayoutNode::find_layout_node_mut(&mut node, 1) {
        Some(found) => *found = split(true, leaf(1), leaf(3)),
        None => panic!("pane 1 is in the tree"),
    }
    assert!(LayoutNode::collapse_layout(&mut node, 3));
    assert_eq!(shape(&node), shape(&three()));
}
