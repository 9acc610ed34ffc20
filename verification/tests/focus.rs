use mmux::focus::{find_closest, find_swap_pane, navigate};
use mmux::geometry::Direction;
use mmux::pane::Pane;

fn pane(id: usize, x: usize, y: usize, width: usize, height: usize) -> Pane {
    Pane::new(id, x, y, width, height, id, 0)
}

/// Pane 0 on the left; 1 above 2 on the right, 2 the higher.
fn three() -> Vec<Pane> {
    vec![pane(0, 0, 0, 40, 24), pane(1, 40, 0, 40, 8), pane(2, 40, 8, 40, 16)]
}

#[test]
fn find_closest_takes_the_first_of_the_least() {
    assert_eq!(find_closest(&vec![None, Some(3), Some(-1), Some(-1), None]), Some(2));
    assert_eq!(find_closest(&vec![None, None]), None);
    assert_eq!(find_closest(&Vec::new()), None);
}

#[test]
fn navigate_moves_to_neighbours() {
    let panes = three();
    assert_eq!(navigate(&panes, 1, Direction::Left), 0);
    assert_eq!(navigate(&panes, 1, Direction::Down), 2);
    assert_eq!(navigate(&panes, 2, Direction::Up), 1);
    assert_eq!(navigate(&panes, 0, Direction::Right), 1);
}

#[test]
fn navigate_stays_at_the_edge() {
    let panes = three();
    assert_eq!(navigate(&panes, 0, Direction::Left), 0);
    assert_eq!(navigate(&panes, 0, Direction::Up), 0);
    assert_eq!(navigate(&panes, 2, Direction::Right), 2);
    assert_eq!(navigate(&panes, 2, Direction::Down), 2);
}

#[test]
fn navigate_takes_the_nearest() {
    let panes = vec![pane(0, 0, 0, 10, 10), pane(1, 30, 0, 10, 10), pane(2, 10, 0, 20, 10)];
    assert_eq!(navigate(&panes, 0, Direction::Right), 2);
    assert_eq!(navigate(&panes, 1, Direction::Left), 2);
}

#[test]
fn navigate_needs_a_common_row_or_column() {
    let panes = vec![pane(0, 0, 0, 10, 10), pane(1, 10, 10, 10, 10)];
    assert_eq!(navigate(&panes, 0, Direction::Right), 0);
    assert_eq!(navigate(&panes, 0, Direction::Down), 0);
}

#[test]
fn navigate_lets_edges_overlap_by_one() {
    let panes = vec![pane(0, 0, 0, 10, 10), pane(1, 9, 0, 10, 10), pane(2, 8, 0, 10, 10)];
    assert_eq!(navigate(&panes, 0, Direction::Right), 1);
    let panes = vec![pane(0, 0, 0, 10, 10), pane(2, 8, 0, 10, 10)];
    assert_eq!(navigate(&panes, 0, Direction::Right), 0);
}

#[test]
fn swap_takes_the_pane_whose_middle_is_nearest() {
    let panes = three();
    // The middle of pane 0 is at row 12; those of 1 and 2 are at rows 4 and 16.
    assert_eq!(find_swap_pane(&panes, 0, Direction::Right), Some(2));
    assert_eq!(find_swap_pane(&panes, 1, Direction::Left), Some(0));
    assert_eq!(find_swap_pane(&panes, 1, Direction::Down), Some(2));
    assert_eq!(find_swap_pane(&panes, 2, Direction::Up), Some(1));
}

#[test]
fn swap_takes_the_first_of_two_equally_near() {
    let panes = vec![pane(0, 0, 0, 40, 24), pane(1, 40, 0, 40, 12), pane(2, 40, 12, 40, 12)];
    assert_eq!(find_swap_pane(&panes, 0, Direction::Right), Some(1));
}

#[test]
fn swap_needs_panes_that_touch() {
    let panes = three();
    assert_eq!(find_swap_pane(&panes, 0, Direction::Left), None);
    assert_eq!(find_swap_pane(&panes, 0, Direction::Down), None);
    let panes = vec![pane(0, 0, 0, 10, 10), pane(1, 11, 0, 10, 10)];
    assert_eq!(find_swap_pane(&panes, 0, Direction::Right), Some(1));
    let panes = vec![pane(0, 0, 0, 10, 10), pane(1, 12, 0, 10, 10)];
    assert_eq!(find_swap_pane(&panes, 0, Direction::Right), None);
    let panes = vec![pane(0, 0, 0, 10, 10), pane(1, 10, 10, 10, 10)];
    assert_eq!(find_swap_pane(&panes, 0, Direction::Right), None);
}

#[test]
fn swap_finds_nothing_among_no_panes() {
    assert_eq!(find_swap_pane(&Vec::new(), 0, Direction::Right), None);
}
