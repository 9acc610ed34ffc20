//! Neighbours: which pane lies next to another in a direction.
use vstd::prelude::*;

use crate::geometry::{Area, Direction};
use crate::pane::{Pane, PaneView, FAR};

verus! {

/// How far apart the edges of two panes may be for their terminals to be exchanged.
pub const SWAP_ADJACENCY_TOLERANCE: i32 = 1;

/// The lesser of two numbers.
pub open spec fn lesser(a: int, b: int) -> int {
    if a < b {
        a
    } else {
        b
    }
}

/// The greater of two numbers.
pub open spec fn greater(a: int, b: int) -> int {
    if a > b {
        a
    } else {
        b
    }
}

/// The number of rows that two areas have in common, if positive.
pub open spec fn common_rows(a: Area, b: Area) -> int {
    lesser(a.bottom(), b.bottom()) - greater(a.y, b.y)
}

/// The number of columns that two areas have in common, if positive.
pub open spec fn common_cols(a: Area, b: Area) -> int {
    lesser(a.right(), b.right()) - greater(a.x, b.x)
}

/// The panes lie beside each other in the sense of a direction: they have a row in common if it
/// is horizontal, a column if not.
pub open spec fn beside(a: Area, b: Area, direction: Direction) -> bool {
    if direction.horizontal() {
        common_rows(a, b) > 0
    } else {
        common_cols(a, b) > 0
    }
}

/// How far `to` lies from `from` in a direction, edge to edge.
pub open spec fn gap(from: Area, to: Area, direction: Direction) -> int {
    match direction {
        Direction::Left => from.x - to.right(),
        Direction::Right => to.x - from.right(),
        Direction::Up => from.y - to.bottom(),
        Direction::Down => to.y - from.bottom(),
    }
}

/// How far the focus would move from `from` to `to`, if `to` lies in that direction. Edges may
/// overlap by one.
pub open spec fn focus_distance(from: Area, to: Area, direction: Direction) -> Option<int> {
    if gap(from, to, direction) >= -1 && beside(from, to, direction) {
        Some(gap(from, to, direction))
    } else {
        None
    }
}

/// How far the middle of `to` lies from the middle of `from`, across the direction, if the two
/// touch in that direction.
pub open spec fn swap_distance(from: Area, to: Area, direction: Direction) -> Option<int> {
    if -SWAP_ADJACENCY_TOLERANCE <= gap(from, to, direction) <= SWAP_ADJACENCY_TOLERANCE && beside(
        from,
        to,
        direction,
    ) {
        let off = if direction.horizontal() {
            (to.y + to.bottom()) - (from.y + from.bottom())
        } else {
            (to.x + to.right()) - (from.x + from.right())
        };
        Some((if off < 0 {
            -off
        } else {
            off
        }) / 2)
    } else {
        None
    }
}

/// The distance at `i` is the least of all, and the first of those.
pub open spec fn is_closest(distances: Seq<Option<int>>, i: int) -> bool {
    &&& 0 <= i < distances.len()
    &&& distances[i] is Some
    &&& forall|j: int|
        0 <= j < distances.len() && (#[trigger] distances[j]) is Some ==> distances[i]->0
            < distances[j]->0 || (distances[i]->0 == distances[j]->0 && i <= j)
}

/// The place of the least distance, and the first of those, if there is a distance at all.
pub open spec fn closest(distances: Seq<Option<int>>) -> Option<int> {
    if exists|i: int| is_closest(distances, i) {
        Some(choose|i: int| is_closest(distances, i))
    } else {
        None
    }
}

/// The distances of all panes from pane `active`, which has none from itself.
pub open spec fn focus_distances(
    panes: Seq<PaneView>,
    active: int,
    direction: Direction,
) -> Seq<Option<int>> {
    Seq::new(
        panes.len(),
        |i: int|
            if i == active {
                None
            } else {
                focus_distance(panes[active].area, panes[i].area, direction)
            },
    )
}

/// The same for an exchange.
pub open spec fn swap_distances(
    panes: Seq<PaneView>,
    active: int,
    direction: Direction,
) -> Seq<Option<int>> {
    Seq::new(
        panes.len(),
        |i: int|
            if i == active {
                None
            } else {
                swap_distance(panes[active].area, panes[i].area, direction)
            },
    )
}

/// The values of a list of panes.
pub open spec fn panes_view(panes: Seq<Pane>) -> Seq<PaneView> {
    panes.map_values(|pane: Pane| pane@)
}

/// The distances that `found` holds.
pub open spec fn distances_view(found: Seq<Option<i32>>) -> Seq<Option<int>> {
    found.map_values(
        |d: Option<i32>|
            match d {
                Some(n) => Some(n as int),
                None => None,
            },
    )
}

/// Where there is a distance there is a closest.
pub proof fn lemma_closest(distances: Seq<Option<int>>, i: int)
    requires
        is_closest(distances, i),
    ensures
        closest(distances) == Some(i),
{
    let k = choose|k: int| is_closest(distances, k);
    assert(is_closest(distances, k));
    assert(distances[k] is Some);
    assert(distances[i] is Some);
}

/// The first place of the least distance.
pub fn find_closest(found: &Vec<Option<i32>>) -> (best: Option<usize>)
    ensures
        match best {
            Some(i) => closest(distances_view(found@)) == Some(i as int) && i < found@.len(),
            None => closest(distances_view(found@)) is None,
        },
{
    let ghost distances = distances_view(found@);
    let mut best: Option<usize> = None;
    let mut least: i32 = 0;
    let mut i: usize = 0;
    while i < found.len()
        invariant
            i <= found@.len(),
            distances == distances_view(found@),
            match best {
                Some(b) => is_closest(distances.take(i as int), b as int) && distances[b as int]
                    == Some(least as int) && b < found@.len(),
                None => forall|j: int| 0 <= j < i ==> (#[trigger] distances[j]) is None,
            },
        decreases found.len() - i,
    {
        assert(distances.take(i + 1).len() == i + 1);
        match found[i] {
            Some(d) => {
                assert(distances[i as int] == Some(d as int));
                let closer = match best {
                    Some(_) => d < least,
                    None => true,
                };
                if closer {
                    best = Some(i);
                    least = d;
                }
                proof {
                    let b = best->0 as int;
                    let seen = distances.take(i + 1);
                    assert forall|j: int| 0 <= j < seen.len() && (#[trigger] seen[j]) is Some implies seen[b]->0
                        < seen[j]->0 || (seen[b]->0 == seen[j]->0 && b <= j) by {
                        if j < i {
                            assert(distances.take(i as int)[j] == distances[j]);
                        }
                    }
                    assert(is_closest(seen, b));
                }
            },
            None => {
                assert(distances[i as int] is None);
                proof {
                    if let Some(b) = best {
                        let seen = distances.take(i + 1);
                        assert forall|j: int| 0 <= j < seen.len() && (#[trigger] seen[j]) is Some implies seen[b as int]->0
                            < seen[j]->0 || (seen[b as int]->0 == seen[j]->0 && b <= j) by {
                            assert(distances.take(i as int)[j] == distances[j]);
                        }
                        assert(distances.take(i as int)[b as int] == seen[b as int]);
                        assert(is_closest(seen, b as int));
                    }
                }
            },
        }
        i = i + 1;
    }
    proof {
        assert(distances.take(i as int) =~= distances);
        match best {
            Some(b) => lemma_closest(distances, b as int),
            None => {
                assert forall|k: int| !is_closest(distances, k) by {}
            },
        }
    }
    best
}

/// `beside`, computed.
fn is_beside(a: &Pane, b: &Pane, direction: Direction) -> (result: bool)
    requires
        PaneView::near(a@.area),
        PaneView::near(b@.area),
    ensures
        result == beside(a@.area, b@.area, direction),
{
    let (a_end, a_start, b_end, b_start): (usize, usize, usize, usize) =
        if direction.is_horizontal() {
        (a.y + a.height, a.y, b.y + b.height, b.y)
    } else {
        (a.x + a.width, a.x, b.x + b.width, b.x)
    };
    let end: usize = if a_end < b_end {
        a_end
    } else {
        b_end
    };
    let start: usize = if a_start > b_start {
        a_start
    } else {
        b_start
    };
    end > start
}

/// `gap`, computed.
fn edge_gap(from: &Pane, to: &Pane, direction: Direction) -> (result: i32)
    requires
        PaneView::near(from@.area),
        PaneView::near(to@.area),
    ensures
        result == gap(from@.area, to@.area, direction),
        -FAR <= result <= FAR,
{
    match direction {
        Direction::Left => (from.x as i32) - ((to.x + to.width) as i32),
        Direction::Right => (to.x as i32) - ((from.x + from.width) as i32),
        Direction::Up => (from.y as i32) - ((to.y + to.height) as i32),
        Direction::Down => (to.y as i32) - ((from.y + from.height) as i32),
    }
}

/// The pane that gets the focus when it moves from pane `active` in a direction: the closest one
/// that way, or `active` itself if there is none.
pub fn navigate(panes: &Vec<Pane>, active: usize, direction: Direction) -> (next: usize)
    requires
        active < panes@.len(),
        forall|i: int| 0 <= i < panes@.len() ==> PaneView::near((#[trigger] panes@[i])@.area),
    ensures
        next < panes@.len(),
        match closest(focus_distances(panes_view(panes@), active as int, direction)) {
            Some(i) => next == i,
            None => next == active,
        },
{
    let mut found: Vec<Option<i32>> = Vec::new();
    let ghost all = focus_distances(panes_view(panes@), active as int, direction);
    let mut i: usize = 0;
    while i < panes.len()
        invariant
            i <= panes@.len(),
            active < panes@.len(),
            found@.len() == i,
            all == focus_distances(panes_view(panes@), active as int, direction),
            forall|i: int| 0 <= i < panes@.len() ==> PaneView::near((#[trigger] panes@[i])@.area),
            distances_view(found@) =~= all.take(i as int),
        decreases panes.len() - i,
    {
        let ghost before = found@;
        let distance: Option<i32> = if i == active {
            None
        } else {
            let d: i32 = edge_gap(&panes[active], &panes[i], direction);
            if d >= -1 && is_beside(&panes[active], &panes[i], direction) {
                Some(d)
            } else {
                None
            }
        };
        found.push(distance);
        assert(distances_view(found@) =~= distances_view(before).push(all[i as int]));
        i = i + 1;
    }
    assert(all.take(i as int) =~= all);
    match find_closest(&found) {
        Some(next) => next,
        None => active,
    }
}

/// The pane whose terminal is exchanged with that of pane `active`: of those that touch it in
/// that direction, the one whose middle is closest.
pub fn find_swap_pane(panes: &Vec<Pane>, active: usize, direction: Direction) -> (other: Option<
    usize,
>)
    requires
        panes@.len() > 0 ==> active < panes@.len(),
        forall|i: int| 0 <= i < panes@.len() ==> PaneView::near((#[trigger] panes@[i])@.area),
    ensures
        match other {
            Some(i) => i < panes@.len() && i != active && closest(
                swap_distances(panes_view(panes@), active as int, direction),
            ) == Some(i as int),
            None => closest(
                swap_distances(panes_view(panes@), active as int, direction),
            ) is None,
        },
{
    let mut found: Vec<Option<i32>> = Vec::new();
    let ghost all = swap_distances(panes_view(panes@), active as int, direction);
    let mut i: usize = 0;
    while i < panes.len()
        invariant
            i <= panes@.len(),
            panes@.len() > 0 ==> active < panes@.len(),
            found@.len() == i,
            all == swap_distances(panes_view(panes@), active as int, direction),
            forall|i: int| 0 <= i < panes@.len() ==> PaneView::near((#[trigger] panes@[i])@.area),
            distances_view(found@) =~= all.take(i as int),
        decreases panes.len() - i,
    {
        let ghost before = found@;
        let distance: Option<i32> = if i == active {
            None
        } else {
            let a = &panes[active];
            let p = &panes[i];
            let d: i32 = edge_gap(a, p, direction);
            if -SWAP_ADJACENCY_TOLERANCE <= d && d <= SWAP_ADJACENCY_TOLERANCE && is_beside(
                a,
                p,
                direction,
            ) {
                let (twice_p, twice_a): (i32, i32) = if direction.is_horizontal() {
                    ((2 * p.y + p.height) as i32, (2 * a.y + a.height) as i32)
                } else {
                    ((2 * p.x + p.width) as i32, (2 * a.x + a.width) as i32)
                };
                let off: i32 = if twice_p < twice_a {
                    twice_a - twice_p
                } else {
                    twice_p - twice_a
                };
                Some(off / 2)
            } else {
                None
            }
        };
        found.push(distance);
        assert(distances_view(found@) =~= distances_view(before).push(all[i as int]));
        i = i + 1;
    }
    assert(all.take(i as int) =~= all);
    let best = find_closest(&found);
    proof {
        if let Some(b) = best {
            assert(is_closest(all, b as int));
            assert(all[b as int] is Some);
        }
    }
    best
}

} // verus!
