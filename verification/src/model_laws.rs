//! What holds of the multiplexer whatever is done with it.
use vstd::prelude::*;

use crate::action::ActionView;
use crate::event::{EventView, PolledView};
use crate::focus;
use crate::geometry::Direction;
use crate::keys::{Key, KeyCode};
use crate::layout;
use crate::layout::LayoutNode;
use crate::layout_laws;
use crate::model;
use crate::model::AppView;
use crate::model_lemmas;
use crate::pane_laws;
use crate::ratio;
use crate::ratio::{Ratio, HALF};

verus! {

/// Every pane is in its place.
pub open spec fn settled(s: AppView) -> bool {
    s.panes.len() == s.places().len() && forall|i: int|
        0 <= i < s.panes.len() ==> (#[trigger] s.panes[i]).area == s.places()[i].area
}

/// There are as many places as panes.
proof fn lemma_places(s: AppView)
    requires
        s.wf(),
        s.panes.len() > 0,
    ensures
        s.places().len() == s.panes.len(),
{
    layout_laws::law_tiles_follow_panes(s.root, s.layout_area());
    assert(model::ids(s.panes).len() == s.panes.len());
}

/// Giving every pane its place settles the panes: doing it once more changes nothing and asks
/// nothing of the terminals.
pub proof fn law_layout_settles(s: AppView)
    requires
        s.wf(),
        s.panes.len() > 0,
    ensures
        settled(s.relaid()),
        s.relaid().relay().app == s.relaid(),
        s.relaid().relay().actions == Seq::<ActionView>::empty(),
{
    lemma_places(s);
    let t = s.relaid();
    assert(t.places() == s.places());
    assert forall|i: int| 0 <= i < t.panes.len() implies t.panes[i].placed(s.places()[i].area)
        == #[trigger] t.panes[i] by {
        assert(t.panes[i].area == s.places()[i].area);
    }
    assert(t.relaid().panes =~= t.panes);
    lemma_settled_notices(t, t.panes.len());
}

/// Panes that are in their places need no notice.
pub proof fn lemma_settled_notices(s: AppView, n: nat)
    requires
        settled(s),
        n <= s.panes.len(),
    ensures
        model::place_notices(s.panes, s.places(), n) == Seq::<ActionView>::empty(),
    decreases n,
{
    if n > 0 {
        lemma_settled_notices(s, (n - 1) as nat);
        assert(s.panes[n - 1].area == s.places()[n - 1].area);
    }
}

/// When no pane is too small, the panes divide the screen: every cell that the footer leaves is
/// in a pane, and in one only.
pub proof fn law_panes_divide_the_screen(s: AppView, x: int, y: int)
    requires
        s.wf(),
        s.panes.len() > 0,
        settled(s),
        s.roomy(s.root),
        s.layout_area().holds(x, y),
    ensures
        exists|i: int| 0 <= i < s.panes.len() && (#[trigger] s.panes[i]).area.holds(x, y),
        forall|i: int, j: int|
            0 <= i < s.panes.len() && 0 <= j < s.panes.len() && (
            #[trigger] s.panes[i]).area.holds(x, y) && (#[trigger] s.panes[j]).area.holds(x, y)
                ==> i == j,
{
    let area = s.layout_area();
    let tiles = s.root.tiles(area);
    layout_laws::law_roomy_panes_are_tiles(s.root, area, s.min_pane_width, s.min_pane_height);
    layout_laws::law_tiles_cover(s.root, area, x, y);
    let k = choose|k: int| 0 <= k < tiles.len() && (#[trigger] tiles[k]).area.holds(x, y);
    assert(s.panes[k].area == tiles[k].area);
    assert forall|i: int, j: int|
        0 <= i < s.panes.len() && 0 <= j < s.panes.len() && (#[trigger] s.panes[i]).area.holds(
            x,
            y,
        ) && (#[trigger] s.panes[j]).area.holds(x, y) implies i == j by {
        layout_laws::law_tiles_disjoint(s.root, area, i, j, x, y);
    }
}

/// No pane reaches past the part of the screen that is divided among them, when none is too
/// small.
pub proof fn law_panes_stay_on_the_screen(s: AppView, i: int)
    requires
        s.wf(),
        settled(s),
        s.roomy(s.root),
        0 <= i < s.panes.len(),
    ensures
        s.panes[i].area.inside(s.layout_area()),
{
    let area = s.layout_area();
    layout_laws::law_roomy_panes_are_tiles(s.root, area, s.min_pane_width, s.min_pane_height);
    layout_laws::law_tiles_inside(s.root, area);
}

/// Moving a boundary never makes a pane too small: either the tree stays as it is, or every
/// pane of the new one has the least size.
pub proof fn law_resize_keeps_least_sizes(s: AppView, direction: Direction)
    ensures
        ({
            let after = s.resize_active(direction).app;
            ||| after.root == s.root
            ||| s.roomy(after.root)
        }),
        s.roomy(s.root) ==> s.roomy(s.resize_active(direction).app.root),
{
}

/// Moving a boundary opens and closes no pane, and keeps the focus and every terminal and its
/// output where they are.
pub proof fn law_resize_keeps_panes(s: AppView, direction: Direction, i: int)
    requires
        0 <= i < s.panes.len(),
    ensures
        ({
            let after = s.resize_active(direction).app;
            &&& after.panes.len() == s.panes.len()
            &&& after.active_index == s.active_index
            &&& after.panes[i].id == s.panes[i].id
            &&& after.panes[i].terminal == s.panes[i].terminal
            &&& after.panes[i].output == s.panes[i].output
        }),
{
}

/// Zooming is undone by zooming again: every pane is back in its place, with its terminal and
/// its output, and the focus is where it was. Only the screen of the zoomed pane may have been
/// made anew.
pub proof fn law_zoom_twice(s: AppView)
    requires
        s.wf(),
        s.panes.len() > 0,
        settled(s),
        !s.is_zoomed,
    ensures
        ({
            let after = s.toggle_maximize().app.toggle_maximize().app;
            &&& !after.is_zoomed
            &&& after.root == s.root
            &&& after.active_index == s.active_index
            &&& after.panes.len() == s.panes.len()
            &&& settled(after)
            &&& forall|i: int|
                0 <= i < s.panes.len() && i != s.active_index ==> #[trigger] after.panes[i]
                    == s.panes[i]
            &&& after.active().area == s.active().area
            &&& after.active().terminal == s.active().terminal
            &&& after.active().output == s.active().output
            &&& after.active() == s.active() || after.active() == s.active().rebuilt()
        }),
{
    let zoomed = s.toggle_maximize().app;
    let after = zoomed.toggle_maximize().app;
    assert(zoomed.places() == s.places());
    assert(after.places() == s.places());
    assert forall|i: int| 0 <= i < s.panes.len() && i != s.active_index implies (
    #[trigger] after.panes[i]) == s.panes[i] by {
        assert(zoomed.panes[i] == s.panes[i]);
        assert(s.panes[i].area == s.places()[i].area);
    }
    let a = s.active_index;
    assert(zoomed.panes[a] == s.panes[a].placed(s.full_area()));
    assert(s.panes[a].area == s.places()[a].area);
    assert(after.panes[a] == zoomed.panes[a].placed(s.places()[a].area));
}

/// The pane that is zoomed fills what the footer leaves of the screen.
pub proof fn law_zoom_fills_the_screen(s: AppView)
    requires
        s.wf(),
        s.panes.len() > 0,
        !s.is_zoomed,
    ensures
        ({
            let after = s.toggle_maximize().app;
            &&& after.is_zoomed
            &&& after.active().area == s.full_area()
            &&& after.active().output == s.active().output
            &&& after.active_index == s.active_index
        }),
{
}

/// What the focus moves to is the closest pane in the direction: it is another pane, it lies
/// there, and no other pane lies closer. There is such a pane exactly when any pane lies there;
/// otherwise, and while a pane is zoomed, nothing changes.
pub proof fn law_focus_moves_to_the_closest(s: AppView, direction: Direction)
    requires
        s.wf(),
        s.panes.len() > 0,
    ensures
        ({
            let after = s.navigate(direction);
            let distances = focus::focus_distances(s.panes, s.active_index, direction);
            let any = exists|i: int| 0 <= i < s.panes.len() && (#[trigger] distances[i]) is Some;
            &&& after == AppView { active_index: after.active_index, ..s }
            &&& s.is_zoomed || !any ==> after == s
            &&& !s.is_zoomed && any ==> after.active_index != s.active_index
                && focus::is_closest(distances, after.active_index)
        }),
{
    let distances = focus::focus_distances(s.panes, s.active_index, direction);
    lemma_closest_exists(distances);
}

/// The terminals are exchanged with a pane exactly when one touches the active pane there.
pub proof fn law_exchange_needs_a_neighbour(s: AppView, direction: Direction)
    requires
        s.wf(),
        s.panes.len() > 0,
        !s.is_zoomed,
    ensures
        ({
            let after = s.swap_active(direction).app;
            let distances = focus::swap_distances(s.panes, s.active_index, direction);
            let any = exists|i: int| 0 <= i < s.panes.len() && (#[trigger] distances[i]) is Some;
            &&& !any ==> after == s
            &&& any ==> after.active_index != s.active_index && focus::is_closest(
                distances,
                after.active_index,
            )
        }),
{
    let distances = focus::swap_distances(s.panes, s.active_index, direction);
    lemma_closest_exists(distances);
}

/// Where there is any distance there is a least one.
proof fn lemma_closest_exists(distances: Seq<Option<int>>)
    ensures
        match focus::closest(distances) {
            Some(i) => focus::is_closest(distances, i),
            None => forall|i: int| 0 <= i < distances.len() ==> (#[trigger] distances[i]) is None,
        },
    decreases distances.len(),
{
    if focus::closest(distances) is None {
        assert forall|i: int| 0 <= i < distances.len() implies (#[trigger] distances[i]) is None by {
            if distances[i] is Some {
                let k = lemma_least(distances, i);
                assert(focus::is_closest(distances, k));
            }
        }
    }
}

/// Finds the first of the least distances.
proof fn lemma_least(distances: Seq<Option<int>>, i: int) -> (k: int)
    requires
        0 <= i < distances.len(),
        distances[i] is Some,
    ensures
        focus::is_closest(distances, k),
    decreases distances.len(),
{
    let last = distances.len() - 1;
    let rest = distances.drop_last();
    if exists|j: int| 0 <= j < rest.len() && (#[trigger] rest[j]) is Some {
        let j = choose|j: int| 0 <= j < rest.len() && (#[trigger] rest[j]) is Some;
        let k = lemma_least(rest, j);
        let best = if distances[last] is Some && distances[last]->0 < distances[k]->0 {
            last
        } else {
            k
        };
        assert forall|m: int|
            0 <= m < distances.len() && (#[trigger] distances[m]) is Some implies distances[best]->0
            < distances[m]->0 || (distances[best]->0 == distances[m]->0 && best <= m) by {
            if m < last {
                assert(rest[m] == distances[m]);
            }
        }
        best
    } else {
        assert forall|m: int| 0 <= m < last implies (#[trigger] distances[m]) is None by {
            assert(rest[m] == distances[m]);
        }
        last
    }
}

/// An exchange takes the terminal, its program and its output to the neighbouring pane, and what
/// was there to the active one. The focus stays with the terminal; all other panes keep what
/// they show, and no pane moves.
pub proof fn law_exchange_carries_terminals(s: AppView, direction: Direction)
    requires
        s.wf(),
        s.panes.len() > 0,
        settled(s),
        !s.is_zoomed,
        s.swap_active(direction).app != s,
    ensures
        ({
            let after = s.swap_active(direction).app;
            let a = s.active_index;
            let b = after.active_index;
            &&& a != b
            &&& 0 <= b < s.panes.len()
            &&& after.panes.len() == s.panes.len()
            &&& after.root == s.root
            &&& after.panes[b] == s.panes[b].with_terminal(s.panes[a])
            &&& after.panes[a] == s.panes[a].with_terminal(s.panes[b])
            &&& after.active().terminal == s.active().terminal
            &&& after.active().output == s.active().output
            &&& forall|i: int|
                0 <= i < s.panes.len() && i != a && i != b ==> #[trigger] after.panes[i]
                    == s.panes[i]
        }),
{
    let distances = focus::swap_distances(s.panes, s.active_index, direction);
    lemma_closest_exists(distances);
    let b = focus::closest(distances)->0;
    let swapped = s.swapped(b);
    assert(swapped.places() == s.places());
    assert forall|i: int| 0 <= i < s.panes.len() implies (#[trigger] swapped.relaid().panes[i])
        == swapped.panes[i] by {
        assert(s.panes[i].area == s.places()[i].area);
        assert(swapped.panes[i].area == s.panes[i].area);
    }
}

/// Exchanging terminals with a pane and back restores every terminal and its output; the two
/// screens are made anew from that.
pub proof fn law_exchange_back(s: AppView, other: int)
    requires
        s.wf(),
        s.panes.len() > 0,
        0 <= other < s.panes.len(),
        other != s.active_index,
    ensures
        ({
            let back = s.swapped(other).swapped(s.active_index);
            &&& back.active_index == s.active_index
            &&& back.root == s.root
            &&& back.panes == s.panes.update(s.active_index, s.active().rebuilt()).update(
                other,
                s.panes[other].rebuilt(),
            )
        }),
{
    pane_laws::law_exchange_twice(s.active(), s.panes[other]);
    let back = s.swapped(other).swapped(s.active_index);
    assert(back.panes =~= s.panes.update(s.active_index, s.active().rebuilt()).update(
        other,
        s.panes[other].rebuilt(),
    ));
}

/// A key reaches the program of the active pane, and no other, unless input is broadcast: then
/// it reaches the program of every pane, once each.
pub proof fn law_input_goes_where_it_should(s: AppView, key: Key)
    requires
        s.wf(),
        s.panes.len() > 0,
        key.bytes().len() > 0,
    ensures
        !s.broadcast_mode ==> s.send_key(key) == seq![
            ActionView::Write { terminal: s.active().terminal, bytes: key.bytes() },
        ],
        s.broadcast_mode ==> {
            &&& s.send_key(key).len() == s.panes.len()
            &&& forall|i: int|
                0 <= i < s.panes.len() ==> #[trigger] s.send_key(key)[i] == (ActionView::Write {
                    terminal: s.panes[i].terminal,
                    bytes: key.bytes(),
                })
        },
{
}

/// A key that sends input changes nothing of the multiplexer itself but the key remembered.
pub proof fn law_input_changes_nothing(s: AppView, key: Key, label: Seq<char>)
    requires
        !key.ctrl,
        !(key.alt && key.shift && key.code.arrow() is Some),
    ensures
        s.handle_key(key, label).app == s.noted(label),
{
}

/// Switching the broadcast off and on again changes nothing but that everything is drawn.
pub proof fn law_broadcast_twice(s: AppView, key: Key)
    requires
        key.code == KeyCode::Char('b'),
        key.ctrl,
        !key.alt,
    ensures
        s.key(key).app.broadcast_mode == !s.broadcast_mode,
        s.key(key).app.key(key).app == (AppView { full_redraw: true, ..s }),
        s.key(key).actions == Seq::<ActionView>::empty(),
{
}

/// The terminal that a split asks for has a number that no pane and no terminal has, so it can
/// be given its place when it has been started.
pub proof fn law_split_asks_for_a_new_terminal(s: AppView, vertical: bool)
    requires
        s.wf(),
        s.can_split(vertical),
        s.next_id < usize::MAX,
    ensures
        ({
            let step = s.begin_split(vertical);
            let id = s.next_id as usize;
            &&& step.actions == seq![ActionView::Spawn { id, vertical }]
            &&& step.app.wf()
            &&& step.app.panes == s.panes
            &&& id < step.app.next_id
            &&& !model::ids(step.app.panes).contains(id)
            &&& !model::terminals(step.app.panes).contains(id)
        }),
{
    let id = s.next_id as usize;
    if model::ids(s.panes).contains(id) {
        let k = choose|k: int| 0 <= k < s.panes.len() && model::ids(s.panes)[k] == id;
        assert(s.panes[k].id == id);
    }
    if model::terminals(s.panes).contains(id) {
        let k = choose|k: int| 0 <= k < s.panes.len() && model::terminals(s.panes)[k] == id;
        assert(s.panes[k].terminal == id);
    }
}

/// A split divides the active pane in the middle and leaves all others where they are; the new
/// terminal gets the right or lower half, and the focus. Where no pane is too small, none becomes
/// so by it.
pub proof fn law_split_divides_the_active_pane(s: AppView, id: usize, vertical: bool, pid: u32)
    requires
        s.wf(),
        settled(s),
        s.can_split(vertical),
        id < s.next_id,
        !model::ids(s.panes).contains(id),
        !model::terminals(s.panes).contains(id),
    ensures
        ({
            let after = s.complete_split(id, vertical, pid).app;
            let a = s.active_index;
            let ratio = Ratio { units: HALF };
            &&& after.panes.len() == s.panes.len() + 1
            &&& after.active_index == a + 1
            &&& after.active().terminal == id
            &&& after.active().output == Seq::<u8>::empty()
            &&& after.panes[a].area == layout::first_part(vertical, ratio, s.active().area)
            &&& after.panes[a + 1].area == layout::second_part(vertical, ratio, s.active().area)
            &&& after.panes[a].terminal == s.active().terminal
            &&& after.panes[a].output == s.active().output
            &&& forall|i: int| 0 <= i < a ==> #[trigger] after.panes[i] == s.panes[i]
            &&& forall|i: int|
                a + 1 < i < after.panes.len() ==> #[trigger] after.panes[i] == s.panes[i - 1]
            &&& s.roomy(s.root) ==> s.roomy(after.root)
        }),
{
    let a = s.active_index;
    let active_id = s.active().id;
    let pair = layout_laws::split_node(active_id, id, vertical);
    let area = s.layout_area();
    let tiles = s.root.tiles(area);
    let root = s.root.with_leaf(active_id, pair);
    let grown = AppView {
        root,
        panes: s.panes.insert(a + 1, AppView::new_pane(id, pid)),
        active_index: a + 1,
        full_redraw: true,
        ..s
    };
    let after = s.complete_split(id, vertical, pid).app;
    assert(after == grown.relaid());
    assert(model::ids(s.panes)[a] == active_id);
    layout_laws::law_split_divides_one_tile(s.root, a, pair, area);
    layout_laws::law_tiles_inside(s.root, area);
    let here = tiles[a].area;
    assert(s.active().area == s.places()[a].area);
    assert(s.active().area == here.with_border());
    layout_laws::law_split_halves(vertical, here);
    let first = layout::first_part(vertical, Ratio { units: HALF }, here);
    let second = layout::second_part(vertical, Ratio { units: HALF }, here);
    assert(pair->left.tiles(first) == seq![layout::Tile { pane: active_id, area: first }]);
    assert(pair->right.tiles(second) == seq![layout::Tile { pane: id, area: second }]);
    assert(pair.tiles(here) =~= seq![
        layout::Tile { pane: active_id, area: first },
        layout::Tile { pane: id, area: second },
    ]);
    let new = root.tiles(area);
    assert(new.len() == tiles.len() + 1);
    assert forall|i: int| 0 <= i < new.len() && s.roomy(s.root) implies (
    #[trigger] new[i]).area.width >= s.min_pane_width && new[i].area.height
        >= s.min_pane_height by {
        assert(tiles[a].area.width >= s.min_pane_width && tiles[a].area.height
            >= s.min_pane_height);
        if i < a {
            assert(new[i] == tiles[i]);
        } else if i > a + 1 {
            assert(new[i] == tiles[i - 1]);
        }
    }
    let places = grown.places();
    assert(places.len() == new.len());
    assert forall|i: int| 0 <= i < a implies (#[trigger] after.panes[i]) == s.panes[i] by {
        assert(new[i] == tiles[i]);
        assert(places[i].area == s.places()[i].area);
        assert(grown.panes[i] == s.panes[i]);
        assert(s.panes[i].area == s.places()[i].area);
    }
    assert forall|i: int| a + 1 < i < after.panes.len() implies (#[trigger] after.panes[i])
        == s.panes[i - 1] by {
        assert(new[i] == tiles[i - 1]);
        assert(places[i].area == s.places()[i - 1].area);
        assert(grown.panes[i] == s.panes[i - 1]);
        assert(s.panes[i - 1].area == s.places()[i - 1].area);
    }
    assert(grown.panes[a] == s.panes[a]);
    assert(new[a].area == first);
    assert(new[a + 1].area == second);
    assert(after.panes[a] == grown.panes[a].placed(first.with_border()));
    assert(after.panes[a + 1] == grown.panes[a + 1].placed(second.with_border()));
}

/// Closing the pane that a split has made undoes the split: the tree and the places, terminals
/// and outputs of all panes are as before. The focus goes to the next pane, or back if there is
/// none.
pub proof fn law_close_undoes_split(s: AppView, id: usize, vertical: bool, pid: u32)
    requires
        s.wf(),
        s.panes.len() > 0,
        settled(s),
        id < s.next_id,
        !model::ids(s.panes).contains(id),
        !model::terminals(s.panes).contains(id),
    ensures
        ({
            let back = s.complete_split(id, vertical, pid).app.remove_pane(id).app;
            &&& back.root == s.root
            &&& back.panes.len() == s.panes.len()
            &&& forall|i: int|
                0 <= i < s.panes.len() ==> {
                    let pane = #[trigger] back.panes[i];
                    &&& pane.id == s.panes[i].id
                    &&& pane.area == s.panes[i].area
                    &&& pane.pid == s.panes[i].pid
                    &&& pane.terminal == s.panes[i].terminal
                    &&& pane.output == s.panes[i].output
                }
            &&& back.active_index == (if s.active_index + 1 < s.panes.len() {
                s.active_index + 1
            } else {
                s.active_index
            })
        }),
{
    let a = s.active_index;
    let active_id = s.active().id;
    let pair = layout_laws::split_node(active_id, id, vertical);
    let root = s.root.with_leaf(active_id, pair);
    let grown = AppView {
        root,
        panes: s.panes.insert(a + 1, AppView::new_pane(id, pid)),
        active_index: a + 1,
        full_redraw: true,
        ..s
    };
    let mid = s.complete_split(id, vertical, pid).app;
    assert(mid == grown.relaid());
    let old_ids = model::ids(s.panes);
    assert(old_ids[a] == active_id);
    assert(old_ids.contains(active_id));
    layout_laws::law_collapse_undoes_split(s.root, active_id, id, vertical);
    model_lemmas::lemma_new_pane_wf(id, pid);
    model_lemmas::lemma_split_wf(s, grown, id, vertical);
    model_lemmas::lemma_relaid_wf(grown);
    let ids = model::ids(mid.panes);
    assert(ids[a + 1] == id);
    assert(ids.contains(id));
    assert(ids.no_duplicates());
    assert(ids.index_of(id) == a + 1);
    let closed = mid.closed_at(a + 1);
    assert(closed.root == s.root);
    let back = closed.relaid();
    assert(back == mid.remove_pane(id).app);
    assert(closed.places() == s.places());
    assert forall|i: int| 0 <= i < s.panes.len() implies {
        let pane = #[trigger] back.panes[i];
        &&& pane.id == s.panes[i].id
        &&& pane.area == s.panes[i].area
        &&& pane.pid == s.panes[i].pid
        &&& pane.terminal == s.panes[i].terminal
        &&& pane.output == s.panes[i].output
    } by {
        let k = if i < a + 1 {
            i
        } else {
            i + 1
        };
        assert(closed.panes[i] == mid.panes[k]);
        assert(grown.panes[k] == s.panes[i]);
        assert(s.panes[i].area == s.places()[i].area);
    }
}

/// Closing a pane takes away its number and leaves all others in their order; its terminal is
/// closed, and every other pane keeps its terminal and its output.
pub proof fn law_close_takes_one_pane(s: AppView, id: usize)
    requires
        s.wf(),
        model::ids(s.panes).contains(id),
    ensures
        ({
            let step = s.remove_pane(id);
            let i = model::ids(s.panes).index_of(id);
            &&& step.app.wf()
            &&& 0 <= i < s.panes.len()
            &&& s.panes[i].id == id
            &&& model::ids(step.app.panes) == model::ids(s.panes).remove(i)
            &&& model::terminals(step.app.panes) == model::terminals(s.panes).remove(i)
            &&& step.actions.len() > 0
            &&& step.actions[0] == (ActionView::Close { terminal: s.panes[i].terminal })
            &&& forall|k: int|
                0 <= k < step.app.panes.len() ==> (#[trigger] step.app.panes[k]).output
                    == s.panes[if k < i {
                    k
                } else {
                    k + 1
                }].output
        }),
{
    let i = model::ids(s.panes).index_of(id);
    assert(model::ids(s.panes)[i] == id);
    model_lemmas::lemma_remove_wf(s, i);
    let closed = s.closed_at(i);
    model_lemmas::lemma_relaid_wf(closed);
    let after = closed.relaid();
    assert(model::ids(after.panes) =~= model::ids(s.panes).remove(i));
    assert(model::terminals(after.panes) =~= model::terminals(s.panes).remove(i));
}

/// When terminals have ended, exactly their panes are closed.
pub proof fn law_ended_panes_are_closed(s: AppView, dead: Seq<usize>, id: usize)
    requires
        s.wf(),
    ensures
        s.reap(dead).app.wf(),
        model::ids(s.reap(dead).app.panes).contains(id) <==> model::ids(s.panes).contains(id)
            && !dead.contains(id),
    decreases dead.len(),
{
    if dead.len() > 0 {
        let first = s.remove_pane(dead[0]);
        let rest = dead.drop_first();
        let ids = model::ids(s.panes);
        assert(dead.contains(id) <==> id == dead[0] || rest.contains(id)) by {
            if rest.contains(id) {
                let k = choose|k: int| 0 <= k < rest.len() && rest[k] == id;
                assert(dead[k + 1] == id);
            }
            if dead.contains(id) && id != dead[0] {
                let k = choose|k: int| 0 <= k < dead.len() && dead[k] == id;
                assert(rest[k - 1] == id);
            }
        }
        if ids.contains(dead[0]) {
            law_close_takes_one_pane(s, dead[0]);
            lemma_removed_contains(ids, ids.index_of(dead[0]), id);
        }
        if s.panes.len() > 0 && first.app.panes.len() == 0 {
            assert(!model::ids(first.app.panes).contains(id));
        } else {
            law_ended_panes_are_closed(first.app, rest, id);
        }
    }
}

/// What is left of a list of distinct numbers without one of them.
proof fn lemma_removed_contains(s: Seq<usize>, i: int, x: usize)
    requires
        0 <= i < s.len(),
        s.no_duplicates(),
    ensures
        s.remove(i).contains(x) <==> s.contains(x) && x != s[i],
{
    let t = s.remove(i);
    if t.contains(x) {
        let k = choose|k: int| 0 <= k < t.len() && t[k] == x;
        if k < i {
            assert(s[k] == x);
        } else {
            assert(s[k + 1] == x);
        }
    }
    if s.contains(x) && x != s[i] {
        let k = choose|k: int| 0 <= k < s.len() && s[k] == x;
        if k < i {
            assert(t[k] == x);
        } else {
            assert(t[k - 1] == x);
        }
    }
}

/// The program of every pane that is closed is ended.
pub proof fn law_ended_terminals_are_closed(s: AppView, dead: Seq<usize>, i: int)
    requires
        s.wf(),
        0 <= i < s.panes.len(),
        dead.contains(s.panes[i].id),
    ensures
        s.reap(dead).actions.contains(ActionView::Close { terminal: s.panes[i].terminal }),
    decreases dead.len(),
{
    let close = ActionView::Close { terminal: s.panes[i].terminal };
    let first = s.remove_pane(dead[0]);
    let rest = dead.drop_first();
    let ids = model::ids(s.panes);
    let whole = s.reap(dead).actions;
    assert(ids[i] == s.panes[i].id);
    if ids.contains(dead[0]) {
        law_close_takes_one_pane(s, dead[0]);
    }
    if dead[0] == s.panes[i].id {
        assert(ids.contains(dead[0]));
        assert(ids.index_of(dead[0]) == i);
        assert(first.actions[0] == close);
        assert(whole[0] == close);
    } else {
        let later = first.app.reap(rest).actions;
        let k = choose|k: int| 0 <= k < dead.len() && dead[k] == s.panes[i].id;
        assert(rest[k - 1] == s.panes[i].id);
        let at = if ids.contains(dead[0]) && ids.index_of(dead[0]) < i {
            i - 1
        } else {
            i
        };
        if ids.contains(dead[0]) {
            assert(model::ids(first.app.panes)[at] == ids[i]);
            assert(model::terminals(first.app.panes)[at] == model::terminals(s.panes)[i]);
        }
        assert(first.app.panes[at].id == s.panes[i].id);
        assert(first.app.panes[at].terminal == s.panes[i].terminal);
        law_ended_terminals_are_closed(first.app, rest, at);
        let j = choose|j: int| 0 <= j < later.len() && later[j] == close;
        assert(whole == first.actions + later);
        assert(whole[first.actions.len() + j] == close);
    }
}

/// No event of the outer terminal loses, adds or doubles a terminal, and every terminal keeps
/// its program and all its output: for each pane before there is one after with the same.
pub proof fn law_events_keep_terminals(s: AppView, event: EventView, i: int)
    requires
        s.wf(),
        s.panes.len() > 0,
        0 <= i < s.panes.len(),
    ensures
        ({
            let after = s.handle_event(event).app;
            &&& after.panes.len() == s.panes.len()
            &&& exists|k: int|
                0 <= k < after.panes.len() && {
                    let pane = #[trigger] after.panes[k];
                    &&& pane.terminal == s.panes[i].terminal
                    &&& pane.pid == s.panes[i].pid
                    &&& pane.output == s.panes[i].output
                }
        }),
{
    let after = s.handle_event(event).app;
    let mut other: Option<int> = None;
    if let EventView::Key { key, label } = event {
        if let Some(direction) = key.code.arrow() {
            if !key.ctrl && key.alt && key.shift && !s.is_zoomed {
                let distances = focus::swap_distances(s.panes, s.active_index, direction);
                lemma_closest_exists(distances);
                other = focus::closest(distances);
            }
        }
    }
    let k = if other == Some(i) {
        s.active_index
    } else if other is Some && i == s.active_index {
        other->0
    } else {
        i
    };
    assert(after.panes[k].terminal == s.panes[i].terminal);
}

/// Giving every pane its place keeps the sizes of the screens fitting.
proof fn lemma_relaid_fitting(s: AppView)
    requires
        s.wf(),
    ensures
        s.fitting() ==> s.relaid().fitting(),
{
    if s.fitting() && s.panes.len() > 0 {
        let after = s.relaid();
        assert forall|i: int| 0 <= i < after.panes.len() implies (#[trigger] after.panes[i]).fitting()
            by {
            assert(s.panes[i].fitting());
            assert(after.panes[i] == s.panes[i].placed(s.places()[i].area));
        }
    }
}

/// Whatever happens, every screen keeps the size that fits its pane and its output: the rows and
/// columns that the border leaves, unless vt100 panics on them while it processes that output.
pub proof fn law_screens_keep_fitting(s: AppView, event: EventView, found: PolledView, i: int)
    requires
        s.wf(),
        s.accepts(event),
        0 <= i < s.panes.len(),
    ensures
        s.fitting() ==> s.handle_event(event).app.fitting(),
        s.fitting() ==> s.received(i, found).fitting(),
        s.fitting() ==> s.remove_at(i).app.fitting(),
{
    if s.fitting() {
        lemma_event_fitting(s, event);
        assert(s.received(i, found).fitting());
        model_lemmas::lemma_remove_wf(s, i);
        let closed = s.closed_at(i);
        assert forall|k: int| 0 <= k < closed.panes.len() implies (
        #[trigger] closed.panes[k]).fitting() by {
            if k < i {
                assert(closed.panes[k] == s.panes[k]);
            } else {
                assert(closed.panes[k] == s.panes[k + 1]);
            }
        }
        lemma_relaid_fitting(closed);
    }
}

/// The same for a new terminal that is given its place.
pub proof fn law_split_keeps_screens_fitting(s: AppView, id: usize, vertical: bool, pid: u32)
    requires
        s.wf(),
        s.panes.len() > 0,
        id < s.next_id,
        !model::ids(s.panes).contains(id),
        !model::terminals(s.panes).contains(id),
    ensures
        s.fitting() ==> s.complete_split(id, vertical, pid).app.fitting(),
{
    if s.fitting() {
        let a = s.active_index;
        let grown = AppView {
            root: s.root.with_leaf(
                s.active().id,
                layout_laws::split_node(s.active().id, id, vertical),
            ),
            panes: s.panes.insert(a + 1, AppView::new_pane(id, pid)),
            active_index: a + 1,
            full_redraw: true,
            ..s
        };
        model_lemmas::lemma_new_pane_wf(id, pid);
        model_lemmas::lemma_split_wf(s, grown, id, vertical);
        assert forall|k: int| 0 <= k < grown.panes.len() implies (
        #[trigger] grown.panes[k]).fitting() by {
            if k < a + 1 {
                assert(grown.panes[k] == s.panes[k]);
            } else if k > a + 1 {
                assert(grown.panes[k] == s.panes[k - 1]);
            }
        }
        lemma_relaid_fitting(grown);
    }
}

/// The same for an event of the outer terminal.
proof fn lemma_event_fitting(s: AppView, event: EventView)
    requires
        s.wf(),
        s.fitting(),
        s.panes.len() > 0,
    ensures
        s.handle_event(event).app.fitting(),
{
    match event {
        EventView::Resize { width, height } => {
            let sized = AppView {
                screen_width: width as int,
                screen_height: height as int,
                ..s
            };
            lemma_relaid_fitting(sized);
            assert(sized.filled().app.fitting());
        },
        EventView::Key { key, label } => {
            let noted = s.noted(label);
            assert(noted.wf() && noted.fitting());
            lemma_relaid_fitting(AppView { is_zoomed: false, full_redraw: true, ..noted });
            assert(noted.filled().app.fitting());
            if let Some(direction) = key.code.arrow() {
                let distances = focus::swap_distances(s.panes, s.active_index, direction);
                lemma_closest_exists(distances);
                if let Some(other) = focus::closest(distances) {
                    let swapped = noted.swapped(other);
                    model_lemmas::lemma_swap_wf(noted, other);
                    assert(swapped.fitting());
                    lemma_relaid_fitting(swapped);
                }
                lemma_moved_wf(noted, direction);
                lemma_relaid_fitting(AppView { root: noted.moved_boundary(direction), ..noted });
            }
        },
        EventView::Other => {},
    }
}

/// Moving a boundary keeps the state whole.
pub proof fn lemma_moved_wf(s: AppView, direction: Direction)
    requires
        s.wf(),
        s.panes.len() > 0,
    ensures
        (AppView { root: s.moved_boundary(direction), ..s }).wf(),
{
    let id = s.active().id;
    assert(model::ids(s.panes)[s.active_index] == id);
    let path = s.root.path_to(id);
    layout_laws::law_path_leads_to_pane(s.root, id);
    lemma_last_split(s.root, path, direction.horizontal(), path.len());
    if let Some(depth) = model::last_split(s.root, path, direction.horizontal(), path.len()) {
        let at = path.take(depth);
        layout_laws::lemma_ratio_at(s.root, at);
        let old_units = s.root.at_path(at)->split_ratio.units as nat;
        let units = ratio::stepped(old_units, direction.forward()) as u64;
        layout_laws::lemma_with_ratio(s.root, at, Ratio { units });
    }
}

/// The depth that `last_split` finds lies on the path.
proof fn lemma_last_split(root: LayoutNode, path: Seq<bool>, vertical: bool, n: nat)
    ensures
        model::last_split(root, path, vertical, n) matches Some(depth) ==> 0 <= depth < n,
    decreases n,
{
    if n > 0 {
        lemma_last_split(root, path, vertical, (n - 1) as nat);
    }
}

} // verus!
