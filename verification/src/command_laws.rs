//! What the commands do, in terms of what a user sees: which keys do what, which pane gets the
//! focus, which boundary moves and which programs are told of it.
use vstd::prelude::*;

use crate::action::ActionView;
use crate::event::{DrainView, EventView, PolledView};
use crate::focus;
use crate::geometry::{Area, Direction};
use crate::keys::{Key, KeyCode};
use crate::layout::LayoutNode;
use crate::layout_laws;
use crate::model;
use crate::model::AppView;
use crate::model_laws;
use crate::model_lemmas;
use crate::pane;
use crate::pane::PaneView;
use crate::ratio;
use crate::ratio::{Ratio, HALF};

verus! {

/// The key is an arrow.
pub open spec fn is_arrow(code: KeyCode) -> bool {
    code is Up || code is Down || code is Left || code is Right
}

/// The key is one that the multiplexer keeps for itself: Ctrl+V, Ctrl+H and Ctrl+B without Alt,
/// Ctrl+Space, and the arrows with Ctrl or with Alt and Shift.
pub open spec fn is_command(key: Key) -> bool {
    ||| key.ctrl && !key.alt && key.code == KeyCode::Char('v')
    ||| key.ctrl && !key.alt && key.code == KeyCode::Char('h')
    ||| key.ctrl && !key.alt && key.code == KeyCode::Char('b')
    ||| key.ctrl && key.code == KeyCode::Char(' ')
    ||| is_arrow(key.code) && (key.ctrl || (key.alt && key.shift))
}

/// The state in which only the last key is remembered, and only if keys are shown.
pub open spec fn key_seen(s: AppView, label: Seq<char>) -> AppView {
    AppView {
        last_key_code: if s.debug_mode {
            Some(label)
        } else {
            s.last_key_code
        },
        ..s
    }
}

/// Every key that is no command reaches the programs: its bytes are written once to every pane
/// while input is broadcast, in the order of the panes, and to the active pane otherwise. Nothing
/// else is asked for and nothing else changes. Backspace, Delete and Esc are written to the active
/// pane alone, as a single byte.
pub proof fn law_keys_reach_the_programs(s: AppView, key: Key, label: Seq<char>)
    requires
        s.wf(),
        s.panes.len() > 0,
        !is_command(key),
    ensures
        ({
            let step = s.handle_key(key, label);
            let active = s.panes[s.active_index].terminal;
            &&& step.app == key_seen(s, label)
            &&& key.code is Backspace || key.code is Delete ==> step.actions == seq![
                ActionView::Write { terminal: active, bytes: seq![0x7fu8] },
            ]
            &&& key.code is Esc ==> step.actions == seq![
                ActionView::Write { terminal: active, bytes: seq![0x1bu8] },
            ]
            &&& !(key.code is Backspace || key.code is Delete || key.code is Esc) ==> {
                &&& key.bytes().len() == 0 ==> step.actions.len() == 0
                &&& key.bytes().len() > 0 && !s.broadcast_mode ==> step.actions == seq![
                    ActionView::Write { terminal: active, bytes: key.bytes() },
                ]
                &&& key.bytes().len() > 0 && s.broadcast_mode ==> {
                    &&& step.actions.len() == s.panes.len()
                    &&& forall|i: int|
                        0 <= i < s.panes.len() ==> #[trigger] step.actions[i] == (
                        ActionView::Write { terminal: s.panes[i].terminal, bytes: key.bytes() })
                }
            }
        }),
{
}

/// No command writes anything to a program.
pub proof fn law_commands_write_nothing(s: AppView, key: Key, label: Seq<char>, i: int)
    requires
        s.wf(),
        is_command(key),
        0 <= i < s.handle_key(key, label).actions.len(),
    ensures
        !(s.handle_key(key, label).actions[i] is Write),
{
    let t = s.noted(label);
    lemma_notices_resize(t.panes, t.places(), t.panes.len());
    let unzoomed = AppView { is_zoomed: false, full_redraw: true, ..t };
    lemma_notices_resize(unzoomed.panes, unzoomed.places(), unzoomed.panes.len());
    if let Some(direction) = key.code.arrow() {
        let moved = AppView { root: t.moved_boundary(direction), ..t };
        lemma_notices_resize(moved.panes, moved.places(), moved.panes.len());
        let distances = focus::swap_distances(t.panes, t.active_index, direction);
        if let Some(other) = focus::closest(distances) {
            let swapped = t.swapped(other);
            lemma_notices_resize(swapped.panes, swapped.places(), swapped.panes.len());
        }
    }
}

/// What is asked when panes are given their places is always that a terminal be told its size.
proof fn lemma_notices_resize(
    panes: Seq<PaneView>,
    tiles: Seq<crate::layout::Tile>,
    n: nat,
)
    ensures
        forall|i: int|
            0 <= i < model::place_notices(panes, tiles, n).len() ==> #[trigger] model::place_notices(
                panes,
                tiles,
                n,
            )[i] is Resize,
    decreases n,
{
    if n > 0 {
        lemma_notices_resize(panes, tiles, (n - 1) as nat);
        let before = model::place_notices(panes, tiles, (n - 1) as nat);
        let all = model::place_notices(panes, tiles, n);
        assert forall|i: int| 0 <= i < all.len() implies #[trigger] all[i] is Resize by {
            if i < before.len() {
                assert(all[i] == before[i]);
            }
        }
    }
}

/// Whether a pane can be split depends on the length that is divided and on nothing else: outside
/// zoom a vertical split is begun exactly when the active pane is at least twice as wide as the
/// least width, whatever its height, and a horizontal one exactly when it is at least twice as
/// high as the least height, whatever its width. A split that is begun asks for one new terminal;
/// otherwise nothing is asked and nothing changes.
pub proof fn law_split_depends_on_the_divided_length(s: AppView, vertical: bool)
    requires
        s.wf(),
        s.panes.len() > 0,
    ensures
        ({
            let step = s.begin_split(vertical);
            let area = s.panes[s.active_index].area;
            let (length, least) = if vertical {
                (area.width, s.min_pane_width)
            } else {
                (area.height, s.min_pane_height)
            };
            if !s.is_zoomed && length >= 2 * least {
                &&& step.actions == seq![ActionView::Spawn { id: s.next_id as usize, vertical }]
                &&& step.app == AppView { next_id: s.next_id + 1, ..s }
            } else {
                &&& step.actions == Seq::<ActionView>::empty()
                &&& step.app == s
            }
        }),
{
}

/// Ctrl+V asks for a terminal to the right of the active pane and Ctrl+H for one below it, exactly
/// when there is room in that direction and no pane is zoomed.
pub proof fn law_split_keys_spawn_where_there_is_room(s: AppView, key: Key, label: Seq<char>)
    requires
        s.wf(),
        s.panes.len() > 0,
        key.ctrl,
        !key.alt,
        key.code == KeyCode::Char('v') || key.code == KeyCode::Char('h'),
    ensures
        ({
            let vertical = key.code == KeyCode::Char('v');
            let step = s.handle_key(key, label);
            let area = s.panes[s.active_index].area;
            let room = if vertical {
                area.width >= 2 * s.min_pane_width
            } else {
                area.height >= 2 * s.min_pane_height
            };
            &&& !s.is_zoomed && room ==> step.actions == seq![
                ActionView::Spawn { id: s.next_id as usize, vertical },
            ]
            &&& s.is_zoomed || !room ==> step.actions == Seq::<ActionView>::empty()
            &&& step.app == key_seen(
                AppView { next_id: s.next_id + step.actions.len(), ..s },
                label,
            )
        }),
{
}

/// The other commands: Ctrl+B switches the broadcast, Ctrl+Space the zoom, and the arrows move a
/// boundary with Ctrl and Shift, exchange terminals with Alt and Shift, and move the focus with
/// Ctrl, each in its own direction.
pub proof fn law_each_command_has_its_key(s: AppView, key: Key, label: Seq<char>)
    requires
        is_command(key),
    ensures
        ({
            let step = s.handle_key(key, label);
            let t = key_seen(s, label);
            let direction = if key.code is Up {
                Direction::Up
            } else if key.code is Down {
                Direction::Down
            } else if key.code is Left {
                Direction::Left
            } else {
                Direction::Right
            };
            &&& key.code == KeyCode::Char('b') ==> {
                &&& step.app == AppView {
                    broadcast_mode: !s.broadcast_mode,
                    full_redraw: true,
                    ..t
                }
                &&& step.actions == Seq::<ActionView>::empty()
            }
            &&& key.code == KeyCode::Char(' ') ==> step == t.toggle_maximize()
            &&& is_arrow(key.code) && key.ctrl && key.shift ==> step == t.resize_active(direction)
            &&& is_arrow(key.code) && !key.ctrl && key.alt && key.shift ==> step == t.swap_active(
                direction,
            )
            &&& is_arrow(key.code) && key.ctrl && !key.shift ==> {
                &&& step.app == t.navigate(direction)
                &&& step.actions == Seq::<ActionView>::empty()
            }
        }),
{
}

/// The number lies from `start` to just before `end`.
pub open spec fn within(at: int, start: int, end: int) -> bool {
    start <= at < end
}

/// Two stretches have a number in common.
pub open spec fn meet(a: int, a_end: int, b: int, b_end: int) -> bool {
    exists|at: int| #[trigger] within(at, a, a_end) && within(at, b, b_end)
}

/// Two stretches meet exactly where the lesser end is past the greater start.
proof fn lemma_meet(a: int, a_end: int, b: int, b_end: int)
    ensures
        meet(a, a_end, b, b_end) == (focus::lesser(a_end, b_end) - focus::greater(a, b) > 0),
{
    if focus::lesser(a_end, b_end) > focus::greater(a, b) {
        assert(within(focus::greater(a, b), a, a_end));
    }
}

/// The areas lie in the same rows, for a direction to the side, or in the same columns, for one up
/// or down: at least in one.
pub open spec fn level(from: Area, to: Area, direction: Direction) -> bool {
    match direction {
        Direction::Left | Direction::Right => meet(
            from.y,
            from.y + from.height,
            to.y,
            to.y + to.height,
        ),
        Direction::Up | Direction::Down => meet(from.x, from.x + from.width, to.x, to.x + to.width),
    }
}

/// How many columns or rows lie between two areas, from the edge of one to the facing edge of the
/// other.
pub open spec fn between(from: Area, to: Area, direction: Direction) -> int {
    match direction {
        Direction::Left => from.x - (to.x + to.width),
        Direction::Right => to.x - (from.x + from.width),
        Direction::Up => from.y - (to.y + to.height),
        Direction::Down => to.y - (from.y + from.height),
    }
}

/// How far apart the middles of two areas are, across a direction, in half columns or half rows.
pub open spec fn shift(from: Area, to: Area, direction: Direction) -> int {
    let twice = match direction {
        Direction::Left | Direction::Right => (2 * to.y + to.height) - (2 * from.y + from.height),
        Direction::Up | Direction::Down => (2 * to.x + to.width) - (2 * from.x + from.width),
    };
    if twice < 0 {
        -twice
    } else {
        twice
    }
}

/// Pane `i` lies from pane `a` in a direction: it begins where `a` ends or further on, or at most
/// one column or row before that, and the two are level.
pub open spec fn lies(s: AppView, a: int, i: int, direction: Direction) -> bool {
    &&& 0 <= i < s.panes.len()
    &&& i != a
    &&& between(s.panes[a].area, s.panes[i].area, direction) >= -1
    &&& level(s.panes[a].area, s.panes[i].area, direction)
}

/// Pane `i` touches pane `a` in a direction: the facing edges are at most one column or row off,
/// and the two are level.
pub open spec fn touches(s: AppView, a: int, i: int, direction: Direction) -> bool {
    &&& 0 <= i < s.panes.len()
    &&& i != a
    &&& -1 <= between(s.panes[a].area, s.panes[i].area, direction) <= 1
    &&& level(s.panes[a].area, s.panes[i].area, direction)
}

/// The focus moves to the nearest pane that lies in the direction, edge to edge, and to the first
/// of several equally near. It stays where no pane lies there and while a pane is zoomed. Nothing
/// else changes.
pub proof fn law_focus_goes_to_the_nearest_pane(s: AppView, direction: Direction)
    requires
        s.wf(),
        s.panes.len() > 0,
    ensures
        ({
            let a = s.active_index;
            let b = s.navigate(direction).active_index;
            &&& s.navigate(direction) == AppView { active_index: b, ..s }
            &&& s.is_zoomed ==> b == a
            &&& (forall|i: int| !#[trigger] lies(s, a, i, direction)) ==> b == a
            &&& !s.is_zoomed && (exists|i: int| #[trigger] lies(s, a, i, direction)) ==> {
                &&& lies(s, a, b, direction)
                &&& forall|i: int| #[trigger]
                    lies(s, a, i, direction) ==> {
                        let here = between(s.panes[a].area, s.panes[b].area, direction);
                        let there = between(s.panes[a].area, s.panes[i].area, direction);
                        here < there || (here == there && b <= i)
                    }
            }
        }),
{
    let a = s.active_index;
    let distances = focus::focus_distances(s.panes, a, direction);
    model_laws::law_focus_moves_to_the_closest(s, direction);
    assert forall|i: int| 0 <= i < s.panes.len() implies (#[trigger] distances[i]) == (if lies(
        s,
        a,
        i,
        direction,
    ) {
        Some(between(s.panes[a].area, s.panes[i].area, direction))
    } else {
        None
    }) by {
        lemma_level(s.panes[a].area, s.panes[i].area, direction);
    }
    let b = s.navigate(direction).active_index;
    assert forall|i: int| #[trigger] lies(s, a, i, direction) && !s.is_zoomed implies lies(
        s,
        a,
        b,
        direction,
    ) && {
        let here = between(s.panes[a].area, s.panes[b].area, direction);
        let there = between(s.panes[a].area, s.panes[i].area, direction);
        here < there || (here == there && b <= i)
    } by {
        assert(distances[i] is Some);
        assert(distances[b] is Some);
    }
}

/// Being level is having rows or columns in common.
proof fn lemma_level(from: Area, to: Area, direction: Direction)
    ensures
        level(from, to, direction) == focus::beside(from, to, direction),
        between(from, to, direction) == focus::gap(from, to, direction),
{
    lemma_meet(from.y, from.bottom(), to.y, to.bottom());
    lemma_meet(from.x, from.right(), to.x, to.right());
}

/// The terminal is exchanged with that of a pane that touches the active one in the direction, the
/// one whose middle is least off the middle of the active pane, and the first of several. Without
/// such a pane, and while one is zoomed, nothing changes and nothing is asked.
pub proof fn law_exchange_is_with_the_pane_in_line(s: AppView, direction: Direction)
    requires
        s.wf(),
        s.panes.len() > 0,
    ensures
        ({
            let a = s.active_index;
            let step = s.swap_active(direction);
            let b = step.app.active_index;
            &&& s.is_zoomed || (forall|i: int| !#[trigger] touches(s, a, i, direction)) ==> {
                &&& step.app == s
                &&& step.actions == Seq::<ActionView>::empty()
            }
            &&& !s.is_zoomed && (exists|i: int| #[trigger] touches(s, a, i, direction)) ==> {
                &&& touches(s, a, b, direction)
                &&& forall|i: int| #[trigger]
                    touches(s, a, i, direction) ==> {
                        let here = shift(s.panes[a].area, s.panes[b].area, direction) / 2;
                        let there = shift(s.panes[a].area, s.panes[i].area, direction) / 2;
                        here < there || (here == there && b <= i)
                    }
            }
        }),
{
    if !s.is_zoomed {
        let a = s.active_index;
        let distances = focus::swap_distances(s.panes, a, direction);
        model_laws::law_exchange_needs_a_neighbour(s, direction);
        assert forall|i: int| 0 <= i < s.panes.len() implies (#[trigger] distances[i]) == (
        if touches(s, a, i, direction) {
            Some(shift(s.panes[a].area, s.panes[i].area, direction) / 2)
        } else {
            None
        }) by {
            lemma_level(s.panes[a].area, s.panes[i].area, direction);
        }
        let b = s.swap_active(direction).app.active_index;
        assert forall|i: int| #[trigger] touches(s, a, i, direction) implies touches(
            s,
            a,
            b,
            direction,
        ) && {
            let here = shift(s.panes[a].area, s.panes[b].area, direction) / 2;
            let there = shift(s.panes[a].area, s.panes[i].area, direction) / 2;
            here < there || (here == there && b <= i)
        } by {
            assert(distances[i] is Some);
            assert(distances[b] is Some);
        }
        if forall|i: int| !#[trigger] touches(s, a, i, direction) {
            assert forall|i: int| 0 <= i < s.panes.len() implies (#[trigger] distances[i]) is None by {
                assert(!touches(s, a, i, direction));
            }
            assert(focus::closest(distances) is None);
        }
    }
}

/// The split to which the first `d` steps of a path lead divides its area the way that moves in
/// the direction change: left and right those side by side, up and down those above each other.
pub open spec fn divides(root: LayoutNode, path: Seq<bool>, d: int, direction: Direction) -> bool {
    match root.at_path(path.take(d)) {
        LayoutNode::Split { is_vertical, .. } => is_vertical == (direction is Left
            || direction is Right),
        LayoutNode::Leaf { .. } => false,
    }
}

/// The path leads to the active pane.
pub open spec fn leads_to_active(s: AppView, path: Seq<bool>) -> bool {
    s.root.has_path(path) && s.root.at_path(path) == (LayoutNode::Leaf {
        pane: s.panes[s.active_index].id,
    })
}

/// Every pane of the tree would have at least the least width and the least height.
pub open spec fn large_enough(s: AppView, root: LayoutNode) -> bool {
    forall|i: int|
        0 <= i < root.panes().len() ==> (#[trigger] root.tiles(field(s))[i]).area.width
            >= s.min_pane_width && root.tiles(field(s))[i].area.height >= s.min_pane_height
}

/// What is divided among the panes: all columns, and the rows that the two of the footer leave,
/// or one if they leave none.
pub open spec fn field(s: AppView) -> Area {
    let rows = s.screen_height - (if s.no_instructions {
        0int
    } else {
        2
    });
    Area {
        x: 0,
        y: 0,
        width: s.screen_width,
        height: if rows < 1 {
            1
        } else {
            rows
        },
    }
}

/// The boundary that a move changes is that of the deepest split around the active pane that
/// divides its area in that direction: the split at depth `d` of the path to the active pane, if
/// none further down the path divides that way. Its ratio alone changes, by one step towards the
/// direction, unless that would make a pane too small. Every pane outside that split stays exactly
/// as it is.
pub proof fn law_resize_moves_the_deepest_boundary(
    s: AppView,
    direction: Direction,
    path: Seq<bool>,
    d: int,
)
    requires
        s.wf(),
        s.panes.len() > 0,
        !s.is_zoomed,
        leads_to_active(s, path),
        0 <= d < path.len(),
        divides(s.root, path, d, direction),
        forall|e: int| d < e < path.len() ==> !#[trigger] divides(s.root, path, e, direction),
    ensures
        ({
            let after = s.resize_active(direction).app;
            let split = s.root.at_path(path.take(d));
            let grow = direction is Right || direction is Down;
            let units = ratio::stepped(split->split_ratio.units as nat, grow) as u64;
            let moved = s.root.with_path(
                path.take(d),
                LayoutNode::Split {
                    is_vertical: split->is_vertical,
                    split_ratio: Ratio { units },
                    left: split->left,
                    right: split->right,
                },
            );
            &&& after.root == (if large_enough(s, moved) {
                moved
            } else {
                s.root
            })
            &&& in_place(s) ==> forall|i: int|
                0 <= i < s.panes.len() && !split.panes().contains(s.panes[i].id)
                    ==> #[trigger] after.panes[i] == s.panes[i]
            &&& split.panes().contains(s.panes[s.active_index].id)
        }),
{
    let id = s.panes[s.active_index].id;
    let at = path.take(d);
    let split = s.root.at_path(at);
    layout_laws::lemma_one_way(s.root, path, id);
    layout_laws::law_path_leads_to_pane(s.root, id);
    assert forall|e: int| 0 <= e < path.len() implies s.root.at_path(#[trigger] path.take(e)) is Split by {}
    assert forall|e: int| d < e < path.len() implies (#[trigger] s.root.at_path(
        path.take(e),
    ))->is_vertical != direction.horizontal() by {
        assert(!divides(s.root, path, e, direction));
    }
    lemma_deepest(s.root, path, direction.horizontal(), path.len(), d);
    let after = s.resize_active(direction).app;
    let moved = AppView { root: s.moved_boundary(direction), ..s };
    assert(after == moved.relaid());
    assert(s.root.has_path(at));
    lemma_large_enough(
        s,
        s.root.with_ratio(
            at,
            Ratio {
                units: ratio::stepped(
                    split->split_ratio.units as nat,
                    direction.forward(),
                ) as u64,
            },
        ),
    );
    lemma_below(s.root, path, d);
    if in_place(s) {
        lemma_in_place(s);
        assert forall|i: int|
            0 <= i < s.panes.len() && !split.panes().contains(s.panes[i].id) implies (
        #[trigger] after.panes[i]) == s.panes[i] by {
            let area = s.layout_area();
            let new = split.at_ratio(Ratio { units: ratio::stepped(
                split->split_ratio.units as nat,
                direction.forward(),
            ) as u64 });
            assert(model::ids(s.panes)[i] == s.panes[i].id);
            assert(new.panes() == split.panes());
            let k = layout_laws::law_other_tiles_stay(s.root, at, new, area, i);
            assert(k == i);
            assert(s.panes[i].area == s.places()[i].area);
            assert(moved.places()[i].area == s.places()[i].area);
        }
    }
}

/// Being large enough is being roomy.
pub proof fn lemma_large_enough(s: AppView, root: LayoutNode)
    ensures
        large_enough(s, root) == s.roomy(root),
{
    layout_laws::law_tiles_follow_panes(root, field(s));
    assert(field(s) == s.layout_area());
}

/// Where no split around the active pane divides its area in that direction, the move changes
/// nothing, and neither does any move while a pane is zoomed.
pub proof fn law_resize_needs_a_boundary(s: AppView, direction: Direction, path: Seq<bool>)
    requires
        s.wf(),
        s.panes.len() > 0,
        leads_to_active(s, path),
        s.is_zoomed || forall|e: int|
            0 <= e < path.len() ==> !#[trigger] divides(s.root, path, e, direction),
    ensures
        s.resize_active(direction).app.root == s.root,
        s.is_zoomed ==> {
            &&& s.resize_active(direction).app == s
            &&& s.resize_active(direction).actions == Seq::<ActionView>::empty()
        },
{
    if !s.is_zoomed {
        let id = s.panes[s.active_index].id;
        layout_laws::lemma_one_way(s.root, path, id);
        layout_laws::law_path_leads_to_pane(s.root, id);
        assert forall|e: int| 0 <= e < path.len() implies s.root.at_path(#[trigger] path.take(e)) is Split by {}
        assert forall|e: int| 0 <= e < path.len() implies (#[trigger] s.root.at_path(
            path.take(e),
        ))->is_vertical != direction.horizontal() by {
            assert(!divides(s.root, path, e, direction));
        }
        lemma_no_split(s.root, path, direction.horizontal(), path.len());
    }
}

/// The last split of a direction is the one after which there is none.
proof fn lemma_deepest(root: LayoutNode, path: Seq<bool>, vertical: bool, n: nat, d: int)
    requires
        0 <= d < n <= path.len(),
        root.at_path(path.take(d))->is_vertical == vertical,
        forall|e: int|
            d < e < n ==> (#[trigger] root.at_path(path.take(e)))->is_vertical != vertical,
    ensures
        model::last_split(root, path, vertical, n) == Some(d),
    decreases n,
{
    if n - 1 > d {
        assert(root.at_path(path.take(n - 1))->is_vertical != vertical);
        lemma_deepest(root, path, vertical, (n - 1) as nat, d);
    }
}

/// Where no split has the direction there is no last one.
proof fn lemma_no_split(root: LayoutNode, path: Seq<bool>, vertical: bool, n: nat)
    requires
        n <= path.len(),
        forall|e: int|
            0 <= e < n ==> (#[trigger] root.at_path(path.take(e)))->is_vertical != vertical,
    ensures
        model::last_split(root, path, vertical, n) is None,
    decreases n,
{
    if n > 0 {
        assert(root.at_path(path.take(n - 1))->is_vertical != vertical);
        lemma_no_split(root, path, vertical, (n - 1) as nat);
    }
}

/// What a path leads to is below every node on the way.
proof fn lemma_below(root: LayoutNode, path: Seq<bool>, d: int)
    requires
        root.has_path(path),
        root.at_path(path) is Leaf,
        0 <= d <= path.len(),
    ensures
        root.at_path(path.take(d)).panes().contains(root.at_path(path)->pane),
    decreases root,
{
    broadcast use vstd::seq_lib::lemma_seq_concat_contains_all_elements;

    let id = root.at_path(path)->pane;
    assert(seq![id][0] == id);
    if path.len() > 0 {
        if let LayoutNode::Split { left, right, .. } = root {
            let rest = path.drop_first();
            let below = if path[0] {
                *right
            } else {
                *left
            };
            if d > 0 {
                assert(path.take(d).drop_first() =~= rest.take(d - 1));
                lemma_below(below, rest, d - 1);
            } else {
                lemma_below(below, rest, 0);
                assert(rest.take(0).len() == 0);
                assert(path.take(0).len() == 0);
            }
        }
    }
}

/// Every pane is where the layout tree puts it on the rows that the footer leaves, with two
/// columns and two rows at least for its border.
pub open spec fn in_place(s: AppView) -> bool {
    forall|i: int|
        0 <= i < s.panes.len() ==> (#[trigger] s.panes[i]).area == at_least_two(
            s.root.tiles(field(s))[i].area,
        )
}

/// The area with two columns and two rows at least.
pub open spec fn at_least_two(area: Area) -> Area {
    Area {
        x: area.x,
        y: area.y,
        width: if area.width < 2 {
            2
        } else {
            area.width
        },
        height: if area.height < 2 {
            2
        } else {
            area.height
        },
    }
}

/// Being in place is being settled.
pub proof fn lemma_in_place(s: AppView)
    requires
        s.wf(),
        s.panes.len() > 0,
    ensures
        in_place(s) == model_laws::settled(s),
{
    model_lemmas::lemma_places_near(s);
    layout_laws::law_tiles_follow_panes(s.root, s.layout_area());
    assert(model::ids(s.panes).len() == s.panes.len());
    if in_place(s) {
        assert forall|i: int| 0 <= i < s.panes.len() implies (#[trigger] s.panes[i]).area
            == s.places()[i].area by {}
    }
    if model_laws::settled(s) {
        assert forall|i: int| 0 <= i < s.panes.len() implies (#[trigger] s.panes[i]).area
            == at_least_two(s.root.tiles(s.layout_area())[i].area) by {
            assert(s.panes[i].area == s.places()[i].area);
        }
    }
}

/// Closing the pane at `i` leaves the focus at its index as long as there is a pane there, and
/// moves it to the last pane otherwise. So closing a pane after the focused one leaves the focus on
/// the same pane and terminal. All other panes keep their number, program, terminal and output; a
/// zoom ends, and no mode changes.
pub proof fn law_close_leaves_the_focus_index(s: AppView, i: int)
    requires
        s.wf(),
        0 <= i < s.panes.len(),
        s.panes.len() > 1,
    ensures
        ({
            let after = s.remove_pane(s.panes[i].id).app;
            let a = s.active_index;
            let n = s.panes.len() - 1;
            &&& after.panes.len() == n
            &&& after.active_index == (if a < n {
                a
            } else {
                n - 1
            })
            &&& i > a ==> {
                &&& after.panes[after.active_index].id == s.panes[a].id
                &&& after.panes[after.active_index].terminal == s.panes[a].terminal
            }
            &&& forall|k: int|
                0 <= k < n ==> same_terminal(
                    #[trigger] after.panes[k],
                    s.panes[if k < i {
                        k
                    } else {
                        k + 1
                    }],
                )
            &&& after == AppView {
                panes: after.panes,
                active_index: after.active_index,
                root: after.root,
                is_zoomed: false,
                full_redraw: true,
                ..s
            }
        }),
{
    lemma_found(s, i);
}

/// The pane is the same, with the same terminal in it, though it may have another place.
pub open spec fn same_terminal(a: PaneView, b: PaneView) -> bool {
    a.id == b.id && a.pid == b.pid && a.terminal == b.terminal && a.output == b.output
}

/// A pane is found by its number.
proof fn lemma_found(s: AppView, i: int)
    requires
        s.wf(),
        0 <= i < s.panes.len(),
    ensures
        model::ids(s.panes).contains(s.panes[i].id),
        model::ids(s.panes).index_of(s.panes[i].id) == i,
        s.remove_pane(s.panes[i].id) == s.remove_at(i),
{
    let ids = model::ids(s.panes);
    assert(ids[i] == s.panes[i].id);
    assert(ids.contains(s.panes[i].id));
    assert(ids.no_duplicates());
}

/// Closing the last pane leaves none and asks for nothing but its end. A number that no pane has
/// closes nothing.
pub proof fn law_close_ends_one_program(s: AppView, id: usize, i: int)
    requires
        s.wf(),
        0 <= i < s.panes.len(),
    ensures
        ({
            let step = s.remove_pane(s.panes[i].id);
            &&& step.actions.len() > 0
            &&& step.actions[0] == (ActionView::Close { terminal: s.panes[i].terminal })
            &&& forall|k: int| 1 <= k < step.actions.len() ==> #[trigger] step.actions[k] is Resize
            &&& s.panes.len() == 1 ==> step.actions.len() == 1 && step.app.panes.len() == 0
        }),
        (forall|k: int| 0 <= k < s.panes.len() ==> (#[trigger] s.panes[k]).id != id) ==> {
            &&& s.remove_pane(id).app == s
            &&& s.remove_pane(id).actions == Seq::<ActionView>::empty()
        },
{
    lemma_found(s, i);
    let closed = s.closed_at(i);
    lemma_notices_resize(closed.panes, closed.places(), closed.panes.len());
    if forall|k: int| 0 <= k < s.panes.len() ==> (#[trigger] s.panes[k]).id != id {
        let ids = model::ids(s.panes);
        assert forall|k: int| 0 <= k < ids.len() implies #[trigger] ids[k] != id by {
            assert(ids[k] == s.panes[k].id);
        }
    }
}

/// Closing a pane gives its room to the other part of the split it was in: in the tree that part
/// stands where the split stood. Every pane outside that split stays exactly as it is.
pub proof fn law_close_gives_the_room_to_the_other_part(
    s: AppView,
    i: int,
    path: Seq<bool>,
    other: LayoutNode,
)
    requires
        s.wf(),
        0 <= i < s.panes.len(),
        s.root.has_path(path),
        s.root.at_path(path) matches LayoutNode::Split { left, right, .. } && {
            ||| *left == (LayoutNode::Leaf { pane: s.panes[i].id }) && *right == other
            ||| *right == (LayoutNode::Leaf { pane: s.panes[i].id }) && *left == other
        },
    ensures
        ({
            let after = s.remove_pane(s.panes[i].id).app;
            &&& after.root == s.root.with_path(path, other)
            &&& after.panes.len() == s.panes.len() - 1
            &&& in_place(after)
            &&& in_place(s) ==> forall|k: int|
                0 <= k < after.panes.len() && !s.root.at_path(path).panes().contains(
                    (#[trigger] after.panes[k]).id,
                ) ==> after.panes[k] == s.panes[if k < i {
                    k
                } else {
                    k + 1
                }]
        }),
{
    let id = s.panes[i].id;
    lemma_found(s, i);
    layout_laws::law_the_other_part_takes_the_place(s.root, path, id, other);
    lemma_two_panes(s.root, path);
    assert(model::ids(s.panes).len() == s.panes.len());
    model_lemmas::lemma_remove_wf(s, i);
    let closed = s.closed_at(i);
    let after = closed.relaid();
    model_lemmas::lemma_relaid_wf(closed);
    model_laws::law_layout_settles(closed);
    lemma_in_place(after);
    let split = s.root.at_path(path);
    if in_place(s) {
        lemma_in_place(s);
        assert forall|k: int|
            0 <= k < after.panes.len() && !split.panes().contains(
                (#[trigger] after.panes[k]).id,
            ) implies after.panes[k] == s.panes[if k < i {
            k
        } else {
            k + 1
        }] by {
            let j = if k < i {
                k
            } else {
                k + 1
            };
            let area = s.layout_area();
            assert(closed.panes[k] == s.panes[j]);
            assert(model::ids(s.panes)[j] == s.panes[j].id);
            let m = layout_laws::law_other_tiles_stay(s.root, path, other, area, j);
            layout_laws::law_tiles_follow_panes(s.root, area);
            layout_laws::law_tiles_follow_panes(closed.root, area);
            let ids = model::ids(closed.panes);
            assert(closed.root.panes()[m] == s.panes[j].id);
            assert(ids[m] == ids[k]);
            assert(m == k);
            assert(s.panes[j].area == s.places()[j].area);
            assert(closed.places()[k].area == s.places()[j].area);
        }
    }
}

/// A tree with a split in it has two panes at least.
proof fn lemma_two_panes(node: LayoutNode, path: Seq<bool>)
    requires
        node.has_path(path),
        node.at_path(path) is Split,
    ensures
        node.panes().len() >= 2,
    decreases node,
{
    if let LayoutNode::Split { left, right, .. } = node {
        let area = Area { x: 0, y: 0, width: 0, height: 0 };
        layout_laws::law_tiles_follow_panes(*left, area);
        layout_laws::law_tiles_follow_panes(*right, area);
    }
}

/// A split that has been begun halves the active pane, in columns or in rows: the terminal that
/// was there keeps the first half, rounded down, and the new one gets what is left, to the right
/// or below, and the focus. No other pane changes.
pub proof fn law_split_halves_the_active_pane(s: AppView, id: usize, vertical: bool, pid: u32)
    requires
        s.wf(),
        s.panes.len() > 0,
        in_place(s),
        s.begin_split(vertical).actions.len() > 0,
        id < s.next_id,
        !model::ids(s.panes).contains(id),
        !model::terminals(s.panes).contains(id),
    ensures
        ({
            let after = s.complete_split(id, vertical, pid).app;
            let a = s.active_index;
            let area = s.panes[a].area;
            let (half_width, half_height) = (area.width / 2, area.height / 2);
            &&& after.panes.len() == s.panes.len() + 1
            &&& after.active_index == a + 1
            &&& same_terminal(after.panes[a], s.panes[a])
            &&& after.panes[a + 1].id == id
            &&& after.panes[a + 1].terminal == id
            &&& after.panes[a + 1].pid == pid
            &&& after.panes[a + 1].output.len() == 0
            &&& vertical ==> {
                &&& after.panes[a].area == Area { width: half_width, ..area }
                &&& after.panes[a + 1].area == Area {
                    x: area.x + half_width,
                    width: area.width - half_width,
                    ..area
                }
            }
            &&& !vertical ==> {
                &&& after.panes[a].area == Area { height: half_height, ..area }
                &&& after.panes[a + 1].area == Area {
                    y: area.y + half_height,
                    height: area.height - half_height,
                    ..area
                }
            }
            &&& forall|i: int| 0 <= i < a ==> #[trigger] after.panes[i] == s.panes[i]
            &&& forall|i: int|
                a + 1 < i < after.panes.len() ==> #[trigger] after.panes[i] == s.panes[i - 1]
            &&& after == AppView {
                panes: after.panes,
                active_index: a + 1,
                root: after.root,
                full_redraw: true,
                ..s
            }
        }),
{
    lemma_in_place(s);
    model_laws::law_split_divides_the_active_pane(s, id, vertical, pid);
    layout_laws::law_split_halves(vertical, s.panes[s.active_index].area);
    assert(PaneView::near(s.panes[s.active_index].area));
}

/// In the tree a split puts two leaves in place of one: where the leaf of the active pane was,
/// there is a split in the middle, with the old pane first and the new one second, and everything
/// else is as it was.
pub proof fn law_split_puts_two_leaves_in_place_of_one(
    s: AppView,
    path: Seq<bool>,
    id: usize,
    vertical: bool,
    pid: u32,
)
    requires
        s.wf(),
        s.panes.len() > 0,
        leads_to_active(s, path),
    ensures
        s.complete_split(id, vertical, pid).app.root == s.root.with_path(
            path,
            LayoutNode::Split {
                is_vertical: vertical,
                split_ratio: Ratio { units: HALF },
                left: Box::new(LayoutNode::Leaf { pane: s.panes[s.active_index].id }),
                right: Box::new(LayoutNode::Leaf { pane: id }),
            },
        ),
        2 * HALF == ratio::ONE,
{
    layout_laws::law_a_leaf_is_replaced_in_place(
        s.root,
        path,
        s.panes[s.active_index].id,
        layout_laws::split_node(s.panes[s.active_index].id, id, vertical),
    );
}

/// Zooming gives the active pane all columns and all rows but the two of the footer, and leaves the
/// others as they are; it is the same pane with the same terminal. Zooming again puts every pane
/// in its place.
pub proof fn law_zoom_takes_the_whole_screen(s: AppView)
    requires
        s.wf(),
        s.panes.len() > 0,
    ensures
        ({
            let step = s.toggle_maximize();
            let a = s.active_index;
            let rows = s.screen_height - (if s.no_instructions {
                0int
            } else {
                2
            });
            &&& step.app == AppView {
                panes: step.app.panes,
                is_zoomed: !s.is_zoomed,
                full_redraw: true,
                ..s
            }
            &&& step.app.panes.len() == s.panes.len()
            &&& !s.is_zoomed ==> {
                &&& step.app.panes[a].area == (Area {
                    x: 0,
                    y: 0,
                    width: s.screen_width,
                    height: if rows < 0 {
                        0
                    } else {
                        rows
                    },
                })
                &&& forall|i: int|
                    0 <= i < s.panes.len() && i != a ==> #[trigger] step.app.panes[i] == s.panes[i]
            }
            &&& s.is_zoomed ==> in_place(step.app)
            &&& forall|i: int|
                0 <= i < s.panes.len() ==> same_terminal(#[trigger] step.app.panes[i], s.panes[i])
        }),
{
    if s.is_zoomed {
        let t = AppView { is_zoomed: false, full_redraw: true, ..s };
        model_lemmas::lemma_relaid_wf(t);
        model_laws::law_layout_settles(t);
        lemma_in_place(t.relaid());
    }
}

/// While a pane is zoomed, no other command on panes does anything: the focus and the boundaries
/// stay, no terminals are exchanged, and no split is begun.
pub proof fn law_zoom_holds_everything(s: AppView, direction: Direction, vertical: bool)
    requires
        s.is_zoomed,
    ensures
        s.navigate(direction) == s,
        s.swap_active(direction).app == s,
        s.swap_active(direction).actions == Seq::<ActionView>::empty(),
        s.resize_active(direction).app == s,
        s.resize_active(direction).actions == Seq::<ActionView>::empty(),
        s.begin_split(vertical).app == s,
        s.begin_split(vertical).actions == Seq::<ActionView>::empty(),
{
}

/// The panes are where they belong: the one that is zoomed fills the screen but for the footer,
/// and without zoom all are in place.
pub open spec fn well_placed(s: AppView) -> bool {
    if s.is_zoomed {
        let rows = s.screen_height - (if s.no_instructions {
            0int
        } else {
            2
        });
        s.panes[s.active_index].area == (Area {
            x: 0,
            y: 0,
            width: s.screen_width,
            height: if rows < 0 {
                0
            } else {
                rows
            },
        })
    } else {
        in_place(s)
    }
}

/// Whatever key is pressed and whatever size the outer terminal gets, the panes are where they
/// belong afterwards if they were before; after a change of size they are so in any case, on a
/// screen of that size.
pub proof fn law_events_leave_panes_well_placed(s: AppView, event: EventView)
    requires
        s.wf(),
        s.panes.len() > 0,
    ensures
        ({
            let after = s.handle_event(event).app;
            &&& well_placed(s) || event is Resize ==> well_placed(after)
            &&& event matches EventView::Resize { width, height } ==> after == AppView {
                panes: after.panes,
                screen_width: width as int,
                screen_height: height as int,
                full_redraw: true,
                ..s
            }
        }),
{
    match event {
        EventView::Resize { width, height } => {
            lemma_size_well_placed(s, width as int, height as int);
        },
        EventView::Key { key, label } => {
            if well_placed(s) {
                let t = s.noted(label);
                lemma_same_places(s, t);
                lemma_key_well_placed(t, key);
            }
        },
        EventView::Other => {},
    }
}

/// Another size of the outer terminal leaves the panes where they belong.
proof fn lemma_size_well_placed(s: AppView, width: int, height: int)
    requires
        s.wf(),
        s.panes.len() > 0,
        0 <= width <= 65535,
        0 <= height <= 65535,
    ensures
        well_placed(s.handle_resize(width, height).app),
{
    let sized = AppView { screen_width: width, screen_height: height, ..s };
    if !s.is_zoomed {
        lemma_relaid_in_place(sized);
        lemma_same_places(sized.relaid(), s.handle_resize(width, height).app);
    }
}

/// A key leaves the panes where they belong.
proof fn lemma_key_well_placed(s: AppView, key: Key)
    requires
        s.wf(),
        s.panes.len() > 0,
        well_placed(s),
    ensures
        well_placed(s.key(key).app),
{
    if let Some(direction) = key.code.arrow() {
        if key.ctrl && key.shift {
            lemma_moved_well_placed(s, direction);
        } else if key.alt && key.shift {
            lemma_swapped_well_placed(s, direction);
        } else {
            lemma_same_places(s, s.key(key).app);
        }
    } else if key.code == KeyCode::Char(' ') && key.ctrl {
        lemma_zoom_well_placed(s);
    } else {
        lemma_same_places(s, s.key(key).app);
    }
}

/// Where the panes belong depends on the tree, the screen and the zoom only.
proof fn lemma_same_places(s: AppView, t: AppView)
    requires
        well_placed(s),
        t.panes == s.panes,
        t.root == s.root,
        t.no_instructions == s.no_instructions,
        t.screen_width == s.screen_width,
        t.screen_height == s.screen_height,
        t.is_zoomed == s.is_zoomed,
        s.is_zoomed ==> t.active_index == s.active_index,
    ensures
        well_placed(t),
{
    assert(field(t) == field(s));
}

/// Zooming leaves the panes where they belong.
proof fn lemma_zoom_well_placed(s: AppView)
    requires
        s.wf(),
        s.panes.len() > 0,
    ensures
        well_placed(s.toggle_maximize().app),
{
    law_zoom_takes_the_whole_screen(s);
}

/// Moving a boundary leaves the panes where they belong.
proof fn lemma_moved_well_placed(s: AppView, direction: Direction)
    requires
        s.wf(),
        s.panes.len() > 0,
        well_placed(s),
    ensures
        well_placed(s.resize_active(direction).app),
{
    if !s.is_zoomed {
        model_laws::lemma_moved_wf(s, direction);
        lemma_relaid_in_place(AppView { root: s.moved_boundary(direction), ..s });
    }
}

/// Exchanging terminals leaves the panes where they belong.
proof fn lemma_swapped_well_placed(s: AppView, direction: Direction)
    requires
        s.wf(),
        s.panes.len() > 0,
        well_placed(s),
    ensures
        well_placed(s.swap_active(direction).app),
{
    if !s.is_zoomed {
        let distances = focus::swap_distances(s.panes, s.active_index, direction);
        if let Some(other) = focus::closest(distances) {
            assert(focus::is_closest(distances, other));
            model_lemmas::lemma_swap_wf(s, other);
            lemma_relaid_in_place(s.swapped(other));
        }
    }
}

/// Giving every pane its place puts it in place.
proof fn lemma_relaid_in_place(s: AppView)
    requires
        s.wf(),
        s.panes.len() > 0,
    ensures
        in_place(s.relaid()),
{
    model_lemmas::lemma_relaid_wf(s);
    model_laws::law_layout_settles(s);
    lemma_in_place(s.relaid());
}

/// What the border leaves of `n` columns or rows: two less, but at least one and at most what a
/// terminal can have.
pub open spec fn room(n: int) -> int {
    if n < 3 {
        1
    } else if n > 65537 {
        65535
    } else {
        n - 2
    }
}

/// The notice to a terminal of the size of the pane it is shown in.
pub open spec fn told(terminal: usize, area: Area) -> ActionView {
    ActionView::Resize {
        terminal,
        rows: room(area.height) as u16,
        cols: room(area.width) as u16,
    }
}

/// The border leaves other rows or other columns of one area than of the other.
pub open spec fn other_room(a: Area, b: Area) -> bool {
    room(a.height) != room(b.height) || room(a.width) != room(b.width)
}

/// Exactly those terminals are told their size whose panes have another room inside the border
/// than before, and they are told that room.
pub open spec fn tells(
    actions: Seq<ActionView>,
    before: Seq<PaneView>,
    after: Seq<PaneView>,
) -> bool {
    &&& after.len() == before.len()
    &&& forall|i: int|
        0 <= i < after.len() && other_room(before[i].area, (#[trigger] after[i]).area)
            ==> actions.contains(told(after[i].terminal, after[i].area))
    &&& forall|k: int|
        0 <= k < actions.len() ==> exists|i: int|
            0 <= i < after.len() && other_room(before[i].area, (#[trigger] after[i]).area)
                && #[trigger] actions[k] == told(after[i].terminal, after[i].area)
}

/// Giving the panes their places tells the terminals.
proof fn lemma_relay_tells(s: AppView)
    requires
        s.wf(),
        s.panes.len() > 0,
    ensures
        tells(s.relay().actions, s.panes, s.relay().app.panes),
{
    lemma_told(s, s.panes.len());
}

/// The same for the first `n` panes.
proof fn lemma_told(s: AppView, n: nat)
    requires
        n <= s.panes.len(),
    ensures
        ({
            let actions = model::place_notices(s.panes, s.places(), n);
            let after = model::in_places(s.panes, s.places());
            &&& forall|i: int|
                0 <= i < n && other_room(s.panes[i].area, (#[trigger] after[i]).area)
                    ==> actions.contains(told(after[i].terminal, after[i].area))
            &&& forall|k: int|
                0 <= k < actions.len() ==> exists|i: int|
                    0 <= i < n && other_room(s.panes[i].area, (#[trigger] after[i]).area)
                        && #[trigger] actions[k] == told(after[i].terminal, after[i].area)
        }),
    decreases n,
{
    if n > 0 {
        let m = (n - 1) as nat;
        lemma_told(s, m);
        let earlier = model::place_notices(s.panes, s.places(), m);
        let actions = model::place_notices(s.panes, s.places(), n);
        let after = model::in_places(s.panes, s.places());
        assert(after[m as int].area == s.places()[m as int].area);
        assert forall|i: int|
            0 <= i < n && other_room(s.panes[i].area, (#[trigger] after[i]).area) implies actions.contains(
            told(after[i].terminal, after[i].area),
        ) by {
            let notice = told(after[i].terminal, after[i].area);
            if i < m {
                assert(earlier.contains(notice));
                let k = choose|k: int| 0 <= k < earlier.len() && earlier[k] == notice;
                assert(actions[k] == notice);
            } else {
                assert(actions[earlier.len() as int] == notice);
            }
        }
        assert forall|k: int| 0 <= k < actions.len() implies exists|i: int|
            0 <= i < n && other_room(s.panes[i].area, (#[trigger] after[i]).area)
                && #[trigger] actions[k] == told(after[i].terminal, after[i].area) by {
            if k < earlier.len() {
                assert(actions[k] == earlier[k]);
                let i = choose|i: int|
                    0 <= i < m && other_room(s.panes[i].area, (#[trigger] after[i]).area)
                        && earlier[k] == told(after[i].terminal, after[i].area);
                assert(other_room(s.panes[i].area, after[i].area));
            } else {
                assert(actions[k] == told(after[m as int].terminal, after[m as int].area));
            }
        }
    }
}

/// Whenever panes are moved, exactly the terminals whose room has changed are told so: when a
/// boundary is moved, a zoom begins or ends, or the outer terminal gets another size.
pub proof fn law_terminals_are_told_their_room(
    s: AppView,
    direction: Direction,
    width: u16,
    height: u16,
)
    requires
        s.wf(),
        s.panes.len() > 0,
    ensures
        ({
            let moved = s.resize_active(direction);
            let zoomed = s.toggle_maximize();
            let resized = s.handle_resize(width as int, height as int);
            &&& tells(moved.actions, s.panes, moved.app.panes)
            &&& tells(zoomed.actions, s.panes, zoomed.app.panes)
            &&& tells(resized.actions, s.panes, resized.app.panes)
        }),
{
    model_laws::lemma_moved_wf(s, direction);
    lemma_relay_tells(AppView { root: s.moved_boundary(direction), ..s });
    lemma_relay_tells(AppView { is_zoomed: false, full_redraw: true, ..s });
    let sized = AppView { screen_width: width as int, screen_height: height as int, ..s };
    lemma_relay_tells(sized);
    lemma_filled_tells(s);
    lemma_filled_tells(sized);
}

/// Filling the screen with the active pane tells its terminal.
proof fn lemma_filled_tells(s: AppView)
    requires
        s.wf(),
        s.panes.len() > 0,
    ensures
        tells(s.filled().actions, s.panes, s.filled().app.panes),
{
    let a = s.active_index;
    let after = s.filled().app.panes;
    let actions = s.filled().actions;
    let notice = told(after[a].terminal, after[a].area);
    if other_room(s.panes[a].area, after[a].area) {
        assert(actions =~= seq![notice]);
        assert(actions[0] == notice);
    } else {
        assert(actions =~= Seq::<ActionView>::empty());
    }
}

/// A new terminal is told its room unless it is the one that it was started with, 22 rows and 78
/// columns, and the terminals of the other panes are told theirs if it has changed.
pub proof fn law_split_tells_the_terminals(s: AppView, id: usize, vertical: bool, pid: u32)
    requires
        s.wf(),
        s.panes.len() > 0,
        id < s.next_id,
        !model::ids(s.panes).contains(id),
        !model::terminals(s.panes).contains(id),
    ensures
        ({
            let step = s.complete_split(id, vertical, pid);
            let a = s.active_index;
            exists|new: PaneView|
                new.area == (Area { x: 0, y: 0, width: 80, height: 24 }) && tells(
                    step.actions,
                    #[trigger] s.panes.insert(a + 1, new),
                    step.app.panes,
                )
        }),
{
    let a = s.active_index;
    let new = AppView::new_pane(id, pid);
    let grown = AppView {
        root: s.root.with_leaf(
            s.active().id,
            layout_laws::split_node(s.active().id, id, vertical),
        ),
        panes: s.panes.insert(a + 1, new),
        active_index: a + 1,
        full_redraw: true,
        ..s
    };
    model_lemmas::lemma_new_pane_wf(id, pid);
    model_lemmas::lemma_split_wf(s, grown, id, vertical);
    lemma_relay_tells(grown);
}

/// When a pane is closed, its terminal is closed first, and then the terminals of the others are
/// told their room where it has changed.
pub proof fn law_close_tells_the_terminals(s: AppView, i: int)
    requires
        s.wf(),
        0 <= i < s.panes.len(),
        s.panes.len() > 1,
    ensures
        ({
            let step = s.remove_pane(s.panes[i].id);
            &&& step.actions.len() > 0
            &&& step.actions[0] == (ActionView::Close { terminal: s.panes[i].terminal })
            &&& tells(step.actions.skip(1), s.panes.remove(i), step.app.panes)
        }),
{
    lemma_found(s, i);
    model_lemmas::lemma_remove_wf(s, i);
    let closed = s.closed_at(i);
    lemma_relay_tells(closed);
    assert(s.remove_at(i).actions.skip(1) =~= closed.relay().actions);
}

/// Moving a boundary leaves every pane its number, program, terminal and output, puts all in their
/// places, and changes nothing else.
pub proof fn law_resize_keeps_everything_else(s: AppView, direction: Direction)
    requires
        s.wf(),
        s.panes.len() > 0,
        !s.is_zoomed,
    ensures
        ({
            let after = s.resize_active(direction).app;
            &&& after == AppView {
                panes: after.panes,
                root: after.root,
                full_redraw: true,
                ..s
            }
            &&& after.panes.len() == s.panes.len()
            &&& in_place(after)
            &&& forall|i: int|
                0 <= i < s.panes.len() ==> same_terminal(#[trigger] after.panes[i], s.panes[i])
        }),
{
    model_laws::lemma_moved_wf(s, direction);
    lemma_relaid_in_place(AppView { root: s.moved_boundary(direction), ..s });
}

/// Another size of the outer terminal leaves every pane its number, program, terminal and output,
/// and while one is zoomed all others as they are. Keys are handled as keys, and what is neither a
/// key nor a size changes nothing and asks for nothing.
pub proof fn law_events_do_what_they_are_for(s: AppView, event: EventView)
    requires
        s.wf(),
        s.panes.len() > 0,
    ensures
        ({
            let step = s.handle_event(event);
            &&& event matches EventView::Key { key, label } ==> step == s.handle_key(key, label)
            &&& event is Other ==> step.app == s && step.actions == Seq::<ActionView>::empty()
            &&& event is Resize ==> {
                &&& step.app.panes.len() == s.panes.len()
                &&& forall|i: int|
                    0 <= i < s.panes.len() ==> same_terminal(
                        #[trigger] step.app.panes[i],
                        s.panes[i],
                    )
                &&& s.is_zoomed ==> forall|i: int|
                    0 <= i < s.panes.len() && i != s.active_index ==> #[trigger] step.app.panes[i]
                        == s.panes[i]
            }
        }),
{
}

/// Closing the panes of ended terminals is closing one after the other: those of two lists
/// together as those of the first and then those of the second, and a single one as itself.
pub proof fn law_ended_panes_close_in_turn(s: AppView, a: Seq<usize>, b: Seq<usize>, id: usize)
    ensures
        s.reap(seq![id]).app == s.remove_pane(id).app,
        s.reap(seq![id]).actions == s.remove_pane(id).actions,
        s.reap(a + b).app == s.reap(a).app.reap(b).app,
        s.reap(a + b).actions == s.reap(a).actions + s.reap(a).app.reap(b).actions,
    decreases a.len(),
{
    let none = Seq::<usize>::empty();
    let nothing = Seq::<ActionView>::empty();
    let first = s.remove_pane(id);
    assert(seq![id].drop_first() =~= none);
    assert(first.app.reap(none).app == first.app);
    assert(first.actions + nothing =~= first.actions);
    if a.len() == 0 {
        assert(a + b =~= b);
        assert(nothing + s.reap(b).actions =~= s.reap(b).actions);
    } else {
        let one = s.remove_pane(a[0]);
        let rest = a.drop_first();
        assert((a + b)[0] == a[0]);
        assert((a + b).drop_first() =~= rest + b);
        if s.panes.len() > 0 && one.app.panes.len() == 0 {
            lemma_nothing_to_close(one.app, b);
            assert(one.actions + nothing =~= one.actions);
        } else {
            law_ended_panes_close_in_turn(one.app, rest, b, id);
            let more = one.app.reap(rest);
            let last = more.app.reap(b);
            assert(one.actions + (more.actions + last.actions) =~= (one.actions + more.actions)
                + last.actions);
        }
    }
}

/// Where there is no pane, none is closed.
proof fn lemma_nothing_to_close(s: AppView, dead: Seq<usize>)
    requires
        s.panes.len() == 0,
    ensures
        s.reap(dead).app == s,
        s.reap(dead).actions == Seq::<ActionView>::empty(),
    decreases dead.len(),
{
    let nothing = Seq::<ActionView>::empty();
    if dead.len() > 0 {
        assert(model::ids(s.panes).len() == 0);
        lemma_nothing_to_close(s, dead.drop_first());
        assert(nothing + nothing =~= nothing);
    }
}

/// Output goes to the pane of the terminal that wrote it: its output grows by the new bytes, at the
/// end, and when that makes it longer than a million bytes the last half million are kept. No other
/// pane changes, and nothing changes where no output was found.
pub proof fn law_output_goes_to_its_pane(s: AppView, i: int, found: PolledView)
    requires
        s.wf(),
        0 <= i < s.panes.len(),
    ensures
        ({
            let after = s.received(i, found);
            &&& after == AppView { panes: after.panes, ..s }
            &&& after.panes.len() == s.panes.len()
            &&& forall|k: int|
                0 <= k < s.panes.len() && k != i ==> #[trigger] after.panes[k] == s.panes[k]
            &&& !(found is Data) ==> after.panes[i] == s.panes[i]
            &&& found matches PolledView::Data(data) ==> {
                let all = s.panes[i].output + data;
                let pane = after.panes[i];
                &&& pane == PaneView { output: pane.output, screen: pane.screen, ..s.panes[i] }
                &&& pane.output == (if all.len() <= 1_000_000 {
                    all
                } else {
                    all.skip(all.len() - 500_000)
                })
                &&& pane.screen.fed.flatten() == pane.output
            }
        }),
{
    if let PolledView::Data(data) = found {
        let pane = s.panes[i];
        assert(pane.wf());
        crate::vt::lemma_one_piece(pane.with_output(data).output);
        crate::vt::lemma_joins_push(pane.screen.fed, data);
        assert(pane.with_output(data).screen.fed.flatten() == pane.with_output(data).output);
    }
}

/// A terminal that has ended is remembered with its pane, after those found before; one that only
/// has output, or nothing at the moment, is not. Everything but finding nothing is a change.
pub proof fn law_ended_terminals_are_remembered(drain: DrainView, id: usize, found: PolledView)
    ensures
        ({
            let after = drain.after(id, found);
            &&& found is Eof || found is Disconnected ==> after.dead == drain.dead.push(id)
            &&& found is Data || found is Empty ==> after.dead == drain.dead
            &&& after.dirty == (drain.dirty || !(found is Empty))
        }),
        DrainView::start().dead.len() == 0,
        !DrainView::start().dirty,
{
}

/// At the end every terminal is closed, once each.
pub proof fn law_cleanup_closes_every_terminal(s: AppView)
    ensures
        s.cleanup().len() == s.panes.len(),
        forall|i: int|
            0 <= i < s.panes.len() ==> #[trigger] s.cleanup()[i] == (ActionView::Close {
                terminal: s.panes[i].terminal,
            }),
{
}

/// A new multiplexer has one pane, with the first terminal in it, which has printed nothing. It has
/// all columns and all rows but the two of the footer, and two rows at least, and the focus.
/// Nothing is zoomed or broadcast, everything is to be drawn, and no least size is less than a
/// border needs.
pub proof fn law_a_new_multiplexer_has_one_pane(
    no_instructions: bool,
    debug_mode: bool,
    min_width: int,
    min_height: int,
    width: int,
    height: int,
    pid: u32,
)
    ensures
        ({
            let s = AppView::first(
                no_instructions,
                debug_mode,
                min_width,
                min_height,
                width,
                height,
                pid,
            );
            let rows = height - (if no_instructions {
                0int
            } else {
                2
            });
            let pane = s.panes[0];
            &&& s.panes.len() == 1
            &&& pane.id == 0 && pane.terminal == 0 && pane.pid == pid
            &&& pane.output.len() == 0 && pane.screen.fed.len() == 0
            &&& pane.area == (Area {
                x: 0,
                y: 0,
                width,
                height: if rows < 2 {
                    2
                } else {
                    rows
                },
            })
            &&& pane.screen.rows == room(pane.area.height)
            &&& pane.screen.cols == room(width)
            &&& s.active_index == 0
            &&& s.root == (LayoutNode::Leaf { pane: 0 })
            &&& s.next_id == 1
            &&& !s.is_zoomed && !s.broadcast_mode && s.last_key_code is None && s.full_redraw
            &&& s.screen_width == width && s.screen_height == height
            &&& s.no_instructions == no_instructions && s.debug_mode == debug_mode
            &&& s.min_pane_width >= 2 && s.min_pane_height >= 2
            &&& min_width >= 2 ==> s.min_pane_width == min_width
            &&& min_height >= 2 ==> s.min_pane_height == min_height
            &&& min_width < 2 ==> s.min_pane_width == 2
            &&& min_height < 2 ==> s.min_pane_height == 2
        }),
{
}

/// A multiplexer that has closed its last pane does nothing any more.
pub proof fn law_without_panes_nothing_happens(
    s: AppView,
    direction: Direction,
    vertical: bool,
    key: Key,
    id: usize,
)
    requires
        s.panes.len() == 0,
    ensures
        s.navigate(direction) == s,
        s.toggle_maximize().app == s && s.toggle_maximize().actions.len() == 0,
        s.begin_split(vertical).app == s && s.begin_split(vertical).actions.len() == 0,
        s.swap_active(direction).app == s && s.swap_active(direction).actions.len() == 0,
        s.resize_active(direction).app == s && s.resize_active(direction).actions.len() == 0,
        s.remove_pane(id).app == s && s.remove_pane(id).actions.len() == 0,
        s.relay().app == s && s.relay().actions.len() == 0,
        s.send_key(key).len() == 0,
        s.cleanup().len() == 0,
{
    assert(model::ids(s.panes).len() == 0);
}

/// An exchange takes each of the two terminals to the other pane with its program and its output
/// and nothing else: the panes keep their numbers and places, the focus goes with the terminal, and
/// each of the two is told the room in its new pane. No other pane changes and no other terminal
/// is told anything.
pub proof fn law_exchange_takes_terminals_across(s: AppView, direction: Direction)
    requires
        s.wf(),
        s.panes.len() > 0,
        in_place(s),
        s.swap_active(direction).app != s,
    ensures
        ({
            let step = s.swap_active(direction);
            let after = step.app;
            let a = s.active_index;
            let b = after.active_index;
            &&& 0 <= b < s.panes.len() && a != b
            &&& crossed(after.panes[b], s.panes[b], s.panes[a])
            &&& crossed(after.panes[a], s.panes[a], s.panes[b])
            &&& after == AppView {
                panes: s.panes.update(a, after.panes[a]).update(b, after.panes[b]),
                active_index: b,
                full_redraw: true,
                ..s
            }
            &&& step.actions.len() == 2
            &&& step.actions[0] == told(s.panes[b].terminal, s.panes[a].area)
            &&& step.actions[1] == told(s.panes[a].terminal, s.panes[b].area)
        }),
{
    lemma_in_place(s);
    model_laws::law_exchange_carries_terminals(s, direction);
    let after = s.swap_active(direction).app;
    let a = s.active_index;
    let b = after.active_index;
    assert(after.panes =~= s.panes.update(a, after.panes[a]).update(b, after.panes[b]));
    let distances = focus::swap_distances(s.panes, a, direction);
    assert(focus::is_closest(distances, b));
    let swapped = s.swapped(b);
    model_lemmas::lemma_swap_wf(s, b);
    assert(swapped.places() == s.places());
    assert(model_laws::settled(swapped)) by {
        assert forall|i: int| 0 <= i < swapped.panes.len() implies (
        #[trigger] swapped.panes[i]).area == swapped.places()[i].area by {
            assert(s.panes[i].area == s.places()[i].area);
        }
    }
    model_laws::lemma_settled_notices(swapped, swapped.panes.len());
    model_lemmas::lemma_places_near(s);
    assert(model::ids(s.panes).len() == s.panes.len());
    lemma_small(s, a);
    lemma_small(s, b);
}

/// The pane has kept its number and its place and got the terminal of `other`, with its program and
/// its output, which is what its screen has been sent.
pub open spec fn crossed(after: PaneView, before: PaneView, other: PaneView) -> bool {
    &&& after.id == before.id
    &&& after.area == before.area
    &&& after.pid == other.pid
    &&& after.terminal == other.terminal
    &&& after.output == other.output
    &&& after.screen.fed == seq![other.output]
}

/// A pane in its place is no larger than the screen.
proof fn lemma_small(s: AppView, i: int)
    requires
        s.wf(),
        0 <= i < s.panes.len(),
        s.places().len() == s.panes.len(),
        s.panes[i].area == s.places()[i].area,
    ensures
        pane::inner(s.panes[i].area.height) == room(s.panes[i].area.height),
        pane::inner(s.panes[i].area.width) == room(s.panes[i].area.width),
{
    let area = s.layout_area();
    layout_laws::law_tiles_inside(s.root, area);
    let tile = s.root.tiles(area)[i];
    assert(tile.area.inside(area));
    assert(s.places()[i].area == tile.area.with_border());
}

} // verus!
