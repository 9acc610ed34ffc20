//! The multiplexer as a state machine: its state, and what every event makes of it.
use vstd::prelude::*;

use crate::action::ActionView;
use crate::event::{EventView, PolledView};
use crate::focus;
use crate::geometry::{Area, Direction};
use crate::keys::{Key, KeyCode};
use crate::layout::{LayoutNode, Tile};
use crate::layout_laws;
use crate::paint;
use crate::paint::{Frame, OpView};
use crate::pane;
use crate::pane::PaneView;
use crate::ratio;
use crate::ratio::Ratio;
use crate::vt::ScreenView;

verus! {

/// The columns of a new pane, before it is given a place.
pub const NEW_PANE_WIDTH: usize = 80;

/// The rows of a new pane, before it is given a place.
pub const NEW_PANE_HEIGHT: usize = 24;

/// The state of the multiplexer.
#[verifier::ext_equal]
pub struct AppView {
    pub no_instructions: bool,
    pub debug_mode: bool,
    pub min_pane_width: int,
    pub min_pane_height: int,
    pub panes: Seq<PaneView>,
    pub active_index: int,
    pub root: LayoutNode,
    pub next_id: int,
    pub is_zoomed: bool,
    pub broadcast_mode: bool,
    pub last_key_code: Option<Seq<char>>,
    pub screen_width: int,
    pub screen_height: int,
    pub full_redraw: bool,
}

/// A state, and what is asked of the operating system on the way to it.
pub struct Step {
    pub app: AppView,
    pub actions: Seq<ActionView>,
}

/// The numbers of the panes.
pub open spec fn ids(panes: Seq<PaneView>) -> Seq<usize> {
    panes.map_values(|pane: PaneView| pane.id)
}

/// The terminals shown in the panes.
pub open spec fn terminals(panes: Seq<PaneView>) -> Seq<usize> {
    panes.map_values(|pane: PaneView| pane.terminal)
}

/// What is asked of the terminals when the first `n` panes are given the places `tiles`.
pub open spec fn place_notices(panes: Seq<PaneView>, tiles: Seq<Tile>, n: nat) -> Seq<ActionView>
    decreases n,
{
    if n == 0 {
        Seq::empty()
    } else {
        place_notices(panes, tiles, (n - 1) as nat) + panes[n - 1].placed_notices(tiles[n - 1].area)
    }
}

/// The panes in the places `tiles`.
pub open spec fn in_places(panes: Seq<PaneView>, tiles: Seq<Tile>) -> Seq<PaneView> {
    Seq::new(panes.len(), |i: int| panes[i].placed(tiles[i].area))
}

/// The rows of the first pane on a terminal of `height` rows: what the footer leaves, but at
/// least two.
pub open spec fn first_pane_height(no_instructions: bool, height: int) -> int {
    let rows = if no_instructions {
        height
    } else {
        height - 2
    };
    if rows < 2 {
        2
    } else {
        rows
    }
}

/// The depth of the last split of the given direction on the first `n` steps of a path.
pub open spec fn last_split(root: LayoutNode, path: Seq<bool>, vertical: bool, n: nat) -> Option<
    int,
>
    decreases n,
{
    if n == 0 {
        None
    } else if root.at_path(path.take(n - 1))->is_vertical == vertical {
        Some(n - 1)
    } else {
        last_split(root, path, vertical, (n - 1) as nat)
    }
}

/// Input of `bytes` to the first `n` panes.
pub open spec fn write_to(panes: Seq<PaneView>, bytes: Seq<u8>, n: nat) -> Seq<ActionView> {
    Seq::new(n, |i: int| ActionView::Write { terminal: panes[i].terminal, bytes })
}

impl AppView {
    /// A multiplexer with one pane that fills a terminal of `width` columns and `height` rows.
    pub open spec fn first(
        no_instructions: bool,
        debug_mode: bool,
        min_width: int,
        min_height: int,
        width: int,
        height: int,
        pid: u32,
    ) -> AppView {
        let pane_height = first_pane_height(no_instructions, height);
        AppView {
            no_instructions,
            debug_mode,
            min_pane_width: if min_width < 2 {
                2
            } else {
                min_width
            },
            min_pane_height: if min_height < 2 {
                2
            } else {
                min_height
            },
            panes: seq![
                PaneView {
                    id: 0,
                    area: Area { x: 0, y: 0, width, height: pane_height },
                    pid,
                    terminal: 0,
                    output: Seq::empty(),
                    screen: ScreenView {
                        rows: pane::inner(pane_height),
                        cols: pane::inner(width),
                        fed: Seq::empty(),
                    },
                },
            ],
            active_index: 0,
            root: LayoutNode::Leaf { pane: 0 },
            next_id: 1,
            is_zoomed: false,
            broadcast_mode: false,
            last_key_code: None,
            screen_width: width,
            screen_height: height,
            full_redraw: true,
        }
    }

    /// What holds of every state:
    /// the panes are those of the layout tree, in its order, and no two have the same number or
    /// show the same terminal; every pane shows exactly its terminal's output; the focus is on
    /// a pane. Only a multiplexer that has closed its last pane has none.
    pub open spec fn wf(self) -> bool {
        &&& self.root.wf()
        &&& self.min_pane_width >= 2
        &&& self.min_pane_height >= 2
        &&& 0 <= self.screen_width <= 65535
        &&& 0 <= self.screen_height <= 65535
        &&& forall|i: int|
            0 <= i < self.panes.len() ==> {
                let pane = #[trigger] self.panes[i];
                pane.wf() && pane.id < self.next_id && pane.terminal < self.next_id
            }
        &&& terminals(self.panes).no_duplicates()
        &&& self.panes.len() > 0 ==> {
            &&& 0 <= self.active_index < self.panes.len()
            &&& ids(self.panes) == self.root.panes()
            &&& self.root.panes().no_duplicates()
        }
    }

    /// The screen of every pane has the size that fits the pane and its output.
    pub open spec fn fitting(self) -> bool {
        forall|i: int| 0 <= i < self.panes.len() ==> (#[trigger] self.panes[i]).fitting()
    }

    /// The rows at the end of the screen that the footer takes.
    pub open spec fn bottom(self) -> int {
        if self.no_instructions {
            0
        } else {
            2
        }
    }

    /// The rows of the screen that the footer leaves.
    pub open spec fn rows_left(self) -> int {
        if self.screen_height < self.bottom() {
            0
        } else {
            self.screen_height - self.bottom()
        }
    }

    /// The rows that are divided among the panes: those left, but at least one.
    pub open spec fn layout_height(self) -> int {
        if self.rows_left() < 1 {
            1
        } else {
            self.rows_left()
        }
    }

    /// The part of the screen that is divided among the panes.
    pub open spec fn layout_area(self) -> Area {
        Area { x: 0, y: 0, width: self.screen_width, height: self.layout_height() }
    }

    /// The places of the panes, in their order.
    pub open spec fn places(self) -> Seq<Tile> {
        crate::layout::bordered(self.root.tiles(self.layout_area()))
    }

    /// Every pane is in its place.
    pub open spec fn relaid(self) -> AppView {
        if self.panes.len() == 0 {
            self
        } else {
            AppView {
                panes: in_places(self.panes, self.places()),
                full_redraw: true,
                ..self
            }
        }
    }

    /// Giving every pane its place.
    pub open spec fn relay(self) -> Step {
        Step {
            app: self.relaid(),
            actions: place_notices(self.panes, self.places(), self.panes.len()),
        }
    }

    /// The pane that has the focus.
    pub open spec fn active(self) -> PaneView {
        self.panes[self.active_index]
    }

    /// The state with another active pane.
    pub open spec fn with_active(self, pane: PaneView) -> AppView {
        AppView { panes: self.panes.update(self.active_index, pane), ..self }
    }

    /// The place of a pane that fills the screen.
    pub open spec fn full_area(self) -> Area {
        Area { x: 0, y: 0, width: self.screen_width, height: self.rows_left() }
    }

    /// The active pane fills the screen.
    pub open spec fn filled(self) -> Step {
        Step {
            app: self.with_active(self.active().placed(self.full_area())),
            actions: self.active().placed_notices(self.full_area()),
        }
    }

    /// Filling the screen with the active pane, or giving all panes their places again.
    pub open spec fn toggle_maximize(self) -> Step {
        if self.panes.len() == 0 {
            Step { app: self, actions: Seq::empty() }
        } else if self.is_zoomed {
            AppView { is_zoomed: false, full_redraw: true, ..self }.relay()
        } else {
            let filled = self.filled();
            Step {
                app: AppView { is_zoomed: true, full_redraw: true, ..filled.app },
                actions: filled.actions,
            }
        }
    }

    /// The active pane is large enough for both its halves to have the least size.
    pub open spec fn can_split(self, vertical: bool) -> bool {
        &&& !self.is_zoomed
        &&& self.panes.len() > 0
        &&& if vertical {
            self.active().area.width >= 2 * self.min_pane_width
        } else {
            self.active().area.height >= 2 * self.min_pane_height
        }
    }

    /// Asking for a terminal for one half of the active pane.
    pub open spec fn begin_split(self, vertical: bool) -> Step {
        if self.can_split(vertical) {
            Step {
                app: AppView { next_id: self.next_id + 1, ..self },
                actions: seq![ActionView::Spawn { id: self.next_id as usize, vertical }],
            }
        } else {
            Step { app: self, actions: Seq::empty() }
        }
    }

    /// The pane of a new terminal, before it is given a place.
    pub open spec fn new_pane(id: usize, pid: u32) -> PaneView {
        PaneView {
            id,
            area: Area {
                x: 0,
                y: 0,
                width: NEW_PANE_WIDTH as int,
                height: NEW_PANE_HEIGHT as int,
            },
            pid,
            terminal: id,
            output: Seq::empty(),
            screen: ScreenView {
                rows: pane::inner(NEW_PANE_HEIGHT as int),
                cols: pane::inner(NEW_PANE_WIDTH as int),
                fed: Seq::empty(),
            },
        }
    }

    /// The new terminal `id` takes the second half of the active pane, and the focus.
    pub open spec fn complete_split(self, id: usize, vertical: bool, pid: u32) -> Step {
        AppView {
            root: self.root.with_leaf(
                self.active().id,
                layout_laws::split_node(self.active().id, id, vertical),
            ),
            panes: self.panes.insert(self.active_index + 1, Self::new_pane(id, pid)),
            active_index: self.active_index + 1,
            full_redraw: true,
            ..self
        }.relay()
    }

    /// The state without the pane at `i`. The other part of its split takes its place.
    pub open spec fn closed_at(self, i: int) -> AppView {
        let rest = AppView { panes: self.panes.remove(i), full_redraw: true, ..self };
        if rest.panes.len() == 0 {
            rest
        } else {
            AppView {
                is_zoomed: false,
                root: self.root.without(self.panes[i].id),
                active_index: if self.active_index < rest.panes.len() {
                    self.active_index
                } else {
                    rest.panes.len() - 1
                },
                ..rest
            }
        }
    }

    /// Closing the pane at `i`.
    pub open spec fn remove_at(self, i: int) -> Step {
        let relay = self.closed_at(i).relay();
        Step {
            app: relay.app,
            actions: seq![ActionView::Close { terminal: self.panes[i].terminal }] + relay.actions,
        }
    }

    /// Closing pane `id`, if there is one.
    pub open spec fn remove_pane(self, id: usize) -> Step {
        if ids(self.panes).contains(id) {
            self.remove_at(ids(self.panes).index_of(id))
        } else {
            Step { app: self, actions: Seq::empty() }
        }
    }

    /// Moving the focus to the closest pane in a direction.
    pub open spec fn navigate(self, direction: Direction) -> AppView {
        if self.panes.len() == 0 || self.is_zoomed {
            self
        } else {
            match focus::closest(focus::focus_distances(self.panes, self.active_index, direction)) {
                Some(i) => AppView { active_index: i, ..self },
                None => self,
            }
        }
    }

    /// The active terminal and that of pane `other` exchanged. The focus follows the terminal.
    pub open spec fn swapped(self, other: int) -> AppView {
        AppView {
            panes: self.panes.update(
                self.active_index,
                self.active().with_terminal(self.panes[other]),
            ).update(other, self.panes[other].with_terminal(self.active())),
            active_index: other,
            full_redraw: true,
            ..self
        }
    }

    /// Exchanging the active terminal with the one next to it in a direction.
    pub open spec fn swap_active(self, direction: Direction) -> Step {
        let none = Step { app: self, actions: Seq::empty() };
        if self.panes.len() == 0 || self.is_zoomed {
            none
        } else {
            match focus::closest(focus::swap_distances(self.panes, self.active_index, direction)) {
                Some(other) => {
                    let relay = self.swapped(other).relay();
                    Step {
                        app: relay.app,
                        actions: seq![
                            self.active().with_terminal(self.panes[other]).size_notice(),
                            self.panes[other].with_terminal(self.active()).size_notice(),
                        ] + relay.actions,
                    }
                },
                None => none,
            }
        }
    }

    /// Every pane of the tree would have the least size on the screen.
    pub open spec fn roomy(self, root: LayoutNode) -> bool {
        root.roomy(
            self.screen_width,
            self.layout_height(),
            self.min_pane_width,
            self.min_pane_height,
        )
    }

    /// The tree with the boundary next to the active pane moved a step in a direction: that of
    /// the nearest split around it which such a move changes. A move that would make a pane too
    /// small is not made.
    pub open spec fn moved_boundary(self, direction: Direction) -> LayoutNode {
        let path = self.root.path_to(self.active().id);
        match last_split(self.root, path, direction.horizontal(), path.len()) {
            Some(depth) => {
                let at = path.take(depth);
                let ratio = self.root.at_path(at)->split_ratio;
                let units = ratio::stepped(ratio.units as nat, direction.forward()) as u64;
                let moved = self.root.with_ratio(at, Ratio { units });
                if self.roomy(moved) {
                    moved
                } else {
                    self.root
                }
            },
            None => self.root,
        }
    }

    /// Moving a boundary of the active pane.
    pub open spec fn resize_active(self, direction: Direction) -> Step {
        if self.panes.len() == 0 || self.is_zoomed {
            Step { app: self, actions: Seq::empty() }
        } else {
            AppView { root: self.moved_boundary(direction), ..self }.relay()
        }
    }

    /// Input of `bytes` to the active pane.
    pub open spec fn write_active(self, bytes: Seq<u8>) -> Seq<ActionView> {
        if self.panes.len() == 0 {
            Seq::empty()
        } else {
            seq![ActionView::Write { terminal: self.active().terminal, bytes }]
        }
    }

    /// Input of a key: to the active pane, or to all if input is broadcast.
    pub open spec fn send_key(self, key: Key) -> Seq<ActionView> {
        if key.bytes().len() == 0 {
            Seq::empty()
        } else if self.broadcast_mode {
            write_to(self.panes, key.bytes(), self.panes.len())
        } else {
            self.write_active(key.bytes())
        }
    }

    /// The key is remembered, if keys are shown.
    pub open spec fn noted(self, label: Seq<char>) -> AppView {
        if self.debug_mode {
            AppView { last_key_code: Some(label), ..self }
        } else {
            self
        }
    }

    /// What a key does.
    pub open spec fn key(self, key: Key) -> Step {
        match key.code {
            KeyCode::Char('v') if key.ctrl && !key.alt => self.begin_split(true),
            KeyCode::Char('h') if key.ctrl && !key.alt => self.begin_split(false),
            KeyCode::Char('b') if key.ctrl && !key.alt => Step {
                app: AppView {
                    broadcast_mode: !self.broadcast_mode,
                    full_redraw: true,
                    ..self
                },
                actions: Seq::empty(),
            },
            KeyCode::Char(' ') if key.ctrl => self.toggle_maximize(),
            KeyCode::Backspace | KeyCode::Delete => Step {
                app: self,
                actions: self.write_active(seq![0x7fu8]),
            },
            KeyCode::Esc => Step { app: self, actions: self.write_active(seq![0x1bu8]) },
            _ => match key.code.arrow() {
                Some(direction) if key.ctrl && key.shift => self.resize_active(direction),
                Some(direction) if key.alt && key.shift => self.swap_active(direction),
                Some(direction) if key.ctrl => Step {
                    app: self.navigate(direction),
                    actions: Seq::empty(),
                },
                _ => Step { app: self, actions: self.send_key(key) },
            },
        }
    }

    /// The key asks for a new pane, and there is room for one.
    pub open spec fn asks_for_pane(self, key: Key) -> bool {
        match key.code {
            KeyCode::Char('v') if key.ctrl && !key.alt => self.can_split(true),
            KeyCode::Char('h') if key.ctrl && !key.alt => self.can_split(false),
            _ => false,
        }
    }

    /// What a key does, when it is remembered too.
    pub open spec fn handle_key(self, key: Key, label: Seq<char>) -> Step {
        self.noted(label).key(key)
    }

    /// The outer terminal has another size.
    pub open spec fn handle_resize(self, width: int, height: int) -> Step {
        let sized = AppView { screen_width: width, screen_height: height, ..self };
        let step = if self.is_zoomed {
            sized.filled()
        } else {
            sized.relay()
        };
        Step { app: AppView { full_redraw: true, ..step.app }, actions: step.actions }
    }

    /// The terminal of the pane at `i` has written `data`.
    pub open spec fn with_output(self, i: int, data: Seq<u8>) -> AppView {
        AppView { panes: self.panes.update(i, self.panes[i].with_output(data)), ..self }
    }

    /// What was found in the terminal of the pane at `i` is shown.
    pub open spec fn received(self, i: int, found: PolledView) -> AppView {
        match found {
            PolledView::Data(data) => self.with_output(i, data),
            _ => self,
        }
    }

    /// The event can be handled: there is a number for a new pane that it asks for, and a pane
    /// to zoom.
    pub open spec fn accepts(self, event: EventView) -> bool {
        match event {
            EventView::Resize { .. } => self.is_zoomed ==> self.panes.len() > 0,
            EventView::Key { key, .. } => self.asks_for_pane(key) ==> self.next_id < usize::MAX,
            EventView::Other => true,
        }
    }

    /// What an event of the outer terminal does.
    pub open spec fn handle_event(self, event: EventView) -> Step {
        match event {
            EventView::Resize { width, height } => self.handle_resize(width as int, height as int),
            EventView::Key { key, label } => self.handle_key(key, label),
            EventView::Other => Step { app: self, actions: Seq::empty() },
        }
    }

    /// Closing the panes `dead`, until none is left.
    pub open spec fn reap(self, dead: Seq<usize>) -> Step
        decreases dead.len(),
    {
        if dead.len() == 0 {
            Step { app: self, actions: Seq::empty() }
        } else {
            let first = self.remove_pane(dead[0]);
            if self.panes.len() > 0 && first.app.panes.len() == 0 {
                first
            } else {
                let rest = first.app.reap(dead.drop_first());
                Step { app: rest.app, actions: first.actions + rest.actions }
            }
        }
    }

    /// Closing all panes at the end.
    pub open spec fn cleanup(self) -> Seq<ActionView> {
        Seq::new(
            self.panes.len(),
            |i: int| ActionView::Close { terminal: self.panes[i].terminal },
        )
    }

    /// What the pane at `i` is drawn with. When input goes to all panes, all are marked as
    /// active.
    pub open spec fn frame(self, i: int) -> Frame {
        Frame {
            active: i == self.active_index || self.broadcast_mode,
            broadcast: self.broadcast_mode,
            zoomed: self.is_zoomed,
            screen_width: self.screen_width as usize,
            screen_height: self.screen_height as usize,
            bottom: self.bottom() as usize,
        }
    }

    /// The commands that show the pane at `i`.
    pub open spec fn pane_ops(self, i: int) -> Seq<OpView> {
        paint::pane_ops(
            self.panes[i].area,
            self.frame(i),
            self.panes[i].pid,
            self.panes[i].shown(),
        )
    }

    /// The commands that show the first `n` panes.
    pub open spec fn panes_ops(self, n: nat) -> Seq<OpView>
        decreases n,
    {
        if n == 0 {
            Seq::empty()
        } else {
            self.panes_ops((n - 1) as nat) + self.pane_ops(n - 1)
        }
    }

    /// The panes that are shown: all, or the one that fills the screen.
    pub open spec fn visible_ops(self) -> Seq<OpView> {
        if !self.is_zoomed {
            self.panes_ops(self.panes.len())
        } else if self.panes.len() > 0 {
            self.pane_ops(self.active_index)
        } else {
            Seq::empty()
        }
    }

    /// The footer.
    pub open spec fn footer_ops(self) -> Seq<OpView> {
        paint::footer_ops(
            self.broadcast_mode,
            if self.debug_mode {
                self.last_key_code
            } else {
                None
            },
            self.screen_width,
            self.screen_height,
        )
    }

    /// The footer, if it is shown.
    pub open spec fn instruction_ops(self) -> Seq<OpView> {
        if self.no_instructions {
            Seq::empty()
        } else {
            self.footer_ops()
        }
    }

    /// The cursor of the active pane.
    pub open spec fn cursor_ops(self) -> Seq<OpView> {
        if self.panes.len() > 0 {
            paint::cursor_ops(
                self.active().area,
                self.frame(self.active_index),
                self.active().shown(),
            )
        } else {
            Seq::empty()
        }
    }

    /// The commands that show everything.
    pub open spec fn draw_ops(self) -> Seq<OpView> {
        seq![OpView::HideCursor] + paint::needed(self.full_redraw, OpView::ClearAll)
            + self.visible_ops() + self.instruction_ops() + self.cursor_ops()
    }

    /// The state when everything has been shown.
    pub open spec fn drawn(self) -> AppView {
        AppView { full_redraw: false, ..self }
    }
}

} // verus!
