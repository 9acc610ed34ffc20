//! The multiplexer: its panes, its layout and its modes, and what it does on every event.
use vstd::prelude::*;

use crate::action;
use crate::action::{Action, ActionView};
use crate::event::{Drain, Event, Polled};
use crate::focus;
use crate::geometry::{Area, Direction, Rect};
use crate::keys::{Key, KeyCode};
use crate::layout;
use crate::layout::LayoutNode;
use crate::layout_laws;
use crate::model;
use crate::model::{AppView, NEW_PANE_HEIGHT, NEW_PANE_WIDTH};
use crate::model_lemmas;
use crate::paint;
use crate::paint::{Frame, Op, OpView};
use crate::pane;
use crate::pane::{Pane, PaneView};
use crate::ratio::Ratio;

verus! {

/// The state of the multiplexer.
pub struct App {
    pub no_instructions: bool,
    pub debug_mode: bool,
    pub min_pane_width: usize,
    pub min_pane_height: usize,
    pub panes: Vec<Pane>,
    pub active_index: usize,
    pub root: LayoutNode,
    pub next_id: usize,
    pub is_zoomed: bool,
    pub broadcast_mode: bool,
    pub last_key_code: Option<String>,
    pub screen_width: usize,
    pub screen_height: usize,
    pub full_redraw: bool,
}

impl View for App {
    type V = AppView;

    open spec fn view(&self) -> AppView {
        AppView {
            no_instructions: self.no_instructions,
            debug_mode: self.debug_mode,
            min_pane_width: self.min_pane_width as int,
            min_pane_height: self.min_pane_height as int,
            panes: focus::panes_view(self.panes@),
            active_index: self.active_index as int,
            root: self.root,
            next_id: self.next_id as int,
            is_zoomed: self.is_zoomed,
            broadcast_mode: self.broadcast_mode,
            last_key_code: paint::text_view(self.last_key_code),
            screen_width: self.screen_width as int,
            screen_height: self.screen_height as int,
            full_redraw: self.full_redraw,
        }
    }
}

/// Gives every pane its place, and returns what the terminals are to be told.
fn place_panes(panes: &mut Vec<Pane>, positions: &Vec<(usize, Rect)>) -> (actions: Vec<Action>)
    requires
        positions@.len() == old(panes)@.len(),
        forall|i: int| 0 <= i < old(panes)@.len() ==> (#[trigger] old(panes)@[i])@.wf(),
        forall|i: int|
            0 <= i < positions@.len() ==> PaneView::near((#[trigger] positions@[i]).1@),
    ensures
        focus::panes_view(final(panes)@) == model::in_places(
            focus::panes_view(old(panes)@),
            layout::places(positions@),
        ),
        action::actions_view(actions@) == model::place_notices(
            focus::panes_view(old(panes)@),
            layout::places(positions@),
            old(panes)@.len(),
        ),
        forall|i: int| 0 <= i < final(panes)@.len() ==> (#[trigger] final(panes)@[i])@.wf(),
{
    let ghost before = focus::panes_view(panes@);
    let ghost tiles = layout::places(positions@);
    let mut actions: Vec<Action> = Vec::new();
    let mut i: usize = 0;
    assert(action::actions_view(actions@) =~= Seq::<ActionView>::empty());
    while i < panes.len()
        invariant
            i <= panes@.len(),
            panes@.len() == before.len(),
            positions@.len() == panes@.len(),
            tiles == layout::places(positions@),
            forall|k: int| 0 <= k < panes@.len() ==> (#[trigger] panes@[k])@.wf(),
            forall|k: int|
                0 <= k < positions@.len() ==> PaneView::near((#[trigger] positions@[k]).1@),
            forall|k: int|
                0 <= k < i ==> (#[trigger] panes@[k])@ == before[k].placed(tiles[k].area),
            forall|k: int| i <= k < panes@.len() ==> (#[trigger] panes@[k])@ == before[k],
            action::actions_view(actions@) == model::place_notices(before, tiles, i as nat),
        decreases panes.len() - i,
    {
        let rect = positions[i].1;
        assert(tiles[i as int].area == rect@);
        let pane = &mut panes[i];
        let more = pane.resize(rect.x, rect.y, rect.width, rect.height);
        action::request_all(&mut actions, more);
        i = i + 1;
    }
    assert(focus::panes_view(panes@) =~= model::in_places(before, tiles));
    actions
}

impl App {
    /// A multiplexer with one pane that fills a terminal of `width` columns and `height` rows.
    pub fn new(
        no_instructions: bool,
        debug_mode: bool,
        min_width: usize,
        min_height: usize,
        width: u16,
        height: u16,
        pid: u32,
    ) -> (app: App)
        ensures
            app@.wf(),
            app@.fitting(),
            app@ == AppView::first(
                no_instructions,
                debug_mode,
                min_width as int,
                min_height as int,
                width as int,
                height as int,
                pid,
            ),
            ({
                let pane_height = model::first_pane_height(no_instructions, height as int);
                app@ == (AppView {
                    no_instructions,
                    debug_mode,
                    min_pane_width: if min_width < 2 {
                        2
                    } else {
                        min_width as int
                    },
                    min_pane_height: if min_height < 2 {
                        2
                    } else {
                        min_height as int
                    },
                    panes: seq![
                        PaneView {
                            id: 0,
                            area: Area { x: 0, y: 0, width: width as int, height: pane_height },
                            pid,
                            terminal: 0,
                            output: Seq::empty(),
                            screen: crate::vt::ScreenView {
                                rows: pane::inner(pane_height),
                                cols: pane::inner(width as int),
                                fed: Seq::empty(),
                            },
                        },
                    ],
                    active_index: 0,
                    root: LayoutNode::Leaf { pane: 0 },
                    next_id: 1,
                    is_zoomed: false,
                    broadcast_mode: false,
                    last_key_code: None,
                    screen_width: width as int,
                    screen_height: height as int,
                    full_redraw: true,
                })
            }),
    {
        let pane_height: usize = Self::first_pane_height(no_instructions, height);
        let (width, height): (usize, usize) = (width as usize, height as usize);
        let pane = Pane::new(0, 0, 0, width, pane_height, 0, pid);
        let app = App {
            no_instructions,
            debug_mode,
            min_pane_width: if min_width < 2 {
                2
            } else {
                min_width
            },
            min_pane_height: if min_height < 2 {
                2
            } else {
                min_height
            },
            panes: vec![pane],
            active_index: 0,
            root: LayoutNode::leaf(0),
            next_id: 1,
            is_zoomed: false,
            broadcast_mode: false,
            last_key_code: None,
            screen_width: width,
            screen_height: height,
            full_redraw: true,
        };
        proof {
            assert(app@.panes =~= seq![pane@]);
            assert(model::ids(app@.panes) =~= app@.root.panes());
        }
        app
    }

    /// The rows of the first pane on a terminal of `height` rows.
    pub fn first_pane_height(no_instructions: bool, height: u16) -> (rows: usize)
        ensures
            rows == model::first_pane_height(no_instructions, height as int),
    {
        let bottom: u16 = if no_instructions {
            0
        } else {
            2
        };
        if height < bottom + 2 {
            2
        } else {
            (height - bottom) as usize
        }
    }

    /// The rows at the end of the screen that the footer takes.
    pub fn bottom(&self) -> (bottom: usize)
        ensures
            bottom == self@.bottom(),
    {
        if self.no_instructions {
            0
        } else {
            2
        }
    }

    /// The rows of the screen that the footer leaves.
    fn rows_left(&self) -> (rows: usize)
        ensures
            rows == self@.rows_left(),
    {
        let bottom: usize = self.bottom();
        if self.screen_height < bottom {
            0
        } else {
            self.screen_height - bottom
        }
    }

    /// The rows that are divided among the panes.
    fn layout_height(&self) -> (rows: usize)
        ensures
            rows == self@.layout_height(),
    {
        let rows: usize = self.rows_left();
        if rows < 1 {
            1
        } else {
            rows
        }
    }

    /// Gives every pane its place, and returns what the terminals are to be told.
    pub fn recalculate_layout(&mut self) -> (actions: Vec<Action>)
        requires
            old(self)@.wf(),
        ensures
            final(self)@.wf(),
            final(self)@ == old(self)@.relay().app,
            action::actions_view(actions@) == old(self)@.relay().actions,
    {
        if self.panes.is_empty() {
            let actions: Vec<Action> = Vec::new();
            assert(action::actions_view(actions@) =~= Seq::<ActionView>::empty());
            return actions;
        }
        let ghost before = self@;
        self.full_redraw = true;
        let height: usize = self.layout_height();
        let mut positions: Vec<(usize, Rect)> = Vec::new();
        LayoutNode::apply_layout(&self.root, 0, 0, self.screen_width, height, &mut positions);
        proof {
            assert(layout::places(positions@) =~= before.places());
            model_lemmas::lemma_places_near(before);
            assert(before.panes.len() == model::ids(before.panes).len());
            assert forall|i: int| 0 <= i < positions@.len() implies PaneView::near(
                (#[trigger] positions@[i]).1@,
            ) by {
                assert(layout::places(positions@)[i].area == positions@[i].1@);
            }
            assert forall|i: int| 0 <= i < self.panes@.len() implies (
            #[trigger] self.panes@[i])@.wf() by {
                assert(before.panes[i] == self.panes@[i]@);
            }
        }
        let actions = place_panes(&mut self.panes, &positions);
        proof {
            assert(self@.panes == model::in_places(before.panes, before.places()));
            model_lemmas::lemma_relaid_wf(before);
        }
        actions
    }

    /// Moves the active pane to an area that fills the screen.
    fn fill_screen(&mut self) -> (actions: Vec<Action>)
        requires
            old(self)@.wf(),
            old(self)@.panes.len() > 0,
        ensures
            final(self)@.wf(),
            final(self)@ == old(self)@.filled().app,
            action::actions_view(actions@) == old(self)@.filled().actions,
    {
        let ghost before = self@;
        let (width, height): (usize, usize) = (self.screen_width, self.rows_left());
        let active: usize = self.active_index;
        assert(before.panes[active as int] == self.panes@[active as int]@);
        let pane = &mut self.panes[active];
        let actions = pane.resize(0, 0, width, height);
        proof {
            assert(self@.panes =~= before.panes.update(active as int, self@.panes[active as int]));
            model_lemmas::lemma_pane_replaced(before, self@, active as int);
        }
        actions
    }

    /// Fills the screen with the active pane, or gives all panes their places again.
    pub fn toggle_maximize(&mut self) -> (actions: Vec<Action>)
        requires
            old(self)@.wf(),
        ensures
            final(self)@.wf(),
            final(self)@ == old(self)@.toggle_maximize().app,
            action::actions_view(actions@) == old(self)@.toggle_maximize().actions,
    {
        if self.panes.is_empty() {
            return no_actions();
        }
        self.full_redraw = true;
        if !self.is_zoomed {
            let actions = self.fill_screen();
            self.is_zoomed = true;
            actions
        } else {
            self.is_zoomed = false;
            self.recalculate_layout()
        }
    }

    /// Asks for a terminal for one half of the active pane, if that is large enough.
    pub fn begin_split(&mut self, vertical: bool) -> (actions: Vec<Action>)
        requires
            old(self)@.wf(),
            old(self)@.can_split(vertical) ==> old(self)@.next_id < usize::MAX,
        ensures
            final(self)@.wf(),
            final(self)@ == old(self)@.begin_split(vertical).app,
            action::actions_view(actions@) == old(self)@.begin_split(vertical).actions,
    {
        if self.is_zoomed || self.panes.is_empty() {
            return no_actions();
        }
        let pane = &self.panes[self.active_index];
        assert(self@.active() == pane@);
        let too_small = if vertical {
            pane.width / 2 < self.min_pane_width
        } else {
            pane.height / 2 < self.min_pane_height
        };
        if too_small {
            return no_actions();
        }
        let id: usize = self.next_id;
        self.next_id = id + 1;
        let mut actions = no_actions();
        action::request(&mut actions, Action::Spawn { id, vertical });
        assert(action::actions_view(actions@) =~= seq![ActionView::Spawn { id, vertical }]);
        actions
    }

    /// Gives the second half of the active pane, and the focus, to the new terminal `id`.
    pub fn complete_split(&mut self, id: usize, vertical: bool, pid: u32) -> (actions: Vec<Action>)
        requires
            old(self)@.wf(),
            old(self)@.panes.len() > 0,
            id < old(self)@.next_id,
            !model::ids(old(self)@.panes).contains(id),
            !model::terminals(old(self)@.panes).contains(id),
        ensures
            final(self)@.wf(),
            final(self)@ == old(self)@.complete_split(id, vertical, pid).app,
            action::actions_view(actions@) == old(self)@.complete_split(id, vertical, pid).actions,
    {
        let ghost before = self@;
        let active: usize = self.active_index;
        let active_id: usize = self.panes[active].id;
        assert(active < self.panes.len());
        proof {
            assert(before.panes[active as int] == self.panes@[active as int]@);
            assert(model::ids(before.panes)[active as int] == active_id);
        }
        match LayoutNode::find_layout_node_mut(&mut self.root, active_id) {
            Some(leaf) => {
                *leaf =
                LayoutNode::Split {
                    is_vertical: vertical,
                    split_ratio: Ratio::half(),
                    left: Box::new(LayoutNode::leaf(active_id)),
                    right: Box::new(LayoutNode::leaf(id)),
                };
            },
            None => {},
        }
        let new_pane = Pane::new(id, 0, 0, NEW_PANE_WIDTH, NEW_PANE_HEIGHT, id, pid);
        self.panes.insert(active + 1, new_pane);
        self.active_index = active + 1;
        self.full_redraw = true;
        proof {
            assert(self@.panes =~= before.panes.insert(active + 1, new_pane@));
            model_lemmas::lemma_split_wf(before, self@, id, vertical);
        }
        self.recalculate_layout()
    }

    /// Closes pane `pane_id`, if there is one, and says whether it was the last. The other part
    /// of its split takes its place.
    pub fn remove_pane(&mut self, pane_id: usize) -> (result: (bool, Vec<Action>))
        requires
            old(self)@.wf(),
        ensures
            final(self)@.wf(),
            final(self)@ == old(self)@.remove_pane(pane_id).app,
            action::actions_view(result.1@) == old(self)@.remove_pane(pane_id).actions,
            result.0 == (old(self)@.panes.len() > 0 && final(self)@.panes.len() == 0),
    {
        let ghost before = self@;
        let mut actions = no_actions();
        let index: usize = match self.position(pane_id) {
            Some(index) => index,
            None => {
                return (false, actions);
            },
        };
        let pane = self.panes.remove(index);
        action::request(&mut actions, Action::Close { terminal: pane.terminal });
        self.full_redraw = true;
        proof {
            assert(self@.panes =~= before.panes.remove(index as int));
            assert(action::actions_view(actions@) =~= seq![
                ActionView::Close { terminal: before.panes[index as int].terminal },
            ]);
            model_lemmas::lemma_remove_wf(before, index as int);
        }
        if self.panes.is_empty() {
            assert(action::actions_view(actions@) + Seq::<ActionView>::empty()
                =~= action::actions_view(actions@));
            return (true, actions);
        }
        self.is_zoomed = false;
        proof {
            assert(model::ids(before.panes)[index as int] == pane_id);
        }
        LayoutNode::collapse_layout(&mut self.root, pane_id);
        if self.active_index >= self.panes.len() {
            self.active_index = self.panes.len() - 1;
        }
        let more = self.recalculate_layout();
        action::request_all(&mut actions, more);
        (false, actions)
    }

    /// The index of pane `id`.
    fn position(&self, id: usize) -> (index: Option<usize>)
        requires
            self@.wf(),
        ensures
            match index {
                Some(i) => {
                    &&& i < self@.panes.len()
                    &&& model::ids(self@.panes).contains(id)
                    &&& model::ids(self@.panes).index_of(id) == i
                    &&& self@.panes[i as int].id == id
                },
                None => !model::ids(self@.panes).contains(id),
            },
    {
        let ghost ids = model::ids(self@.panes);
        let mut i: usize = 0;
        while i < self.panes.len()
            invariant
                i <= self.panes@.len(),
                ids == model::ids(self@.panes),
                self@.wf(),
                forall|k: int| 0 <= k < i ==> ids[k] != id,
            decreases self.panes.len() - i,
        {
            assert(ids[i as int] == self.panes@[i as int].id);
            if self.panes[i].id == id {
                assert(ids.contains(id));
                assert(ids.no_duplicates());
                return Some(i);
            }
            i = i + 1;
        }
        None
    }

    /// Moves the focus to the closest pane in a direction.
    pub fn navigate(&mut self, direction: Direction)
        requires
            old(self)@.wf(),
        ensures
            final(self)@.wf(),
            final(self)@ == old(self)@.navigate(direction),
    {
        if self.panes.is_empty() || self.is_zoomed {
            return ;
        }
        proof {
            assert forall|i: int| 0 <= i < self.panes@.len() implies PaneView::near(
                (#[trigger] self.panes@[i])@.area,
            ) by {
                assert(self@.panes[i].wf());
            }
        }
        self.active_index = focus::navigate(&self.panes, self.active_index, direction);
    }

    /// Exchanges the active terminal with the one next to it in a direction. The focus follows
    /// the terminal.
    pub fn swap_active(&mut self, direction: Direction) -> (actions: Vec<Action>)
        requires
            old(self)@.wf(),
        ensures
            final(self)@.wf(),
            final(self)@ == old(self)@.swap_active(direction).app,
            action::actions_view(actions@) == old(self)@.swap_active(direction).actions,
    {
        if self.panes.is_empty() || self.is_zoomed {
            return no_actions();
        }
        let ghost before = self@;
        proof {
            assert forall|i: int| 0 <= i < self.panes@.len() implies PaneView::near(
                (#[trigger] self.panes@[i])@.area,
            ) by {
                assert(self@.panes[i].wf());
            }
        }
        let current: usize = self.active_index;
        let other: usize = match focus::find_swap_pane(&self.panes, current, direction) {
            Some(other) => other,
            None => {
                return no_actions();
            },
        };
        proof {
            assert(before.panes[current as int] == self.panes@[current as int]@);
            assert(before.panes[other as int] == self.panes@[other as int]@);
        }
        let mut neighbour = self.panes.remove(other);
        let at: usize = if other < current {
            current - 1
        } else {
            current
        };
        assert(self.panes@[at as int]@ == before.panes[current as int]);
        let pane = &mut self.panes[at];
        let mut actions = pane.swap_terminal_state(&mut neighbour);
        self.panes.insert(other, neighbour);
        self.active_index = other;
        self.full_redraw = true;
        proof {
            assert(self@.panes =~= before.swapped(other as int).panes);
            model_lemmas::lemma_swap_wf(before, other as int);
        }
        let more = self.recalculate_layout();
        action::request_all(&mut actions, more);
        actions
    }

    /// Moves a boundary of the active pane, unless that would make a pane too small.
    pub fn resize_active(&mut self, direction: Direction) -> (actions: Vec<Action>)
        requires
            old(self)@.wf(),
        ensures
            final(self)@.wf(),
            final(self)@ == old(self)@.resize_active(direction).app,
            action::actions_view(actions@) == old(self)@.resize_active(direction).actions,
    {
        if self.panes.is_empty() || self.is_zoomed {
            return no_actions();
        }
        let ghost before = self@;
        let id: usize = self.panes[self.active_index].id;
        proof {
            assert(before.panes[before.active_index] == self.panes@[before.active_index]@);
            assert(model::ids(before.panes)[before.active_index] == id);
            layout_laws::law_path_leads_to_pane(before.root, id);
        }
        let mut path: Vec<bool> = Vec::new();
        if !LayoutNode::find_path(&self.root, id, &mut path) {
            return no_actions();
        }
        assert(path@ =~= before.root.path_to(id));
        let vertical = direction.is_horizontal();
        let mut depth: usize = path.len();
        let mut moved = false;
        while depth > 0 && !moved
            invariant
                before.wf(),
                before.panes.len() > 0,
                id == before.active().id,
                path@ == before.root.path_to(id),
                before.root.panes().contains(id),
                vertical == direction.horizontal(),
                depth <= path@.len(),
                !moved ==> self@ == before && model::last_split(
                    before.root,
                    path@,
                    vertical,
                    path@.len(),
                ) == model::last_split(before.root, path@, vertical, depth as nat),
                moved ==> self@ == (AppView { root: before.moved_boundary(direction), ..before })
                    && self@.wf(),
            decreases depth,
        {
            proof {
                layout_laws::law_path_leads_to_pane(before.root, id);
            }
            depth = depth - 1;
            let ancestor = vstd::slice::slice_subrange(path.as_slice(), 0, depth);
            let ghost at = ancestor@;
            assert(at =~= path@.take(depth as int));
            proof {
                layout_laws::lemma_same_node(before.root, at);
            }
            let here = {
                let node = LayoutNode::node_at_path_mut(&mut self.root, ancestor);
                match node {
                    LayoutNode::Split { is_vertical, split_ratio, .. } => if *is_vertical
                        == vertical {
                        Some(*split_ratio)
                    } else {
                        None
                    },
                    LayoutNode::Leaf { .. } => None,
                }
            };
            assert(self.root == before.root);
            if let Some(original) = here {
                assert(original == before.root.at_path(at)->split_ratio);
                proof {
                    layout_laws::lemma_ratio_at(before.root, at);
                }
                let next = original.step(direction.is_forward());
                Self::set_ratio(&mut self.root, ancestor, next);
                proof {
                    layout_laws::lemma_with_ratio(before.root, at, next);
                    layout_laws::lemma_ratio_back(before.root, at, next);
                }
                let height: usize = self.layout_height();
                let valid = LayoutNode::check_min_sizes(
                    &self.root,
                    self.screen_width,
                    height,
                    self.min_pane_width,
                    self.min_pane_height,
                );
                if !valid {
                    Self::set_ratio(&mut self.root, ancestor, original);
                }
                moved = true;
            }
        }
        proof {
            if !moved {
                assert(model::last_split(before.root, path@, vertical, 0) is None);
            }
        }
        self.recalculate_layout()
    }

    /// Sends `bytes` to the active pane.
    fn write_active(&self, bytes: Vec<u8>) -> (actions: Vec<Action>)
        requires
            self@.wf(),
        ensures
            action::actions_view(actions@) == self@.write_active(bytes@),
    {
        let mut actions = no_actions();
        if self.panes.is_empty() {
            return actions;
        }
        let terminal: usize = self.panes[self.active_index].terminal;
        action::request(&mut actions, Action::Write { terminal, bytes });
        assert(action::actions_view(actions@) =~= self@.write_active(bytes@));
        actions
    }

    /// Sends one byte to the active pane.
    fn write_byte(&self, byte: u8) -> (actions: Vec<Action>)
        requires
            self@.wf(),
        ensures
            action::actions_view(actions@) == self@.write_active(seq![byte]),
    {
        let bytes: Vec<u8> = vec![byte];
        assert(bytes@ =~= seq![byte]);
        self.write_active(bytes)
    }

    /// Sends the bytes of a key to the active pane, or to all if input is broadcast.
    pub fn send_key(&self, key: Key) -> (actions: Vec<Action>)
        requires
            self@.wf(),
        ensures
            action::actions_view(actions@) == self@.send_key(key),
    {
        let bytes: Vec<u8> = key.encode();
        if bytes.is_empty() {
            return no_actions();
        }
        if !self.broadcast_mode {
            return self.write_active(bytes);
        }
        let mut actions = no_actions();
        let mut i: usize = 0;
        assert(action::actions_view(actions@) =~= model::write_to(self@.panes, bytes@, 0));
        while i < self.panes.len()
            invariant
                i <= self.panes@.len(),
                bytes@ == key.bytes(),
                action::actions_view(actions@) == model::write_to(self@.panes, bytes@, i as nat),
            decreases self.panes.len() - i,
        {
            let terminal: usize = self.panes[i].terminal;
            let copy: Vec<u8> = bytes.clone();
            assert(copy@ =~= bytes@);
            action::request(&mut actions, Action::Write { terminal, bytes: copy });
            i = i + 1;
            assert(action::actions_view(actions@) =~= model::write_to(
                self@.panes,
                bytes@,
                i as nat,
            ));
        }
        actions
    }

    /// Does what a key asks for. `label` is its full description.
    pub fn handle_key(&mut self, key: Key, label: String) -> (actions: Vec<Action>)
        requires
            old(self)@.wf(),
            old(self)@.asks_for_pane(key) ==> old(self)@.next_id < usize::MAX,
        ensures
            final(self)@.wf(),
            final(self)@ == old(self)@.handle_key(key, label@).app,
            action::actions_view(actions@) == old(self)@.handle_key(key, label@).actions,
    {
        if self.debug_mode {
            self.last_key_code = Some(label);
        }
        match key.code {
            KeyCode::Char('v') if key.ctrl && !key.alt => self.begin_split(true),
            KeyCode::Char('h') if key.ctrl && !key.alt => self.begin_split(false),
            KeyCode::Char('b') if key.ctrl && !key.alt => {
                self.broadcast_mode = !self.broadcast_mode;
                self.full_redraw = true;
                no_actions()
            },
            KeyCode::Char(' ') if key.ctrl => self.toggle_maximize(),
            KeyCode::Backspace | KeyCode::Delete => self.write_byte(0x7f),
            KeyCode::Esc => self.write_byte(0x1b),
            _ => match key.code.direction() {
                Some(direction) => {
                    if key.ctrl && key.shift {
                        self.resize_active(direction)
                    } else if key.alt && key.shift {
                        self.swap_active(direction)
                    } else if key.ctrl {
                        self.navigate(direction);
                        no_actions()
                    } else {
                        self.send_key(key)
                    }
                },
                None => self.send_key(key),
            },
        }
    }

    /// Fits the panes to another size of the outer terminal.
    pub fn handle_resize(&mut self, width: u16, height: u16) -> (actions: Vec<Action>)
        requires
            old(self)@.wf(),
            old(self)@.is_zoomed ==> old(self)@.panes.len() > 0,
        ensures
            final(self)@.wf(),
            final(self)@ == old(self)@.handle_resize(width as int, height as int).app,
            action::actions_view(actions@) == old(self)@.handle_resize(
                width as int,
                height as int,
            ).actions,
    {
        self.screen_width = width as usize;
        self.screen_height = height as usize;
        let actions = if self.is_zoomed {
            self.fill_screen()
        } else {
            self.recalculate_layout()
        };
        self.full_redraw = true;
        actions
    }

    /// Does what an event of the outer terminal asks for, and says whether to draw.
    pub fn handle_event(&mut self, event: Event) -> (result: (bool, Vec<Action>))
        requires
            old(self)@.wf(),
            old(self)@.accepts(event@),
        ensures
            final(self)@.wf(),
            final(self)@ == old(self)@.handle_event(event@).app,
            action::actions_view(result.1@) == old(self)@.handle_event(event@).actions,
            result.0 == !(event@ is Other),
    {
        match event {
            Event::Resize { width, height } => (true, self.handle_resize(width, height)),
            Event::Key { key, label } => (true, self.handle_key(key, label)),
            Event::Other => (false, no_actions()),
        }
    }

    /// Records what was found in the terminal of the pane at `index`, and says whether to look
    /// there once more.
    pub fn receive(&mut self, index: usize, found: Polled, drain: &mut Drain) -> (more: bool)
        requires
            old(self)@.wf(),
            index < old(self)@.panes.len(),
        ensures
            final(self)@.wf(),
            final(self)@ == old(self)@.received(index as int, found@),
            final(drain)@ == old(drain)@.after(old(self)@.panes[index as int].id, found@),
            more == (found@ is Data),
    {
        let ghost before = self@;
        assert(before.panes[index as int] == self.panes@[index as int]@);
        match found {
            Polled::Data(data) => {
                let pane = &mut self.panes[index];
                pane.feed_data(data.as_slice());
                proof {
                    assert(self@.panes =~= before.panes.update(
                        index as int,
                        self@.panes[index as int],
                    ));
                    model_lemmas::lemma_pane_replaced(before, self@, index as int);
                }
                drain.dirty = true;
                true
            },
            Polled::Empty => false,
            Polled::Eof | Polled::Disconnected => {
                drain.dead.push(self.panes[index].id);
                drain.dirty = true;
                false
            },
        }
    }

    /// Closes the panes whose terminals have ended, and says whether to go on: not if the last
    /// pane was closed.
    pub fn drain_output(&mut self, drain: &Drain) -> (result: (bool, Vec<Action>))
        requires
            old(self)@.wf(),
        ensures
            final(self)@.wf(),
            final(self)@ == old(self)@.reap(drain@.dead).app,
            action::actions_view(result.1@) == old(self)@.reap(drain@.dead).actions,
            result.0 == !(old(self)@.panes.len() > 0 && final(self)@.panes.len() == 0),
    {
        let ghost before = self@;
        let ghost whole = before.reap(drain@.dead);
        let mut actions = no_actions();
        let mut i: usize = 0;
        assert(drain.dead@.skip(0) =~= drain.dead@);
        assert(Seq::<ActionView>::empty() + whole.actions =~= whole.actions);
        while i < drain.dead.len()
            invariant
                i <= drain.dead@.len(),
                before == old(self)@,
                self@.wf(),
                before.panes.len() > 0 ==> self@.panes.len() > 0,
                before.panes.len() == 0 ==> self@.panes.len() == 0,
                whole == before.reap(drain@.dead),
                self@.reap(drain.dead@.skip(i as int)).app == whole.app,
                action::actions_view(actions@) + self@.reap(drain.dead@.skip(i as int)).actions
                    == whole.actions,
            decreases drain.dead.len() - i,
        {
            let ghost rest = drain.dead@.skip(i as int);
            let ghost done = action::actions_view(actions@);
            assert(rest.drop_first() =~= drain.dead@.skip(i + 1));
            let ghost now = self@;
            let (last, more) = self.remove_pane(drain.dead[i]);
            action::request_all(&mut actions, more);
            if last {
                return (false, actions);
            }
            proof {
                let first = now.remove_pane(rest[0]);
                let later = first.app.reap(rest.drop_first());
                assert(done + (first.actions + later.actions) =~= (done + first.actions)
                    + later.actions);
            }
            i = i + 1;
        }
        assert(drain.dead@.skip(i as int) =~= Seq::<usize>::empty());
        assert(action::actions_view(actions@) + Seq::<ActionView>::empty() =~= whole.actions);
        (true, actions)
    }

    /// What the pane at `i` is drawn with.
    fn frame(&self, i: usize) -> (frame: Frame)
        ensures
            frame == self@.frame(i as int),
    {
        Frame {
            active: i == self.active_index || self.broadcast_mode,
            broadcast: self.broadcast_mode,
            zoomed: self.is_zoomed,
            screen_width: self.screen_width,
            screen_height: self.screen_height,
            bottom: self.bottom(),
        }
    }

    /// Emits what shows the pane at `i`.
    pub fn draw_pane(&self, out: &mut Vec<Op>, i: usize)
        requires
            self@.wf(),
            i < self@.panes.len(),
        ensures
            paint::ops_view(final(out)@) == paint::ops_view(old(out)@) + self@.pane_ops(i as int),
    {
        let pane = &self.panes[i];
        assert(self@.panes[i as int] == pane@);
        let shown = pane.snapshot();
        paint::draw_pane(out, pane.rect(), self.frame(i), pane.pid, &shown);
    }

    /// Emits the footer.
    pub fn draw_footer(&self, out: &mut Vec<Op>)
        ensures
            paint::ops_view(final(out)@) == paint::ops_view(old(out)@) + self@.footer_ops(),
    {
        let none: Option<String> = None;
        let key = if self.debug_mode {
            &self.last_key_code
        } else {
            &none
        };
        paint::draw_footer(out, self.broadcast_mode, key, self.screen_width, self.screen_height);
    }

    /// The commands that show everything.
    pub fn draw(&mut self) -> (out: Vec<Op>)
        requires
            old(self)@.wf(),
        ensures
            final(self)@.wf(),
            final(self)@ == old(self)@.drawn(),
            paint::ops_view(out@) == old(self)@.draw_ops(),
    {
        let ghost before = self@;
        let mut out: Vec<Op> = Vec::new();
        paint::emit(&mut out, Op::HideCursor);
        if self.full_redraw {
            paint::emit(&mut out, Op::ClearAll);
            self.full_redraw = false;
        }
        let ghost base = paint::ops_view(out@);
        assert(base =~= seq![OpView::HideCursor] + paint::needed(
            before.full_redraw,
            OpView::ClearAll,
        ));
        proof {
            model_lemmas::lemma_drawn(before);
        }
        if self.is_zoomed {
            if self.active_index < self.panes.len() {
                self.draw_pane(&mut out, self.active_index);
            }
        } else {
            let mut i: usize = 0;
            assert(base + self@.panes_ops(0) =~= base);
            while i < self.panes.len()
                invariant
                    self@.wf(),
                    i <= self.panes@.len(),
                    paint::ops_view(out@) == base + self@.panes_ops(i as nat),
                decreases self.panes.len() - i,
            {
                self.draw_pane(&mut out, i);
                assert((base + self@.panes_ops(i as nat)) + self@.pane_ops(i as int) =~= base + (
                self@.panes_ops(i as nat) + self@.pane_ops(i as int)));
                i = i + 1;
            }
        }
        assert(paint::ops_view(out@) =~= base + before.visible_ops());
        if !self.no_instructions {
            self.draw_footer(&mut out);
        }
        assert(paint::ops_view(out@) =~= base + before.visible_ops() + before.instruction_ops());
        if self.active_index < self.panes.len() {
            let active: usize = self.active_index;
            let pane = &self.panes[active];
            assert(self@.panes[active as int] == pane@);
            let shown = pane.snapshot();
            paint::draw_cursor(&mut out, pane.rect(), self.frame(active), &shown);
        }
        assert(paint::ops_view(out@) =~= before.draw_ops());
        out
    }

    /// Closes all panes at the end.
    pub fn cleanup(&self) -> (actions: Vec<Action>)
        ensures
            action::actions_view(actions@) == self@.cleanup(),
    {
        let mut actions = no_actions();
        let mut i: usize = 0;
        assert(action::actions_view(actions@) =~= self@.cleanup().take(0));
        while i < self.panes.len()
            invariant
                i <= self.panes@.len(),
                action::actions_view(actions@) == self@.cleanup().take(i as int),
            decreases self.panes.len() - i,
        {
            let terminal: usize = self.panes[i].terminal;
            action::request(&mut actions, Action::Close { terminal });
            i = i + 1;
            assert(action::actions_view(actions@) =~= self@.cleanup().take(i as int));
        }
        assert(self@.cleanup().take(i as int) =~= self@.cleanup());
        actions
    }

    /// Changes the ratio of the split to which `path` leads.
    fn set_ratio(root: &mut LayoutNode, path: &[bool], ratio: Ratio)
        requires
            old(root).has_path(path@),
        ensures
            *final(root) == old(root).with_ratio(path@, ratio),
    {
        let node = LayoutNode::node_at_path_mut(root, path);
        match node {
            LayoutNode::Split { split_ratio, .. } => {
                *split_ratio = ratio;
            },
            LayoutNode::Leaf { .. } => {},
        }
    }
}

/// An empty list of actions.
fn no_actions() -> (actions: Vec<Action>)
    ensures
        action::actions_view(actions@) == Seq::<ActionView>::empty(),
{
    let actions: Vec<Action> = Vec::new();
    assert(action::actions_view(actions@) =~= Seq::<ActionView>::empty());
    actions
}

} // verus!
