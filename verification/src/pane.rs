//! A pane: a place on the screen, and the terminal that is shown in it.
use vstd::prelude::*;

use crate::action;
use crate::action::{Action, ActionView};
use crate::geometry::{Area, Rect};
use crate::vt;
use crate::vt::{
    ScreenView, Snapshot, SnapshotView, VirtualScreen, MAX_COLS, MIN_COLS, MIN_ROWS,
};

verus! {

/// The most output of a terminal that is kept, in bytes.
pub const MAX_OUTPUT: usize = 1_000_000;

/// How much output is kept when there is too much: half, so that a busy terminal is not rebuilt
/// at every piece of output.
pub const KEPT_OUTPUT: usize = 500_000;

/// No pane reaches past this column or row. Sums of a few positions stay within 32 bits.
pub const FAR: usize = 0x2000_0000;

/// A pane. `terminal` names the pseudo-terminal shown in it and `pid` its program; `output` is
/// what the program has written, and `screen` shows that.
pub struct Pane {
    pub id: usize,
    pub x: usize,
    pub y: usize,
    pub width: usize,
    pub height: usize,
    pub pid: u32,
    pub terminal: usize,
    pub output: Vec<u8>,
    pub screen: VirtualScreen,
}

/// The value of a pane.
#[verifier::ext_equal]
pub struct PaneView {
    pub id: usize,
    pub area: Area,
    pub pid: u32,
    pub terminal: usize,
    pub output: Seq<u8>,
    pub screen: ScreenView,
}

impl View for Pane {
    type V = PaneView;

    open spec fn view(&self) -> PaneView {
        PaneView {
            id: self.id,
            area: Area {
                x: self.x as int,
                y: self.y as int,
                width: self.width as int,
                height: self.height as int,
            },
            pid: self.pid,
            terminal: self.terminal,
            output: self.output@,
            screen: self.screen@,
        }
    }
}

/// What the border leaves of `n` columns or rows: two less, but at least one.
pub open spec fn inner(n: int) -> u16 {
    if n < 3 {
        1
    } else if n > 65537 {
        65535
    } else {
        (n - 2) as u16
    }
}

/// The virtual screen of a pane, new and empty, on which `output` is to be shown: it has the rows
/// and columns that the border leaves, unless vt100 panics on that size while it processes the
/// output.
pub open spec fn empty_screen(area: Area, output: Seq<u8>) -> ScreenView {
    let (rows, cols) = (inner(area.height), inner(area.width));
    if vt::fails(rows, cols, output) {
        ScreenView { rows: vt::safe_rows(rows), cols: vt::safe_cols(cols), fed: Seq::empty() }
    } else {
        ScreenView { rows, cols, fed: Seq::empty() }
    }
}

/// The borders of two areas leave other rows or columns.
pub open spec fn differ(a: Area, b: Area) -> bool {
    inner(a.height) != inner(b.height) || inner(a.width) != inner(b.width)
}

impl PaneView {
    /// The pane lies within reach of the terminal.
    pub open spec fn near(area: Area) -> bool {
        &&& 0 <= area.x
        &&& 0 <= area.y
        &&& 0 <= area.width
        &&& 0 <= area.height
        &&& area.right() <= FAR
        &&& area.bottom() <= FAR
    }

    /// The screen shows exactly the output that is kept, which is not more than allowed. It has
    /// the rows and columns that the border leaves, or those of the nearest size on which vt100
    /// renders every output; `fitting` says when. On a delicate size no piece has spoiled the
    /// output.
    pub open spec fn wf(self) -> bool {
        let (rows, cols) = (inner(self.area.height), inner(self.area.width));
        &&& Self::near(self.area)
        &&& ({
            ||| self.screen.rows == rows && self.screen.cols == cols
            ||| self.screen.rows == vt::safe_rows(rows) && self.screen.cols == vt::safe_cols(cols)
        })
        &&& vt::delicate(self.screen.rows, self.screen.cols) ==> vt::joins(self.screen.fed)
        &&& self.screen.fed.flatten() == self.output
        &&& self.output.len() <= MAX_OUTPUT
    }

    /// The screen has the rows and columns that the border leaves, unless vt100 panics on that
    /// size while it processes the output: then it has those of the nearest size on which it
    /// never does.
    pub open spec fn fitting(self) -> bool {
        self.has_room_for(self.output)
    }

    /// What is shown in the pane: its screen, or the row of the cursor where that has more rows
    /// than there is room for.
    pub open spec fn shown(self) -> SnapshotView {
        if self.screen.rows > inner(self.area.height) {
            self.screen.shown().cursor_line()
        } else {
            self.screen.shown()
        }
    }

    /// The pane with its screen made anew from the output that is kept.
    pub open spec fn rebuilt(self) -> PaneView {
        PaneView {
            screen: ScreenView {
                fed: seq![self.output],
                ..empty_screen(self.area, self.output)
            },
            ..self
        }
    }

    /// A screen for the pane with this output would have the size that its screen has.
    pub open spec fn has_room_for(self, output: Seq<u8>) -> bool {
        empty_screen(self.area, output).rows == self.screen.rows && empty_screen(
            self.area,
            output,
        ).cols == self.screen.cols
    }

    /// A pane of this size would have room for other rows or columns.
    pub open spec fn other_size(self, area: Area) -> bool {
        differ(self.area, area)
    }

    /// The pane in another place. Its screen is made anew if its size changes.
    pub open spec fn placed(self, area: Area) -> PaneView {
        if self.other_size(area) {
            PaneView { area, ..self }.rebuilt()
        } else {
            PaneView { area, ..self }
        }
    }

    /// Telling the terminal its size.
    pub open spec fn size_notice(self) -> ActionView {
        ActionView::Resize {
            terminal: self.terminal,
            rows: inner(self.area.height),
            cols: inner(self.area.width),
        }
    }

    /// What the terminal is told when its pane is moved: its size, if that changes.
    pub open spec fn placed_notices(self, area: Area) -> Seq<ActionView> {
        if self.other_size(area) {
            seq![self.placed(area).size_notice()]
        } else {
            Seq::empty()
        }
    }

    /// The pane after the terminal has written `data`. The oldest output is dropped when there
    /// is too much. A screen whose size does not fit the new output is made anew, and so is one of
    /// a delicate size if the data would spoil the output.
    pub open spec fn with_output(self, data: Seq<u8>) -> PaneView {
        let all = self.output + data;
        if all.len() > MAX_OUTPUT {
            PaneView { output: all.skip(all.len() - KEPT_OUTPUT), ..self }.rebuilt()
        } else if !self.has_room_for(all) || (vt::delicate(self.screen.rows, self.screen.cols)
            && vt::spoils(self.output, data)) {
            PaneView { output: all, ..self }.rebuilt()
        } else {
            PaneView {
                output: all,
                screen: ScreenView { fed: self.screen.fed.push(data), ..self.screen },
                ..self
            }
        }
    }

    /// The pane with the terminal of `other` in it.
    pub open spec fn with_terminal(self, other: PaneView) -> PaneView {
        PaneView {
            pid: other.pid,
            terminal: other.terminal,
            output: other.output,
            ..self
        }.rebuilt()
    }
}

/// `inner`, computed.
pub fn inner_size(n: usize) -> (result: u16)
    ensures
        result == inner(n as int),
{
    if n < 3 {
        1
    } else if n > 65537 {
        65535
    } else {
        (n - 2) as u16
    }
}

impl Pane {
    /// A pane in which a new terminal is shown.
    pub fn new(
        id: usize,
        x: usize,
        y: usize,
        width: usize,
        height: usize,
        terminal: usize,
        pid: u32,
    ) -> (pane: Pane)
        requires
            x + width <= FAR,
            y + height <= FAR,
        ensures
            pane@.wf(),
            pane@ == (PaneView {
                id,
                area: Area {
                    x: x as int,
                    y: y as int,
                    width: width as int,
                    height: height as int,
                },
                pid,
                terminal,
                output: Seq::empty(),
                screen: ScreenView {
                    rows: inner(height as int),
                    cols: inner(width as int),
                    fed: Seq::empty(),
                },
            }),
    {
        let output: Vec<u8> = Vec::new();
        let screen = Self::new_screen(width, height, &output);
        Pane { id, x, y, width, height, pid, terminal, output, screen }
    }

    /// An empty screen for a pane of the given size, on which `output` can be shown.
    fn new_screen(width: usize, height: usize, output: &Vec<u8>) -> (screen: VirtualScreen)
        ensures
            ({
                let area = Area { x: 0, y: 0, width: width as int, height: height as int };
                screen@ == empty_screen(area, output@)
            }),
    {
        let (rows, cols): (u16, u16) = Self::screen_size(width, height, output);
        let screen = VirtualScreen::new(rows, cols);
        assert(screen@.fed =~= Seq::<Seq<u8>>::empty());
        screen
    }

    /// The rows and columns of the virtual screen of a pane.
    fn screen_size(width: usize, height: usize, output: &Vec<u8>) -> (size: (u16, u16))
        ensures
            ({
                let area = Area { x: 0, y: 0, width: width as int, height: height as int };
                &&& size.0 == empty_screen(area, output@).rows
                &&& size.1 == empty_screen(area, output@).cols
            }),
            size.0 >= 1,
            size.1 >= 1,
    {
        let (rows, cols): (u16, u16) = (inner_size(height), inner_size(width));
        if !vt::is_failing(rows, cols, output.as_slice()) {
            return (rows, cols);
        }
        let safe_rows: u16 = if rows < MIN_ROWS {
            MIN_ROWS
        } else {
            rows
        };
        let safe_cols: u16 = if cols < MIN_COLS {
            MIN_COLS
        } else if cols > MAX_COLS {
            MAX_COLS
        } else {
            cols
        };
        (safe_rows, safe_cols)
    }

    /// The columns that the terminal has.
    pub fn cols(&self) -> (cols: u16)
        ensures
            cols == inner(self@.area.width),
    {
        inner_size(self.width)
    }

    /// The rows that the terminal has.
    pub fn rows(&self) -> (rows: u16)
        ensures
            rows == inner(self@.area.height),
    {
        inner_size(self.height)
    }

    /// The place of the pane.
    pub fn rect(&self) -> (rect: Rect)
        ensures
            rect@ == self@.area,
    {
        Rect { x: self.x, y: self.y, width: self.width, height: self.height }
    }

    /// Makes the screen anew from the output that is kept.
    pub fn rebuild_screen(&mut self)
        ensures
            final(self)@ == old(self)@.rebuilt(),
    {
        self.screen = Self::new_screen(self.width, self.height, &self.output);
        proof {
            lemma_screen_renders(self@.area, self@.output);
        }
        self.screen.process(self.output.as_slice());
        assert(self@.screen.fed =~= seq![self@.output]);
    }

    /// Telling the terminal its size.
    pub fn notify_window_size(&self) -> (action: Action)
        ensures
            action@ == self@.size_notice(),
    {
        Action::Resize { terminal: self.terminal, rows: self.rows(), cols: self.cols() }
    }

    /// Moves the pane, and returns what the terminal is to be told.
    pub fn resize(&mut self, x: usize, y: usize, width: usize, height: usize) -> (actions: Vec<
        Action,
    >)
        requires
            old(self)@.wf(),
            x + width <= FAR,
            y + height <= FAR,
        ensures
            final(self)@.wf(),
            ({
                let area = Area {
                    x: x as int,
                    y: y as int,
                    width: width as int,
                    height: height as int,
                };
                &&& final(self)@ == old(self)@.placed(area)
                &&& action::actions_view(actions@) == old(self)@.placed_notices(area)
            }),
    {
        let mut actions: Vec<Action> = Vec::new();
        let changed = inner_size(height) != self.rows() || inner_size(width) != self.cols();
        self.x = x;
        self.y = y;
        self.width = width;
        self.height = height;
        assert(action::actions_view(actions@) =~= Seq::<ActionView>::empty());
        if changed {
            self.rebuild_screen();
            proof {
                vt::lemma_one_piece(self@.output);
            }
            action::request(&mut actions, self.notify_window_size());
            assert(action::actions_view(actions@) =~= seq![self@.size_notice()]);
        }
        actions
    }

    /// Whether the screen has the size for the output that is kept.
    fn is_fitting(&self) -> (result: bool)
        ensures
            result == self@.has_room_for(self@.output),
    {
        let (rows, cols): (u16, u16) = Self::screen_size(self.width, self.height, &self.output);
        let (screen_rows, screen_cols): (u16, u16) = self.screen.size();
        rows == screen_rows && cols == screen_cols
    }

    /// Records what the terminal has written.
    pub fn feed_data(&mut self, data: &[u8])
        requires
            old(self)@.wf(),
        ensures
            final(self)@.wf(),
            final(self)@ == old(self)@.with_output(data@),
    {
        let spoiled = self.is_delicate() && self.is_spoiled_by(data);
        self.output.extend_from_slice(data);
        assert(self.output@ =~= old(self)@.output + data@);
        if self.output.len() > MAX_OUTPUT {
            let start: usize = self.output.len() - KEPT_OUTPUT;
            self.output = self.output.split_off(start);
            assert(self.output@ =~= (old(self)@.output + data@).skip(start as int));
            self.rebuild_screen();
            proof {
                vt::lemma_one_piece(self@.output);
            }
        } else if spoiled || !self.is_fitting() {
            self.rebuild_screen();
            proof {
                vt::lemma_one_piece(self@.output);
            }
        } else {
            proof {
                vt::lemma_joins_push(self@.screen.fed, data@);
            }
            self.screen.process(data);
        }
    }

    /// Whether vt100 can panic on a screen of this size.
    fn is_delicate(&self) -> (result: bool)
        ensures
            result == vt::delicate(self@.screen.rows, self@.screen.cols),
    {
        let (rows, cols): (u16, u16) = self.screen.size();
        rows < MIN_ROWS || cols < MIN_COLS || cols > MAX_COLS
    }

    /// Whether the data would spoil the output.
    fn is_spoiled_by(&self, data: &[u8]) -> (result: bool)
        ensures
            result == vt::spoils(self@.output, data@),
    {
        if self.output.len() == 0 || data.len() < 3 {
            return false;
        }
        let last: u8 = self.output[self.output.len() - 1];
        0xc2 <= last && last <= 0xdf && 0x80 <= data[0] && data[0] <= 0xbf && data[1] < 0x80
            && data[2] >= 0x80
    }

    /// What is shown in the pane. As long as no piece has spoiled the output, that is what a
    /// new screen shows to which the output that is kept is given at once.
    pub fn snapshot(&self) -> (shown: Snapshot)
        requires
            self@.wf(),
        ensures
            shown@ == self@.shown(),
            shown@.wf(),
            vt::joins(self@.screen.fed) && self@.fitting() ==> shown@ == self@.rebuilt().shown(),
    {
        let shown = self.screen.snapshot();
        if shown.rows > self.rows() {
            shown.into_cursor_line()
        } else {
            shown
        }
    }

    /// Exchanges the terminals of two panes, and returns what they are to be told.
    pub fn swap_terminal_state(&mut self, other: &mut Pane) -> (actions: Vec<Action>)
        requires
            old(self)@.wf(),
            old(other)@.wf(),
        ensures
            final(self)@.wf(),
            final(other)@.wf(),
            final(self)@ == old(self)@.with_terminal(old(other)@),
            final(other)@ == old(other)@.with_terminal(old(self)@),
            action::actions_view(actions@) == seq![
                old(self)@.with_terminal(old(other)@).size_notice(),
                old(other)@.with_terminal(old(self)@).size_notice(),
            ],
    {
        std::mem::swap(&mut self.pid, &mut other.pid);
        std::mem::swap(&mut self.terminal, &mut other.terminal);
        std::mem::swap(&mut self.output, &mut other.output);
        self.rebuild_screen();
        other.rebuild_screen();
        proof {
            vt::lemma_one_piece(self@.output);
            vt::lemma_one_piece(other@.output);
        }
        let mut actions: Vec<Action> = Vec::new();
        action::request(&mut actions, self.notify_window_size());
        action::request(&mut actions, other.notify_window_size());
        assert(action::actions_view(actions@) =~= seq![self@.size_notice(), other@.size_notice()]);
        actions
    }
}

/// A pane is whole with the terminal of another one in it.
pub proof fn lemma_rebuilt_wf(pane: PaneView, other: PaneView)
    requires
        pane.wf(),
        other.wf(),
    ensures
        pane.with_terminal(other).wf(),
{
    vt::lemma_one_piece(other.output);
}

/// The screen of a pane renders the output for which it was made.
proof fn lemma_screen_renders(area: Area, output: Seq<u8>)
    ensures
        empty_screen(area, output).renders(output),
{
    let none = Seq::<Seq<u8>>::empty();
    assert(none.flatten() + output =~= output);
    assert(none.push(output) =~= seq![output]);
    vt::lemma_one_piece(output);
}

} // verus!
