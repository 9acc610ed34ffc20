//! Drawing: the terminal commands that show panes, their borders and the footer.
use vstd::prelude::*;
use vstd::string::*;

use crate::geometry::{Area, Rect};
use crate::pane::FAR;
use crate::text;
use crate::vt::{Cell, CellView, Color, Snapshot, SnapshotView};

verus! {

/// A colour that the outer terminal can be set to.
#[derive(Clone, Copy, Debug, PartialEq, Eq, Structural)]
pub enum Paint {
    Reset,
    Yellow,
    White,
    Ansi(u8),
    Rgb(u8, u8, u8),
}

/// A text attribute of the outer terminal.
#[derive(Clone, Copy, Debug, PartialEq, Eq, Structural)]
pub enum Attr {
    Reset,
    Bold,
    Dim,
    Italic,
    Underlined,
    Reverse,
    NormalIntensity,
}

/// A command to the outer terminal. `MoveTo` has the column first.
#[derive(Debug)]
pub enum Op {
    HideCursor,
    ShowCursor,
    ClearAll,
    MoveTo(u16, u16),
    Foreground(Paint),
    Background(Paint),
    Attribute(Attr),
    Print(String),
}

/// The value of a command.
pub enum OpView {
    HideCursor,
    ShowCursor,
    ClearAll,
    MoveTo(u16, u16),
    Foreground(Paint),
    Background(Paint),
    Attribute(Attr),
    Print(Seq<char>),
}

impl View for Op {
    type V = OpView;

    open spec fn view(&self) -> OpView {
        match *self {
            Op::HideCursor => OpView::HideCursor,
            Op::ShowCursor => OpView::ShowCursor,
            Op::ClearAll => OpView::ClearAll,
            Op::MoveTo(x, y) => OpView::MoveTo(x, y),
            Op::Foreground(paint) => OpView::Foreground(paint),
            Op::Background(paint) => OpView::Background(paint),
            Op::Attribute(attr) => OpView::Attribute(attr),
            Op::Print(text) => OpView::Print(text@),
        }
    }
}

/// The values of a list of commands.
pub open spec fn ops_view(ops: Seq<Op>) -> Seq<OpView> {
    ops.map_values(|op: Op| op@)
}

/// Adds a command to a list.
pub fn emit(out: &mut Vec<Op>, op: Op)
    ensures
        ops_view(final(out)@) == ops_view(old(out)@).push(op@),
{
    out.push(op);
    assert(ops_view(out@) =~= ops_view(old(out)@).push(op@));
}

/// Adds a command to a list, if it is needed.
fn emit_if(out: &mut Vec<Op>, condition: bool, op: Op)
    ensures
        ops_view(final(out)@) == ops_view(old(out)@) + needed(condition, op@),
{
    if condition {
        emit(out, op);
    }
    assert(ops_view(out@) =~= ops_view(old(out)@) + needed(condition, op@));
}

/// Adds the printing of one character to a list.
fn emit_char(out: &mut Vec<Op>, c: char)
    ensures
        ops_view(final(out)@) == ops_view(old(out)@).push(OpView::Print(seq![c])),
{
    let mut text = String::new();
    text.push(c);
    assert(text@ =~= seq![c]);
    emit(out, Op::Print(text));
}

/// The colour of the outer terminal for a colour of a cell.
pub open spec fn paint_of(color: Color) -> Paint {
    match color {
        Color::Default => Paint::Reset,
        Color::Idx(i) => Paint::Ansi(i),
        Color::Rgb(r, g, b) => Paint::Rgb(r, g, b),
    }
}

/// `paint_of`, computed.
pub fn to_ct_color(color: Color) -> (paint: Paint)
    ensures
        paint == paint_of(color),
{
    match color {
        Color::Default => Paint::Reset,
        Color::Idx(i) => Paint::Ansi(i),
        Color::Rgb(r, g, b) => Paint::Rgb(r, g, b),
    }
}

/// How text is shown.
#[derive(Clone, Copy, Debug, PartialEq, Eq, Structural)]
pub struct Look {
    pub fg: Paint,
    pub bg: Paint,
    pub bold: bool,
    pub underline: bool,
    pub reverse: bool,
    pub italic: bool,
    pub dim: bool,
}

/// How a cell is shown. Under a marked cursor it is reversed.
pub open spec fn look_of(cell: CellView, marked: bool) -> Look {
    Look {
        fg: paint_of(cell.fgcolor),
        bg: paint_of(cell.bgcolor),
        bold: cell.bold,
        underline: cell.underline,
        reverse: cell.inverse || marked,
        italic: cell.italic,
        dim: cell.dim,
    }
}

/// What is printed for a cell: its text, or a space if it has none.
pub open spec fn glyphs_of(cell: CellView) -> Seq<char> {
    if cell.contents.len() == 0 {
        seq![' ']
    } else {
        cell.contents
    }
}

/// What is known of how the outer terminal shows text: which attributes have been set, and the
/// colours, if they have.
#[derive(Clone, Copy, Debug, PartialEq, Eq, Structural)]
pub struct Pen {
    pub fg: Option<Paint>,
    pub bg: Option<Paint>,
    pub bold: bool,
    pub underline: bool,
    pub reverse: bool,
    pub italic: bool,
    pub dim: bool,
}

impl Pen {
    /// No attribute is set and no colour is known.
    pub open spec fn fresh() -> Pen {
        Pen {
            fg: None,
            bg: None,
            bold: false,
            underline: false,
            reverse: false,
            italic: false,
            dim: false,
        }
    }

    /// No attribute is set and the colours are the default ones.
    pub open spec fn blank() -> Pen {
        Pen { fg: Some(Paint::Reset), bg: Some(Paint::Reset), ..Pen::fresh() }
    }

    /// Text is shown like this.
    pub open spec fn of(look: Look) -> Pen {
        Pen {
            fg: Some(look.fg),
            bg: Some(look.bg),
            bold: look.bold,
            underline: look.underline,
            reverse: look.reverse,
            italic: look.italic,
            dim: look.dim,
        }
    }

    /// An attribute has been set that `look` does not have: all must be taken back.
    pub open spec fn must_reset(self, look: Look) -> bool {
        ||| self.bold && !look.bold
        ||| self.underline && !look.underline
        ||| self.reverse && !look.reverse
        ||| self.italic && !look.italic
        ||| self.dim && !look.dim
    }

    /// The pen before a cell of that look, after a reset if there must be one.
    pub open spec fn ready(self, look: Look) -> Pen {
        if self.must_reset(look) {
            Pen::fresh()
        } else {
            self
        }
    }
}

/// A command, if it is needed.
pub open spec fn needed(condition: bool, op: OpView) -> Seq<OpView> {
    if condition {
        seq![op]
    } else {
        Seq::empty()
    }
}

/// The commands that make the outer terminal show text like `look`.
pub open spec fn change_ops(pen: Pen, look: Look) -> Seq<OpView> {
    let ready = pen.ready(look);
    needed(pen.must_reset(look), OpView::Attribute(Attr::Reset))
        + needed(ready.fg != Some(look.fg), OpView::Foreground(look.fg))
        + needed(ready.bg != Some(look.bg), OpView::Background(look.bg))
        + needed(look.bold && !ready.bold, OpView::Attribute(Attr::Bold))
        + needed(look.underline && !ready.underline, OpView::Attribute(Attr::Underlined))
        + needed(look.reverse && !ready.reverse, OpView::Attribute(Attr::Reverse))
        + needed(look.italic && !ready.italic, OpView::Attribute(Attr::Italic))
        + needed(look.dim && !ready.dim, OpView::Attribute(Attr::Dim))
}

/// The commands that show a cell, or the lack of one.
pub open spec fn cell_ops(pen: Pen, cell: Option<CellView>, marked: bool) -> Seq<OpView> {
    match cell {
        Some(cell) => change_ops(pen, look_of(cell, marked)).push(OpView::Print(glyphs_of(cell))),
        None => {
            if marked {
                needed(!pen.reverse, OpView::Attribute(Attr::Reverse)).push(OpView::Print(seq![' ']))
            } else if pen != Pen::blank() {
                seq![
                    OpView::Attribute(Attr::Reset),
                    OpView::Foreground(Paint::Reset),
                    OpView::Background(Paint::Reset),
                    OpView::Print(seq![' ']),
                ]
            } else {
                seq![OpView::Print(seq![' '])]
            }
        },
    }
}

/// The pen after a cell.
pub open spec fn pen_after(pen: Pen, cell: Option<CellView>, marked: bool) -> Pen {
    match cell {
        Some(cell) => Pen::of(look_of(cell, marked)),
        None => if marked {
            Pen { reverse: true, ..pen }
        } else {
            Pen::blank()
        },
    }
}

/// The pen after the first `n` cells of a row.
pub open spec fn row_pen(row: Seq<Option<CellView>>, mark: Option<int>, n: nat) -> Pen
    decreases n,
{
    if n == 0 {
        Pen::fresh()
    } else {
        pen_after(row_pen(row, mark, (n - 1) as nat), row[n - 1], mark == Some(n - 1))
    }
}

/// The commands that show the first `n` cells of a row, with the cursor marked in column `mark`.
pub open spec fn row_ops(row: Seq<Option<CellView>>, mark: Option<int>, n: nat) -> Seq<OpView>
    decreases n,
{
    if n == 0 {
        Seq::empty()
    } else {
        row_ops(row, mark, (n - 1) as nat) + cell_ops(
            row_pen(row, mark, (n - 1) as nat),
            row[n - 1],
            mark == Some(n - 1),
        )
    }
}

/// Emits what shows a cell, and returns the pen after it.
pub fn draw_cell(out: &mut Vec<Op>, pen: Pen, cell: &Option<Cell>, marked: bool) -> (after: Pen)
    ensures
        ops_view(final(out)@) == ops_view(old(out)@) + cell_ops(
            pen,
            crate::vt::cell_view(*cell),
            marked,
        ),
        after == pen_after(pen, crate::vt::cell_view(*cell), marked),
{
    match cell {
        Some(cell) => {
            let look = Look {
                fg: to_ct_color(cell.fgcolor),
                bg: to_ct_color(cell.bgcolor),
                bold: cell.bold,
                underline: cell.underline,
                reverse: cell.inverse || marked,
                italic: cell.italic,
                dim: cell.dim,
            };
            change_look(out, pen, look);
            let ghost changed = ops_view(out@);
            if cell.contents.as_str().is_empty() {
                emit_char(out, ' ');
            } else {
                emit(out, Op::Print(cell.contents.clone()));
            }
            assert(ops_view(out@) =~= ops_view(old(out)@) + cell_ops(pen, Some(cell@), marked));
            Pen {
                fg: Some(look.fg),
                bg: Some(look.bg),
                bold: look.bold,
                underline: look.underline,
                reverse: look.reverse,
                italic: look.italic,
                dim: look.dim,
            }
        },
        None => {
            let mut after = pen;
            if marked {
                if !pen.reverse {
                    emit(out, Op::Attribute(Attr::Reverse));
                }
                after.reverse = true;
            } else {
                let blank = Pen {
                    fg: Some(Paint::Reset),
                    bg: Some(Paint::Reset),
                    bold: false,
                    underline: false,
                    reverse: false,
                    italic: false,
                    dim: false,
                };
                if !same_pen(pen, blank) {
                    emit(out, Op::Attribute(Attr::Reset));
                    emit(out, Op::Foreground(Paint::Reset));
                    emit(out, Op::Background(Paint::Reset));
                }
                after = blank;
            }
            emit_char(out, ' ');
            assert(ops_view(out@) =~= ops_view(old(out)@) + cell_ops(pen, None, marked));
            after
        },
    }
}

/// The colour is known to be this one.
fn same_paint(known: Option<Paint>, paint: Paint) -> (result: bool)
    ensures
        result == (known == Some(paint)),
{
    match known {
        Some(known) => known == paint,
        None => false,
    }
}

/// The pen is `blank`.
fn same_pen(pen: Pen, blank: Pen) -> (result: bool)
    requires
        blank == Pen::blank(),
    ensures
        result == (pen == blank),
{
    same_paint(pen.fg, Paint::Reset) && same_paint(pen.bg, Paint::Reset) && !pen.bold
        && !pen.underline && !pen.reverse && !pen.italic && !pen.dim
}

/// Emits what makes the outer terminal show text like `look`.
fn change_look(out: &mut Vec<Op>, pen: Pen, look: Look)
    ensures
        ops_view(final(out)@) == ops_view(old(out)@) + change_ops(pen, look),
{
    let reset = (pen.bold && !look.bold) || (pen.underline && !look.underline) || (pen.reverse
        && !look.reverse) || (pen.italic && !look.italic) || (pen.dim && !look.dim);
    let ready = if reset {
        Pen {
            fg: None,
            bg: None,
            bold: false,
            underline: false,
            reverse: false,
            italic: false,
            dim: false,
        }
    } else {
        pen
    };
    let ghost base = ops_view(out@);
    let ghost n0 = needed(reset, OpView::Attribute(Attr::Reset));
    let ghost n1 = needed(ready.fg != Some(look.fg), OpView::Foreground(look.fg));
    let ghost n2 = needed(ready.bg != Some(look.bg), OpView::Background(look.bg));
    let ghost n3 = needed(look.bold && !ready.bold, OpView::Attribute(Attr::Bold));
    let ghost n4 = needed(look.underline && !ready.underline, OpView::Attribute(Attr::Underlined));
    let ghost n5 = needed(look.reverse && !ready.reverse, OpView::Attribute(Attr::Reverse));
    let ghost n6 = needed(look.italic && !ready.italic, OpView::Attribute(Attr::Italic));
    let ghost n7 = needed(look.dim && !ready.dim, OpView::Attribute(Attr::Dim));
    emit_if(out, reset, Op::Attribute(Attr::Reset));
    emit_if(out, !same_paint(ready.fg, look.fg), Op::Foreground(look.fg));
    emit_if(out, !same_paint(ready.bg, look.bg), Op::Background(look.bg));
    emit_if(out, look.bold && !ready.bold, Op::Attribute(Attr::Bold));
    emit_if(out, look.underline && !ready.underline, Op::Attribute(Attr::Underlined));
    emit_if(out, look.reverse && !ready.reverse, Op::Attribute(Attr::Reverse));
    emit_if(out, look.italic && !ready.italic, Op::Attribute(Attr::Italic));
    emit_if(out, look.dim && !ready.dim, Op::Attribute(Attr::Dim));
    proof {
        lemma_join(base, n0, n1);
        lemma_join(base, n0 + n1, n2);
        lemma_join(base, n0 + n1 + n2, n3);
        lemma_join(base, n0 + n1 + n2 + n3, n4);
        lemma_join(base, n0 + n1 + n2 + n3 + n4, n5);
        lemma_join(base, n0 + n1 + n2 + n3 + n4 + n5, n6);
        lemma_join(base, n0 + n1 + n2 + n3 + n4 + n5 + n6, n7);
    }
}

/// Joining lists of commands is associative.
proof fn lemma_join(a: Seq<OpView>, b: Seq<OpView>, c: Seq<OpView>)
    ensures
        (a + b) + c == a + (b + c),
{
    assert((a + b) + c =~= a + (b + c));
}

/// What a pane is drawn with, besides its own state: whether it is marked as the active one,
/// whether input goes to all panes, whether it fills the screen, the size of the outer terminal,
/// and how many rows at its end are kept free.
#[derive(Clone, Copy, Debug, PartialEq, Eq, Structural)]
pub struct Frame {
    pub active: bool,
    pub broadcast: bool,
    pub zoomed: bool,
    pub screen_width: usize,
    pub screen_height: usize,
    pub bottom: usize,
}

/// `a` less `b`, but not less than nothing.
pub open spec fn less(a: int, b: int) -> int {
    if a < b {
        0
    } else {
        a - b
    }
}

/// The lesser of two numbers.
pub open spec fn lesser(a: int, b: int) -> int {
    if a < b {
        a
    } else {
        b
    }
}

/// How many numbers there are from `first` to `last`.
pub open spec fn count(first: int, last: int) -> nat {
    less(last + 1, first) as nat
}

impl Frame {
    /// The first row that panes may not use.
    pub open spec fn end(self) -> int {
        less(self.screen_height as int, self.bottom as int)
    }

    /// The colour of the border.
    pub open spec fn border(self) -> Paint {
        if self.active {
            Paint::Yellow
        } else {
            Paint::White
        }
    }
}

impl Area {
    /// The column of the right border.
    pub open spec fn last_col(self) -> int {
        self.x + less(self.width, 1)
    }

    /// The row of the lower border.
    pub open spec fn last_row(self) -> int {
        self.y + less(self.height, 1)
    }
}

/// A character at a position.
pub open spec fn mark_ops(x: int, y: int, c: char) -> Seq<OpView> {
    seq![OpView::MoveTo(x as u16, y as u16), OpView::Print(seq![c])]
}

/// The piece of a border at `at`: one end, the other, or what is between.
pub open spec fn piece(at: int, first: int, last: int, start: char, end: char, line: char) -> char {
    if at == first {
        start
    } else if at == last {
        end
    } else {
        line
    }
}

/// The upper and the lower border in column `x`.
pub open spec fn column_ops(area: Area, frame: Frame, x: int) -> Seq<OpView> {
    (if area.y < frame.screen_height {
        mark_ops(x, area.y, piece(x, area.x, area.last_col(), '┌', '┐', '─'))
    } else {
        Seq::empty()
    }) + (if area.last_row() < frame.end() {
        mark_ops(x, area.last_row(), piece(x, area.x, area.last_col(), '└', '┘', '─'))
    } else {
        Seq::empty()
    })
}

/// The left and the right border in row `y`.
pub open spec fn line_ops(area: Area, frame: Frame, y: int) -> Seq<OpView> {
    (if area.x < frame.screen_width {
        mark_ops(area.x, y, piece(y, area.y, area.last_row(), '┌', '└', '│'))
    } else {
        Seq::empty()
    }) + (if area.last_col() < frame.screen_width {
        mark_ops(area.last_col(), y, piece(y, area.y, area.last_row(), '┐', '┘', '│'))
    } else {
        Seq::empty()
    })
}

/// The upper and the lower border in the first `n` columns of a pane.
pub open spec fn columns_ops(area: Area, frame: Frame, n: nat) -> Seq<OpView>
    decreases n,
{
    if n == 0 {
        Seq::empty()
    } else {
        columns_ops(area, frame, (n - 1) as nat) + column_ops(area, frame, area.x + n - 1)
    }
}

/// The left and the right border in the first `n` rows of a pane.
pub open spec fn lines_ops(area: Area, frame: Frame, n: nat) -> Seq<OpView>
    decreases n,
{
    if n == 0 {
        Seq::empty()
    } else {
        lines_ops(area, frame, (n - 1) as nat) + line_ops(area, frame, area.y + n - 1)
    }
}

/// How many rows of its virtual screen a pane shows.
pub open spec fn shown_rows(area: Area, frame: Frame, rows: u16) -> nat {
    lesser(rows as int, less(lesser(area.last_row(), frame.end()), area.y + 1)) as nat
}

/// How many columns of its virtual screen a pane shows.
pub open spec fn shown_cols(area: Area, frame: Frame, cols: u16) -> nat {
    lesser(
        cols as int,
        less(lesser(area.last_col(), frame.screen_width as int), area.x + 1),
    ) as nat
}

/// The column in which the cursor is marked in row `r`: when input goes to all panes, each one
/// marks its own.
pub open spec fn mark_in(frame: Frame, shown: SnapshotView, r: int) -> Option<int> {
    if frame.broadcast && r == shown.cursor_row {
        Some(shown.cursor_col as int)
    } else {
        None
    }
}

/// Row `r` of the virtual screen.
pub open spec fn content_ops(area: Area, frame: Frame, shown: SnapshotView, r: int) -> Seq<OpView> {
    seq![OpView::MoveTo((area.x + 1) as u16, (area.y + 1 + r) as u16)] + row_ops(
        shown.cells[r],
        mark_in(frame, shown, r),
        shown_cols(area, frame, shown.cols),
    ) + seq![OpView::Attribute(Attr::Reset), OpView::Foreground(frame.border())]
}

/// The first `n` rows of the virtual screen.
pub open spec fn contents_ops(area: Area, frame: Frame, shown: SnapshotView, n: nat) -> Seq<OpView>
    decreases n,
{
    if n == 0 {
        Seq::empty()
    } else {
        contents_ops(area, frame, shown, (n - 1) as nat) + content_ops(area, frame, shown, n - 1)
    }
}

/// The title, without its end.
pub open spec fn title_start(frame: Frame, pid: u32) -> Seq<char> {
    (if frame.zoomed {
        " [ ZOOMED ] "@
    } else {
        Seq::empty()
    }) + " [ PID: "@ + text::decimal(pid as nat) + " ] "@
}

/// The title of an active pane; a shorter one where there is little room.
pub open spec fn title(frame: Frame, pid: u32, width: int) -> Seq<char> {
    let long = title_start(frame, pid) + (if frame.broadcast {
        " [ BROADCAST ] "@
    } else {
        " [ ACTIVE ] "@
    });
    if width > long.len() + 6 {
        long
    } else {
        title_start(frame, pid) + "[*] "@
    }
}

/// The title in the middle of the upper border, if there is room for it.
pub open spec fn title_ops(area: Area, frame: Frame, pid: u32) -> Seq<OpView> {
    let title = title(frame, pid, area.width);
    let at = area.x + (area.width - title.len()) / 2;
    if area.width >= title.len() + 2 && area.x < at && at + title.len() < area.right() {
        seq![
            OpView::MoveTo(at as u16, area.y as u16),
            OpView::Attribute(Attr::Reverse),
            OpView::Print(title),
            OpView::Attribute(Attr::Reset),
        ]
    } else {
        Seq::empty()
    }
}

/// The commands that show the border of a pane.
pub open spec fn border_ops(area: Area, frame: Frame) -> Seq<OpView> {
    seq![
        OpView::Foreground(frame.border()),
        OpView::Attribute(
            if frame.active {
                Attr::Bold
            } else {
                Attr::NormalIntensity
            },
        ),
    ] + columns_ops(
        area,
        frame,
        count(area.x, lesser(area.last_col(), less(frame.screen_width as int, 1))),
    ) + lines_ops(area, frame, count(area.y, lesser(area.last_row(), less(frame.end(), 1))))
}

/// The commands that show a pane.
pub open spec fn pane_ops(area: Area, frame: Frame, pid: u32, shown: SnapshotView) -> Seq<OpView> {
    border_ops(area, frame) + contents_ops(
        area,
        frame,
        shown,
        shown_rows(area, frame, shown.rows),
    ) + (if frame.active {
        title_ops(area, frame, pid)
    } else {
        Seq::empty()
    }) + seq![
        OpView::Attribute(Attr::Reset),
        OpView::Background(Paint::Reset),
        OpView::Foreground(Paint::Reset),
    ]
}

/// `less`, computed.
fn saturating_less(a: usize, b: usize) -> (result: usize)
    ensures
        result == less(a as int, b as int),
{
    if a < b {
        0
    } else {
        a - b
    }
}

/// The lesser of two numbers, computed.
fn lesser_of(a: usize, b: usize) -> (result: usize)
    ensures
        result == lesser(a as int, b as int),
{
    if a < b {
        a
    } else {
        b
    }
}

/// Emits a character at a position.
fn draw_mark(out: &mut Vec<Op>, x: usize, y: usize, c: char)
    ensures
        ops_view(final(out)@) == ops_view(old(out)@) + mark_ops(x as int, y as int, c),
{
    emit(out, Op::MoveTo(x as u16, y as u16));
    emit_char(out, c);
    assert(ops_view(out@) =~= ops_view(old(out)@) + mark_ops(x as int, y as int, c));
}

/// `piece`, computed.
fn border_piece(at: usize, first: usize, last: usize, start: char, end: char, line: char) -> (c:
    char)
    ensures
        c == piece(at as int, first as int, last as int, start, end, line),
{
    if at == first {
        start
    } else if at == last {
        end
    } else {
        line
    }
}

/// The rectangle is within reach of a terminal.
pub open spec fn drawable(rect: Rect) -> bool {
    rect.x + rect.width <= FAR && rect.y + rect.height <= FAR
}

/// Emits the border of a pane.
fn draw_border(out: &mut Vec<Op>, rect: Rect, frame: Frame)
    requires
        drawable(rect),
    ensures
        ops_view(final(out)@) == ops_view(old(out)@) + columns_ops(
            rect@,
            frame,
            count(rect@.x, lesser(rect@.last_col(), less(frame.screen_width as int, 1))),
        ) + lines_ops(
            rect@,
            frame,
            count(rect@.y, lesser(rect@.last_row(), less(frame.end(), 1))),
        ),
{
    let right: usize = rect.x + saturating_less(rect.width, 1);
    let bottom_y: usize = rect.y + saturating_less(rect.height, 1);
    let end: usize = saturating_less(frame.screen_height, frame.bottom);
    let last_x: usize = lesser_of(right, saturating_less(frame.screen_width, 1));
    let ghost base = ops_view(out@);
    let mut x: usize = rect.x;
    assert(base + columns_ops(rect@, frame, 0) =~= base);
    while x <= last_x
        invariant
            drawable(rect),
            right == rect@.last_col(),
            bottom_y == rect@.last_row(),
            end == frame.end(),
            last_x <= right,
            rect.x <= x,
            x <= last_x + 1 || x == rect.x,
            right < usize::MAX,
            ops_view(out@) == base + columns_ops(rect@, frame, (x - rect.x) as nat),
        decreases last_x + 1 - x,
    {
        let ghost before = ops_view(out@);
        if rect.y < frame.screen_height {
            draw_mark(out, x, rect.y, border_piece(x, rect.x, right, '┌', '┐', '─'));
        }
        if bottom_y < end {
            draw_mark(out, x, bottom_y, border_piece(x, rect.x, right, '└', '┘', '─'));
        }
        proof {
            assert(ops_view(out@) =~= before + column_ops(rect@, frame, x as int));
            lemma_join(
                base,
                columns_ops(rect@, frame, (x - rect.x) as nat),
                column_ops(rect@, frame, x as int),
            );
        }
        x = x + 1;
    }
    let ghost base = ops_view(out@);
    let last_y: usize = lesser_of(bottom_y, saturating_less(end, 1));
    let mut y: usize = rect.y;
    assert(base + lines_ops(rect@, frame, 0) =~= base);
    while y <= last_y
        invariant
            drawable(rect),
            right == rect@.last_col(),
            bottom_y == rect@.last_row(),
            end == frame.end(),
            last_y <= bottom_y,
            rect.y <= y,
            y <= last_y + 1 || y == rect.y,
            bottom_y < usize::MAX,
            ops_view(out@) == base + lines_ops(rect@, frame, (y - rect.y) as nat),
        decreases last_y + 1 - y,
    {
        let ghost before = ops_view(out@);
        if rect.x < frame.screen_width {
            draw_mark(out, rect.x, y, border_piece(y, rect.y, bottom_y, '┌', '└', '│'));
        }
        if right < frame.screen_width {
            draw_mark(out, right, y, border_piece(y, rect.y, bottom_y, '┐', '┘', '│'));
        }
        proof {
            assert(ops_view(out@) =~= before + line_ops(rect@, frame, y as int));
            lemma_join(
                base,
                lines_ops(rect@, frame, (y - rect.y) as nat),
                line_ops(rect@, frame, y as int),
            );
        }
        y = y + 1;
    }
}

/// Emits the first `n` cells of a row.
pub fn draw_row(out: &mut Vec<Op>, row: &Vec<Option<Cell>>, mark: Option<u16>, n: usize)
    requires
        n <= row@.len(),
    ensures
        ops_view(final(out)@) == ops_view(old(out)@) + row_ops(
            crate::vt::row_view(row@),
            (match mark {
                Some(m) => Some(m as int),
                None => None,
            }),
            n as nat,
        ),
{
    let ghost shown = crate::vt::row_view(row@);
    let ghost marked_col: Option<int> = match mark {
        Some(m) => Some(m as int),
        None => None,
    };
    let ghost base = ops_view(out@);
    let mut pen = Pen {
        fg: None,
        bg: None,
        bold: false,
        underline: false,
        reverse: false,
        italic: false,
        dim: false,
    };
    let mut c: usize = 0;
    assert(base + row_ops(shown, marked_col, 0) =~= base);
    while c < n
        invariant
            c <= n,
            n <= row@.len(),
            shown == crate::vt::row_view(row@),
            marked_col == (match mark {
                Some(m) => Some(m as int),
                None => None,
            }),
            pen == row_pen(shown, marked_col, c as nat),
            ops_view(out@) == base + row_ops(shown, marked_col, c as nat),
        decreases n - c,
    {
        let marked = match mark {
            Some(m) => m as usize == c,
            None => false,
        };
        assert(shown[c as int] == crate::vt::cell_view(row@[c as int]));
        let ghost before = pen;
        pen = draw_cell(out, pen, &row[c], marked);
        proof {
            lemma_join(
                base,
                row_ops(shown, marked_col, c as nat),
                cell_ops(before, shown[c as int], marked),
            );
        }
        c = c + 1;
    }
}

/// The part of the virtual screen of a pane that fits into it.
fn draw_contents(out: &mut Vec<Op>, rect: Rect, frame: Frame, shown: &Snapshot)
    requires
        drawable(rect),
        shown@.wf(),
    ensures
        ops_view(final(out)@) == ops_view(old(out)@) + contents_ops(
            rect@,
            frame,
            shown@,
            shown_rows(rect@, frame, shown@.rows),
        ),
{
    let right: usize = rect.x + saturating_less(rect.width, 1);
    let bottom_y: usize = rect.y + saturating_less(rect.height, 1);
    let end: usize = saturating_less(frame.screen_height, frame.bottom);
    let border = if frame.active {
        Paint::Yellow
    } else {
        Paint::White
    };
    let rows: usize = lesser_of(
        shown.rows as usize,
        saturating_less(lesser_of(bottom_y, end), rect.y + 1),
    );
    let cols: usize = lesser_of(
        shown.cols as usize,
        saturating_less(lesser_of(right, frame.screen_width), rect.x + 1),
    );
    let ghost base = ops_view(out@);
    let mut r: usize = 0;
    assert(base + contents_ops(rect@, frame, shown@, 0) =~= base);
    while r < rows
        invariant
            drawable(rect),
            shown@.wf(),
            r <= rows,
            rows <= shown.rows,
            rows == shown_rows(rect@, frame, shown@.rows),
            cols == shown_cols(rect@, frame, shown@.cols),
            cols <= shown.cols,
            rows > 0 ==> rect.y + 1 + rows <= rect.y + rect.height,
            border == frame.border(),
            ops_view(out@) == base + contents_ops(rect@, frame, shown@, r as nat),
        decreases rows - r,
    {
        let ghost before = ops_view(out@);
        let mark: Option<u16> = if frame.broadcast && r == shown.cursor_row as usize {
            Some(shown.cursor_col)
        } else {
            None
        };
        assert(shown@.cells[r as int] == crate::vt::row_view(shown.cells@[r as int]@));
        emit(out, Op::MoveTo((rect.x + 1) as u16, (rect.y + 1 + r) as u16));
        draw_row(out, &shown.cells[r], mark, cols);
        emit(out, Op::Attribute(Attr::Reset));
        emit(out, Op::Foreground(border));
        proof {
            assert(ops_view(out@) =~= before + content_ops(rect@, frame, shown@, r as int));
            lemma_join(
                base,
                contents_ops(rect@, frame, shown@, r as nat),
                content_ops(rect@, frame, shown@, r as int),
            );
        }
        r = r + 1;
    }
}

/// The title of an active pane.
fn make_title(frame: Frame, pid: u32, width: usize) -> (result: String)
    requires
        width < usize::MAX,
    ensures
        result@ == title(frame, pid, width as int),
{
    let mut start = String::new();
    if frame.zoomed {
        start.append(" [ ZOOMED ] ");
    }
    start.append(" [ PID: ");
    text::push_decimal(&mut start, pid);
    start.append(" ] ");
    assert(start@ =~= title_start(frame, pid));
    let mut long = start.clone();
    if frame.broadcast {
        long.append(" [ BROADCAST ] ");
    } else {
        long.append(" [ ACTIVE ] ");
    }
    let len: usize = long.as_str().unicode_len();
    if width > len && width - len > 6 {
        long
    } else {
        start.append("[*] ");
        start
    }
}

/// Emits the title of an active pane.
fn draw_title(out: &mut Vec<Op>, rect: Rect, frame: Frame, pid: u32)
    requires
        drawable(rect),
    ensures
        ops_view(final(out)@) == ops_view(old(out)@) + title_ops(rect@, frame, pid),
{
    let title = make_title(frame, pid, rect.width);
    let len: usize = title.as_str().unicode_len();
    if rect.width >= len && rect.width - len >= 2 {
        let at: usize = rect.x + (rect.width - len) / 2;
        if rect.x < at && at + len < rect.x + rect.width {
            emit(out, Op::MoveTo(at as u16, rect.y as u16));
            emit(out, Op::Attribute(Attr::Reverse));
            emit(out, Op::Print(title));
            emit(out, Op::Attribute(Attr::Reset));
        }
    }
    assert(ops_view(out@) =~= ops_view(old(out)@) + title_ops(rect@, frame, pid));
}

/// Emits what shows a pane: its border, as much of its virtual screen as fits, and, if it is
/// active, its title.
pub fn draw_pane(out: &mut Vec<Op>, rect: Rect, frame: Frame, pid: u32, shown: &Snapshot)
    requires
        drawable(rect),
        shown@.wf(),
    ensures
        ops_view(final(out)@) == ops_view(old(out)@) + pane_ops(rect@, frame, pid, shown@),
{
    let ghost base = ops_view(out@);
    if frame.active {
        emit(out, Op::Foreground(Paint::Yellow));
        emit(out, Op::Attribute(Attr::Bold));
    } else {
        emit(out, Op::Foreground(Paint::White));
        emit(out, Op::Attribute(Attr::NormalIntensity));
    }
    let ghost a = ops_view(out@);
    draw_border(out, rect, frame);
    draw_contents(out, rect, frame, shown);
    let ghost b = ops_view(out@);
    if frame.active {
        draw_title(out, rect, frame, pid);
    }
    let ghost c = ops_view(out@);
    emit(out, Op::Attribute(Attr::Reset));
    emit(out, Op::Background(Paint::Reset));
    emit(out, Op::Foreground(Paint::Reset));
    proof {
        let p1 = seq![
            OpView::Foreground(frame.border()),
            OpView::Attribute(
                if frame.active {
                    Attr::Bold
                } else {
                    Attr::NormalIntensity
                },
            ),
        ];
        let p2 = columns_ops(
            rect@,
            frame,
            count(rect@.x, lesser(rect@.last_col(), less(frame.screen_width as int, 1))),
        );
        let p3 = lines_ops(
            rect@,
            frame,
            count(rect@.y, lesser(rect@.last_row(), less(frame.end(), 1))),
        );
        let p4 = contents_ops(rect@, frame, shown@, shown_rows(rect@, frame, shown@.rows));
        let p5 = if frame.active {
            title_ops(rect@, frame, pid)
        } else {
            Seq::empty()
        };
        let p6 = seq![
            OpView::Attribute(Attr::Reset),
            OpView::Background(Paint::Reset),
            OpView::Foreground(Paint::Reset),
        ];
        assert(a =~= base + p1);
        lemma_join(base, p1, p2);
        lemma_join(base, p1 + p2, p3);
        lemma_join(base, p1 + p2 + p3, p4);
        assert(c =~= b + p5);
        lemma_join(base, p1 + p2 + p3 + p4, p5);
        assert(ops_view(out@) =~= c + p6);
        lemma_join(base, p1 + p2 + p3 + p4 + p5, p6);
    }
}

/// What shows the last key in the footer.
pub open spec fn key_tag(key: Seq<char>) -> Seq<char> {
    "  [key:"@ + key + "]"@
}

/// The first line of the footer. It ends in the last key, if that is to be shown.
pub open spec fn footer_first(broadcast: bool, key: Option<Seq<char>>, width: int) -> Seq<char> {
    let keys = if broadcast {
        " [ BROADCAST MODE ACTIVE ] - [Ctrl+B]:Toggle Broadcast "@
    } else {
        " [Ctrl+V]:Split V | [Ctrl+H]:Split H | [Ctrl+Space]:Maximize | [Ctrl+B]:Broadcast "@
    };
    match key {
        Some(key) => {
            let tag = key_tag(key);
            text::padded(keys, less(width, tag.len() as int) as nat) + tag
        },
        None => keys,
    }
}

/// The second line of the footer.
pub open spec fn footer_second() -> Seq<char> {
    " [Ctrl+Shift+Arrows]:Resize | [Alt+Shift+Arrows]:Swap "@
}

/// The commands that show the footer in the last two rows.
pub open spec fn footer_ops(
    broadcast: bool,
    key: Option<Seq<char>>,
    width: int,
    height: int,
) -> Seq<OpView> {
    seq![
        OpView::Attribute(Attr::Reverse),
        OpView::MoveTo(0, less(height, 2) as u16),
        OpView::Print(text::padded(footer_first(broadcast, key, width), width as nat)),
        OpView::MoveTo(0, less(height, 1) as u16),
        OpView::Print(text::padded(footer_second(), width as nat)),
        OpView::Attribute(Attr::Reset),
    ]
}

/// The value of a text that may be missing.
pub open spec fn text_view(text: Option<String>) -> Option<Seq<char>> {
    match text {
        Some(text) => Some(text@),
        None => None,
    }
}

/// Emits the footer.
pub fn draw_footer(
    out: &mut Vec<Op>,
    broadcast: bool,
    key: &Option<String>,
    width: usize,
    height: usize,
)
    ensures
        ops_view(final(out)@) == ops_view(old(out)@) + footer_ops(
            broadcast,
            text_view(*key),
            width as int,
            height as int,
        ),
{
    let keys: &str = if broadcast {
        " [ BROADCAST MODE ACTIVE ] - [Ctrl+B]:Toggle Broadcast "
    } else {
        " [Ctrl+V]:Split V | [Ctrl+H]:Split H | [Ctrl+Space]:Maximize | [Ctrl+B]:Broadcast "
    };
    let first: String = match key {
        Some(key) => {
            let mut tag = String::from_str("  [key:");
            tag.append(key.as_str());
            tag.append("]");
            let room: usize = saturating_less(width, tag.as_str().unicode_len());
            let mut first = text::pad_to(keys, room);
            first.append(tag.as_str());
            first
        },
        None => String::from_str(keys),
    };
    emit(out, Op::Attribute(Attr::Reverse));
    emit(out, Op::MoveTo(0, saturating_less(height, 2) as u16));
    emit(out, Op::Print(text::pad_to(first.as_str(), width)));
    emit(out, Op::MoveTo(0, saturating_less(height, 1) as u16));
    emit(
        out,
        Op::Print(text::pad_to(" [Ctrl+Shift+Arrows]:Resize | [Alt+Shift+Arrows]:Swap ", width)),
    );
    emit(out, Op::Attribute(Attr::Reset));
    assert(ops_view(out@) =~= ops_view(old(out)@) + footer_ops(
        broadcast,
        text_view(*key),
        width as int,
        height as int,
    ));
}

/// The commands that put the cursor of the outer terminal where that of the active pane is, or
/// hide it if it is not to be seen there.
pub open spec fn cursor_ops(area: Area, frame: Frame, shown: SnapshotView) -> Seq<OpView> {
    let x = area.x + 1 + shown.cursor_col;
    let y = area.y + 1 + shown.cursor_row;
    if x <= area.x + less(area.width, 2) && y <= area.y + less(area.height, 2) && x
        < frame.screen_width && y < frame.end() {
        seq![OpView::MoveTo(x as u16, y as u16), OpView::ShowCursor]
    } else {
        seq![OpView::HideCursor]
    }
}

/// Emits what puts or hides the cursor.
pub fn draw_cursor(out: &mut Vec<Op>, rect: Rect, frame: Frame, shown: &Snapshot)
    requires
        drawable(rect),
    ensures
        ops_view(final(out)@) == ops_view(old(out)@) + cursor_ops(rect@, frame, shown@),
{
    let x: usize = rect.x + 1 + shown.cursor_col as usize;
    let y: usize = rect.y + 1 + shown.cursor_row as usize;
    let end: usize = saturating_less(frame.screen_height, frame.bottom);
    if x <= rect.x + saturating_less(rect.width, 2) && y <= rect.y + saturating_less(
        rect.height,
        2,
    ) && x < frame.screen_width && y < end {
        emit(out, Op::MoveTo(x as u16, y as u16));
        emit(out, Op::ShowCursor);
    } else {
        emit(out, Op::HideCursor);
    }
    assert(ops_view(out@) =~= ops_view(old(out)@) + cursor_ops(rect@, frame, shown@));
}

} // verus!
