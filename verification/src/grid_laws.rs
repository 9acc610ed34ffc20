//! What the drawing commands put on the grid of the outer terminal: which text is seen in which
//! cell when they have been carried out.
use vstd::prelude::*;

use crate::geometry::Area;
use crate::paint;
use crate::paint::{Attr, Frame, Look, OpView, Paint, Pen};
use crate::paint_laws;
use crate::vt::{CellView, SnapshotView};

verus! {

/// What is seen in a cell of the outer terminal: column `offset` of a text, and how it is shown.
pub struct Mark {
    pub text: Seq<char>,
    pub look: Look,
    pub offset: int,
}

/// The outer terminal while one of its cells is watched: where its cursor is, how it shows text,
/// and what is seen in that cell.
pub struct Grid {
    pub x: int,
    pub y: int,
    pub look: Look,
    pub mark: Option<Mark>,
}

/// The terminal after a command, when the cell in column `px` and row `py` is watched. `columns`
/// says how many columns a text takes. `MoveTo` puts the cursor in a column and a row; `Print`
/// writes a text from the cursor on to the right and leaves the cursor behind it.
pub open spec fn step(
    columns: spec_fn(Seq<char>) -> int,
    grid: Grid,
    op: OpView,
    px: int,
    py: int,
) -> Grid {
    match op {
        OpView::MoveTo(x, y) => Grid { x: x as int, y: y as int, ..grid },
        OpView::Print(text) => Grid {
            x: grid.x + columns(text),
            mark: if grid.y == py && grid.x <= px < grid.x + columns(text) {
                Some(Mark { text, look: grid.look, offset: px - grid.x })
            } else {
                grid.mark
            },
            ..grid
        },
        OpView::ClearAll => Grid { mark: None, ..grid },
        _ => Grid { look: paint_laws::look_after(grid.look, op), ..grid },
    }
}

/// The terminal after a list of commands.
pub open spec fn steps(
    columns: spec_fn(Seq<char>) -> int,
    grid: Grid,
    ops: Seq<OpView>,
    px: int,
    py: int,
) -> Grid
    decreases ops.len(),
{
    if ops.len() == 0 {
        grid
    } else {
        step(columns, steps(columns, grid, ops.drop_last(), px, py), ops.last(), px, py)
    }
}

/// Commands after others go on where those have left off.
pub proof fn lemma_steps_join(
    columns: spec_fn(Seq<char>) -> int,
    grid: Grid,
    a: Seq<OpView>,
    b: Seq<OpView>,
    px: int,
    py: int,
)
    ensures
        steps(columns, grid, a + b, px, py) == steps(
            columns,
            steps(columns, grid, a, px, py),
            b,
            px,
            py,
        ),
    decreases b.len(),
{
    if b.len() == 0 {
        assert(a + b =~= a);
    } else {
        assert((a + b).drop_last() =~= a + b.drop_last());
        assert((a + b).last() == b.last());
        lemma_steps_join(columns, grid, a, b.drop_last(), px, py);
    }
}

/// A single command.
pub proof fn lemma_one_step(
    columns: spec_fn(Seq<char>) -> int,
    grid: Grid,
    op: OpView,
    px: int,
    py: int,
)
    ensures
        steps(columns, grid, seq![op], px, py) == step(columns, grid, op, px, py),
{
    let ops = seq![op];
    assert(ops.drop_last() =~= Seq::<OpView>::empty());
    assert(steps(columns, grid, ops.drop_last(), px, py) == grid);
}

/// The commands neither move, print nor clear.
pub open spec fn still(ops: Seq<OpView>) -> bool {
    forall|i: int|
        0 <= i < ops.len() ==> !(#[trigger] ops[i] is MoveTo || ops[i] is Print
            || ops[i] is ClearAll)
}

/// Commands that neither move, print nor clear change nothing but how text is shown.
proof fn lemma_still_steps(
    columns: spec_fn(Seq<char>) -> int,
    grid: Grid,
    ops: Seq<OpView>,
    px: int,
    py: int,
)
    requires
        still(ops),
    ensures
        steps(columns, grid, ops, px, py) == (Grid {
            look: paint_laws::looks_after(grid.look, ops),
            ..grid
        }),
    decreases ops.len(),
{
    if ops.len() > 0 {
        assert(ops.last() == ops[ops.len() - 1]);
        assert forall|i: int| 0 <= i < ops.drop_last().len() implies !(#[trigger] ops.drop_last()[i]
            is MoveTo || ops.drop_last()[i] is Print || ops.drop_last()[i] is ClearAll) by {
            assert(ops.drop_last()[i] == ops[i]);
        }
        lemma_still_steps(columns, grid, ops.drop_last(), px, py);
    }
}

/// Lists of such commands, one after the other.
proof fn lemma_still_join(a: Seq<OpView>, b: Seq<OpView>)
    requires
        still(a),
        still(b),
    ensures
        still(a + b),
{
}

/// The commands that change the look are such commands.
proof fn lemma_change_is_still(pen: Pen, look: Look)
    ensures
        still(paint::change_ops(pen, look)),
{
    let ready = pen.ready(look);
    let n0 = paint::needed(pen.must_reset(look), OpView::Attribute(Attr::Reset));
    let n1 = paint::needed(ready.fg != Some(look.fg), OpView::Foreground(look.fg));
    let n2 = paint::needed(ready.bg != Some(look.bg), OpView::Background(look.bg));
    let n3 = paint::needed(look.bold && !ready.bold, OpView::Attribute(Attr::Bold));
    let n4 = paint::needed(
        look.underline && !ready.underline,
        OpView::Attribute(Attr::Underlined),
    );
    let n5 = paint::needed(look.reverse && !ready.reverse, OpView::Attribute(Attr::Reverse));
    let n6 = paint::needed(look.italic && !ready.italic, OpView::Attribute(Attr::Italic));
    let n7 = paint::needed(look.dim && !ready.dim, OpView::Attribute(Attr::Dim));
    lemma_still_join(n0, n1);
    lemma_still_join(n0 + n1, n2);
    lemma_still_join(n0 + n1 + n2, n3);
    lemma_still_join(n0 + n1 + n2 + n3, n4);
    lemma_still_join(n0 + n1 + n2 + n3 + n4, n5);
    lemma_still_join(n0 + n1 + n2 + n3 + n4 + n5, n6);
    lemma_still_join(n0 + n1 + n2 + n3 + n4 + n5 + n6, n7);
}

/// The text that a cell of a virtual screen shows: its contents, or a space where it has none.
pub open spec fn text_of(cell: Option<CellView>) -> Seq<char> {
    match cell {
        Some(cell) => if cell.contents.len() == 0 {
            seq![' ']
        } else {
            cell.contents
        },
        None => seq![' '],
    }
}

/// How a cell is to be shown: in its colours and with its attributes, and reversed too where the
/// cursor is marked.
pub open spec fn look_wanted(cell: CellView, marked: bool) -> Look {
    Look {
        fg: match cell.fgcolor {
            crate::vt::Color::Default => Paint::Reset,
            crate::vt::Color::Idx(i) => Paint::Ansi(i),
            crate::vt::Color::Rgb(r, g, b) => Paint::Rgb(r, g, b),
        },
        bg: match cell.bgcolor {
            crate::vt::Color::Default => Paint::Reset,
            crate::vt::Color::Idx(i) => Paint::Ansi(i),
            crate::vt::Color::Rgb(r, g, b) => Paint::Rgb(r, g, b),
        },
        bold: cell.bold,
        underline: cell.underline,
        reverse: cell.inverse || marked,
        italic: cell.italic,
        dim: cell.dim,
    }
}

/// A cell is printed where the cursor is, and moves it by one column.
proof fn lemma_cell_steps(
    columns: spec_fn(Seq<char>) -> int,
    grid: Grid,
    pen: Pen,
    cell: Option<CellView>,
    marked: bool,
    start: Look,
    px: int,
    py: int,
)
    requires
        paint_laws::follows(pen, grid.look, start),
        columns(text_of(cell)) == 1,
    ensures
        ({
            let after = steps(columns, grid, paint::cell_ops(pen, cell, marked), px, py);
            &&& after.x == grid.x + 1
            &&& after.y == grid.y
            &&& paint_laws::follows(paint::pen_after(pen, cell, marked), after.look, start)
            &&& px == grid.x && py == grid.y ==> after.mark == Some(
                Mark { text: text_of(cell), look: after.look, offset: 0 },
            )
            &&& px != grid.x || py != grid.y ==> after.mark == grid.mark
            &&& cell matches Some(cell) ==> paint_laws::looks_like(
                look_wanted(cell, marked),
                after.look,
                start,
            )
        }),
{
    let all = paint::cell_ops(pen, cell, marked);
    let change = all.drop_last();
    assert(all.last() == OpView::Print(text_of(cell)));
    match cell {
        Some(c) => {
            lemma_change_look(pen, grid.look, c, marked, start);
            assert(change =~= paint::change_ops(pen, paint::look_of(c, marked)));
        },
        None => lemma_gap_look(pen, grid.look, marked, start),
    }
    lemma_still_steps(columns, grid, change, px, py);
}

/// The commands before the text of a cell set the look that is wanted.
proof fn lemma_change_look(pen: Pen, actual: Look, cell: CellView, marked: bool, start: Look)
    requires
        paint_laws::follows(pen, actual, start),
    ensures
        ({
            let change = paint::change_ops(pen, paint::look_of(cell, marked));
            let after = paint_laws::looks_after(actual, change);
            &&& still(change)
            &&& paint_laws::looks_like(look_wanted(cell, marked), after, start)
            &&& paint_laws::follows(paint::pen_after(pen, Some(cell), marked), after, start)
        }),
{
    let look = paint::look_of(cell, marked);
    lemma_change_is_still(pen, look);
    paint_laws::lemma_change_ops(pen, actual, look, start);
    assert(look == look_wanted(cell, marked));
}

/// The commands before the space that stands for a missing cell.
proof fn lemma_gap_look(pen: Pen, actual: Look, marked: bool, start: Look)
    requires
        paint_laws::follows(pen, actual, start),
    ensures
        ({
            let change = paint::cell_ops(pen, None, marked).drop_last();
            let after = paint_laws::looks_after(actual, change);
            &&& still(change)
            &&& paint_laws::follows(paint::pen_after(pen, None, marked), after, start)
        }),
{
    let change = paint::cell_ops(pen, None, marked).drop_last();
    let none = Seq::<OpView>::empty();
    assert(paint_laws::looks_after(actual, none) == actual);
    if marked {
        if pen.reverse {
            assert(change =~= none);
        } else {
            assert(change =~= seq![OpView::Attribute(Attr::Reverse)]);
            assert(change.drop_last() =~= none);
        }
    } else if pen != Pen::blank() {
        let reset = OpView::Attribute(Attr::Reset);
        let fg = OpView::Foreground(Paint::Reset);
        let bg = OpView::Background(Paint::Reset);
        assert(change =~= seq![reset, fg, bg]);
        assert(change.drop_last() =~= seq![reset, fg]);
        assert(change.drop_last().drop_last() =~= seq![reset]);
        assert(change.drop_last().drop_last().drop_last() =~= none);
        let a = paint_laws::look_after(actual, reset);
        assert(paint_laws::looks_after(actual, seq![reset]) == a);
        assert(paint_laws::looks_after(actual, seq![reset, fg]) == paint_laws::look_after(a, fg));
    } else {
        assert(change =~= none);
    }
}

/// The first `n` cells of a row are printed one beside the other, from the cursor on.
proof fn lemma_row_steps(
    columns: spec_fn(Seq<char>) -> int,
    grid: Grid,
    row: Seq<Option<CellView>>,
    mark: Option<int>,
    n: nat,
    px: int,
    py: int,
)
    requires
        n <= row.len(),
        forall|c: int| 0 <= c < n ==> columns(text_of(#[trigger] row[c])) == 1,
    ensures
        ({
            let after = steps(columns, grid, paint::row_ops(row, mark, n), px, py);
            let c = px - grid.x;
            &&& after.x == grid.x + n
            &&& after.y == grid.y
            &&& paint_laws::follows(paint::row_pen(row, mark, n), after.look, grid.look)
            &&& py == grid.y && 0 <= c < n ==> {
                &&& after.mark is Some
                &&& after.mark->0.text == text_of(row[c])
                &&& after.mark->0.offset == 0
                &&& row[c] is Some ==> paint_laws::looks_like(
                    look_wanted(row[c]->0, mark == Some(c)),
                    after.mark->0.look,
                    grid.look,
                )
            }
            &&& py != grid.y || c < 0 || n <= c ==> after.mark == grid.mark
        }),
    decreases n,
{
    if n > 0 {
        let m = (n - 1) as nat;
        lemma_row_steps(columns, grid, row, mark, m, px, py);
        let before = paint::row_ops(row, mark, m);
        let pen = paint::row_pen(row, mark, m);
        let mid = steps(columns, grid, before, px, py);
        let marked = mark == Some(m as int);
        let all = paint::cell_ops(pen, row[m as int], marked);
        lemma_cell_steps(columns, mid, pen, row[m as int], marked, grid.look, px, py);
        lemma_steps_join(columns, grid, before, all, px, py);
    }
}

/// Every cell of the virtual screen shows a text of one column.
pub open spec fn narrow(columns: spec_fn(Seq<char>) -> int, shown: SnapshotView) -> bool {
    forall|r: int, c: int|
        0 <= r < shown.rows && 0 <= c < shown.cols ==> columns(
            text_of(#[trigger] shown.cells[r][c]),
        ) == 1
}

/// The area is one that a terminal can reach, and has a border.
pub open spec fn framed(area: Area) -> bool {
    &&& 0 <= area.x
    &&& 0 <= area.y
    &&& 2 <= area.width
    &&& 2 <= area.height
    &&& area.x + area.width <= 65536
    &&& area.y + area.height <= 65536
}

/// Cell `c` of row `r` of the virtual screen is shown: it lies inside the border, on the outer
/// terminal and above the rows that are kept free.
pub open spec fn visible(
    area: Area,
    frame: Frame,
    shown: SnapshotView,
    r: int,
    c: int,
) -> bool {
    &&& 0 <= r < shown.rows
    &&& 0 <= c < shown.cols
    &&& area.x + 1 + c < area.x + area.width - 1
    &&& area.x + 1 + c < frame.screen_width
    &&& area.y + 1 + r < area.y + area.height - 1
    &&& area.y + 1 + r < frame.screen_height - frame.bottom
}

/// The cell is seen with its own text, colours and attributes, but for attributes that were set
/// before.
pub open spec fn seen(
    mark: Option<Mark>,
    frame: Frame,
    shown: SnapshotView,
    r: int,
    c: int,
    start: Look,
) -> bool {
    let cell = shown.cells[r][c];
    let marked = frame.broadcast && r == shown.cursor_row && c == shown.cursor_col;
    &&& mark is Some
    &&& mark->0.text == text_of(cell)
    &&& mark->0.offset == 0
    &&& cell is Some ==> paint_laws::looks_like(
        look_wanted(cell->0, marked),
        mark->0.look,
        start,
    )
}

/// No attribute is set.
pub open spec fn bare(look: Look) -> bool {
    !look.bold && !look.underline && !look.reverse && !look.italic && !look.dim
}

/// One row of the virtual screen.
proof fn lemma_content_steps(
    columns: spec_fn(Seq<char>) -> int,
    grid: Grid,
    area: Area,
    frame: Frame,
    shown: SnapshotView,
    r: int,
    px: int,
    py: int,
)
    requires
        shown.wf(),
        narrow(columns, shown),
        framed(area),
        0 <= r < paint::shown_rows(area, frame, shown.rows),
    ensures
        ({
            let after = steps(columns, grid, paint::content_ops(area, frame, shown, r), px, py);
            let c = px - area.x - 1;
            &&& bare(after.look)
            &&& after.look.fg == frame.border()
            &&& py == area.y + 1 + r && visible(area, frame, shown, r, c) ==> seen(
                after.mark,
                frame,
                shown,
                r,
                c,
                grid.look,
            )
            &&& py != area.y + 1 + r || !visible(area, frame, shown, r, c) ==> after.mark
                == grid.mark
        }),
{
    let to = OpView::MoveTo((area.x + 1) as u16, (area.y + 1 + r) as u16);
    let go = seq![to];
    let row = shown.cells[r];
    let mark = paint::mark_in(frame, shown, r);
    let cols = paint::shown_cols(area, frame, shown.cols);
    let cells = paint::row_ops(row, mark, cols);
    let end = seq![OpView::Attribute(Attr::Reset), OpView::Foreground(frame.border())];
    assert(paint::content_ops(area, frame, shown, r) == go + cells + end);
    lemma_one_step(columns, grid, to, px, py);
    let there = steps(columns, grid, go, px, py);
    assert(there.x == area.x + 1 && there.y == area.y + 1 + r);
    assert forall|c: int| 0 <= c < cols implies columns(text_of(#[trigger] row[c])) == 1 by {
        assert(columns(text_of(shown.cells[r][c])) == 1);
    }
    lemma_row_steps(columns, there, row, mark, cols, px, py);
    lemma_steps_join(columns, grid, go, cells, px, py);
    let printed = steps(columns, grid, go + cells, px, py);
    lemma_still_steps(columns, printed, end, px, py);
    lemma_steps_join(columns, grid, go + cells, end, px, py);
    assert(end.drop_last() =~= seq![OpView::Attribute(Attr::Reset)]);
    assert(end.drop_last().drop_last() =~= Seq::<OpView>::empty());
    assert(paint_laws::looks_after(printed.look, end.drop_last().drop_last()) == printed.look);
    assert(paint_laws::looks_after(printed.look, end.drop_last()) == paint_laws::look_after(
        printed.look,
        OpView::Attribute(Attr::Reset),
    ));
}

/// The first `n` rows of the virtual screen.
proof fn lemma_contents_steps(
    columns: spec_fn(Seq<char>) -> int,
    grid: Grid,
    area: Area,
    frame: Frame,
    shown: SnapshotView,
    n: nat,
    px: int,
    py: int,
)
    requires
        shown.wf(),
        narrow(columns, shown),
        framed(area),
        n <= paint::shown_rows(area, frame, shown.rows),
    ensures
        ({
            let after = steps(columns, grid, paint::contents_ops(area, frame, shown, n), px, py);
            let r = py - area.y - 1;
            let c = px - area.x - 1;
            &&& n > 0 ==> bare(after.look)
            &&& after.look.fg == (if n > 0 {
                frame.border()
            } else {
                grid.look.fg
            })
            &&& r < n && visible(area, frame, shown, r, c) ==> {
                &&& seen(after.mark, frame, shown, r, c, grid.look)
                &&& r > 0 ==> exists|start: Look| #[trigger]
                    bare(start) && seen(after.mark, frame, shown, r, c, start)
            }
            &&& n <= r || !visible(area, frame, shown, r, c) ==> after.mark == grid.mark
        }),
    decreases n,
{
    if n > 0 {
        let m = n - 1;
        let r = py - area.y - 1;
        let c = px - area.x - 1;
        lemma_contents_steps(columns, grid, area, frame, shown, m as nat, px, py);
        let before = paint::contents_ops(area, frame, shown, m as nat);
        let mid = steps(columns, grid, before, px, py);
        lemma_content_steps(columns, mid, area, frame, shown, m, px, py);
        lemma_steps_join(
            columns,
            grid,
            before,
            paint::content_ops(area, frame, shown, m),
            px,
            py,
        );
        let after = steps(columns, grid, paint::contents_ops(area, frame, shown, n), px, py);
        if m == 0 {
            assert(mid == grid);
        } else if r == m && visible(area, frame, shown, r, c) {
            assert(bare(mid.look));
            assert(seen(after.mark, frame, shown, r, c, mid.look));
            lemma_seen_bare(after.mark, frame, shown, r, c, mid.look, grid.look);
        }
    }
}

/// What is seen as wanted where no attribute was set is seen so all the more where some were.
proof fn lemma_seen_bare(
    mark: Option<Mark>,
    frame: Frame,
    shown: SnapshotView,
    r: int,
    c: int,
    start: Look,
    other: Look,
)
    requires
        bare(start),
        seen(mark, frame, shown, r, c, start),
    ensures
        seen(mark, frame, shown, r, c, other),
        shown.cells[r][c] is Some ==> mark->0.look == look_wanted(
            shown.cells[r][c]->0,
            frame.broadcast && r == shown.cursor_row && c == shown.cursor_col,
        ),
{
}

/// The glyph of cell `c` of row `r` of the virtual screen is seen in column `area.x + 1 + c` and
/// row `area.y + 1 + r` of the outer terminal, for every cell that is shown and wherever the pane
/// lies, with its own colours and attributes; only in the first row may an attribute stay that was
/// set before. No other cell of the outer terminal is written to: no glyph lands on the border or
/// outside the pane.
pub proof fn law_glyphs_land_inside_the_border(
    columns: spec_fn(Seq<char>) -> int,
    grid: Grid,
    area: Area,
    frame: Frame,
    shown: SnapshotView,
    px: int,
    py: int,
)
    requires
        shown.wf(),
        narrow(columns, shown),
        framed(area),
    ensures
        ({
            let rows = paint::shown_rows(area, frame, shown.rows);
            let after = steps(columns, grid, paint::contents_ops(area, frame, shown, rows), px, py);
            let (r, c) = (py - (area.y + 1), px - (area.x + 1));
            let marked = frame.broadcast && r == shown.cursor_row && c == shown.cursor_col;
            &&& visible(area, frame, shown, r, c) ==> {
                &&& seen(after.mark, frame, shown, r, c, grid.look)
                &&& (r > 0 || bare(grid.look)) && shown.cells[r][c] is Some ==> after.mark->0.look
                    == look_wanted(shown.cells[r][c]->0, marked)
            }
            &&& !visible(area, frame, shown, r, c) ==> after.mark == grid.mark
            &&& on_border(area, px, py) || !area.holds(px, py) ==> after.mark == grid.mark
            &&& rows > 0 ==> after.look.fg == frame.border()
            &&& rows == 0 ==> after.look.fg == grid.look.fg
        }),
{
    let rows = paint::shown_rows(area, frame, shown.rows);
    let after = steps(columns, grid, paint::contents_ops(area, frame, shown, rows), px, py);
    let (r, c) = (py - (area.y + 1), px - (area.x + 1));
    lemma_contents_steps(columns, grid, area, frame, shown, rows, px, py);
    if visible(area, frame, shown, r, c) {
        assert(r < rows);
        if r > 0 {
            let start = choose|start: Look| #[trigger]
                bare(start) && seen(after.mark, frame, shown, r, c, start);
            lemma_seen_bare(after.mark, frame, shown, r, c, start, grid.look);
        } else if bare(grid.look) {
            lemma_seen_bare(after.mark, frame, shown, r, c, grid.look, grid.look);
        }
    }
}

/// The cell is on the border of the area.
pub open spec fn on_border(area: Area, px: int, py: int) -> bool {
    area.holds(px, py) && (px == area.x || px == area.x + area.width - 1 || py == area.y || py
        == area.y + area.height - 1)
}

/// The line character of a border cell: the corners, the horizontal lines between them above and
/// below, and the vertical lines at the sides.
pub open spec fn line_at(area: Area, px: int, py: int) -> char {
    let (first, last) = (px == area.x, px == area.x + area.width - 1);
    if py == area.y {
        if first {
            '┌'
        } else if last {
            '┐'
        } else {
            '─'
        }
    } else if py == area.y + area.height - 1 {
        if first {
            '└'
        } else if last {
            '┘'
        } else {
            '─'
        }
    } else {
        '│'
    }
}

/// The line characters take one column each.
pub open spec fn lines_narrow(columns: spec_fn(Seq<char>) -> int) -> bool {
    &&& columns(seq!['┌']) == 1
    &&& columns(seq!['┐']) == 1
    &&& columns(seq!['└']) == 1
    &&& columns(seq!['┘']) == 1
    &&& columns(seq!['─']) == 1
    &&& columns(seq!['│']) == 1
}

/// A character at a position.
proof fn lemma_mark_steps(
    columns: spec_fn(Seq<char>) -> int,
    grid: Grid,
    x: int,
    y: int,
    c: char,
    px: int,
    py: int,
)
    requires
        0 <= x <= 65535,
        0 <= y <= 65535,
        columns(seq![c]) == 1,
    ensures
        ({
            let after = steps(columns, grid, paint::mark_ops(x, y, c), px, py);
            &&& after.look == grid.look
            &&& after.mark == (if px == x && py == y {
                Some(Mark { text: seq![c], look: grid.look, offset: 0 })
            } else {
                grid.mark
            })
        }),
{
    let ops = paint::mark_ops(x, y, c);
    let to = OpView::MoveTo(x as u16, y as u16);
    assert(ops.drop_last() =~= seq![to]);
    lemma_one_step(columns, grid, to, px, py);
}

/// The upper and lower border in the first `n` columns.
proof fn lemma_columns_steps(
    columns: spec_fn(Seq<char>) -> int,
    grid: Grid,
    area: Area,
    frame: Frame,
    n: nat,
    px: int,
    py: int,
)
    requires
        lines_narrow(columns),
        framed(area),
        n <= area.width,
    ensures
        ({
            let after = steps(columns, grid, paint::columns_ops(area, frame, n), px, py);
            let bottom = area.y + area.height - 1;
            let upper = py == area.y && area.y < frame.screen_height;
            let lower = py == bottom && bottom < frame.end();
            &&& after.look == grid.look
            &&& after.mark == (if area.x <= px < area.x + n && (upper || lower) {
                Some(Mark { text: seq![line_at(area, px, py)], look: grid.look, offset: 0 })
            } else {
                grid.mark
            })
        }),
    decreases n,
{
    if n > 0 {
        let x = area.x + n - 1;
        let bottom = area.y + area.height - 1;
        let none = Seq::<OpView>::empty();
        let a = if area.y < frame.screen_height {
            paint::mark_ops(
                x,
                area.y,
                paint::piece(x, area.x, area.last_col(), '┌', '┐', '─'),
            )
        } else {
            none
        };
        let b = if area.last_row() < frame.end() {
            paint::mark_ops(
                x,
                area.last_row(),
                paint::piece(x, area.x, area.last_col(), '└', '┘', '─'),
            )
        } else {
            none
        };
        lemma_columns_steps(columns, grid, area, frame, (n - 1) as nat, px, py);
        let before = paint::columns_ops(area, frame, (n - 1) as nat);
        let mid = steps(columns, grid, before, px, py);
        lemma_mark_steps(
            columns,
            mid,
            x,
            area.y,
            paint::piece(x, area.x, area.last_col(), '┌', '┐', '─'),
            px,
            py,
        );
        let half = steps(columns, mid, a, px, py);
        lemma_mark_steps(
            columns,
            half,
            x,
            bottom,
            paint::piece(x, area.x, area.last_col(), '└', '┘', '─'),
            px,
            py,
        );
        lemma_steps_join(columns, mid, a, b, px, py);
        lemma_steps_join(columns, grid, before, a + b, px, py);
    }
}

/// The left and right border in the first `n` rows.
proof fn lemma_lines_steps(
    columns: spec_fn(Seq<char>) -> int,
    grid: Grid,
    area: Area,
    frame: Frame,
    n: nat,
    px: int,
    py: int,
)
    requires
        lines_narrow(columns),
        framed(area),
        n <= area.height,
    ensures
        ({
            let after = steps(columns, grid, paint::lines_ops(area, frame, n), px, py);
            let right = area.x + area.width - 1;
            let at_left = px == area.x && area.x < frame.screen_width;
            let at_right = px == right && right < frame.screen_width;
            &&& after.look == grid.look
            &&& after.mark == (if area.y <= py < area.y + n && (at_left || at_right) {
                Some(Mark { text: seq![line_at(area, px, py)], look: grid.look, offset: 0 })
            } else {
                grid.mark
            })
        }),
    decreases n,
{
    if n > 0 {
        let y = area.y + n - 1;
        let right = area.x + area.width - 1;
        let none = Seq::<OpView>::empty();
        let a = if area.x < frame.screen_width {
            paint::mark_ops(
                area.x,
                y,
                paint::piece(y, area.y, area.last_row(), '┌', '└', '│'),
            )
        } else {
            none
        };
        let b = if area.last_col() < frame.screen_width {
            paint::mark_ops(
                area.last_col(),
                y,
                paint::piece(y, area.y, area.last_row(), '┐', '┘', '│'),
            )
        } else {
            none
        };
        lemma_lines_steps(columns, grid, area, frame, (n - 1) as nat, px, py);
        let before = paint::lines_ops(area, frame, (n - 1) as nat);
        let mid = steps(columns, grid, before, px, py);
        lemma_mark_steps(
            columns,
            mid,
            area.x,
            y,
            paint::piece(y, area.y, area.last_row(), '┌', '└', '│'),
            px,
            py,
        );
        let half = steps(columns, mid, a, px, py);
        lemma_mark_steps(
            columns,
            half,
            right,
            y,
            paint::piece(y, area.y, area.last_row(), '┐', '┘', '│'),
            px,
            py,
        );
        lemma_steps_join(columns, mid, a, b, px, py);
        lemma_steps_join(columns, grid, before, a + b, px, py);
    }
}

/// The cell is on the outer terminal, above the rows that are kept free.
pub open spec fn on_screen(frame: Frame, px: int, py: int) -> bool {
    px < frame.screen_width && py < frame.screen_height - frame.bottom
}

/// How the border of a pane is shown: yellow and bold if it is active, white if not.
pub open spec fn border_look(look: Look, active: bool) -> Look {
    Look {
        fg: if active {
            Paint::Yellow
        } else {
            Paint::White
        },
        bold: active,
        dim: active && look.dim,
        ..look
    }
}

/// The cell of the border is drawn: those on the outer terminal above the rows kept free, and of
/// the upper border those in these rows too. On a terminal without columns or without free rows
/// the first is treated as if it were there.
pub open spec fn border_drawn(area: Area, frame: Frame, px: int, py: int) -> bool {
    let end = if frame.screen_height < frame.bottom {
        0
    } else {
        frame.screen_height - frame.bottom
    };
    let across = px < frame.screen_width || px == 0;
    &&& on_border(area, px, py)
    &&& ({
        ||| py == area.y && py < frame.screen_height && across
        ||| py == area.y + area.height - 1 && py < end && across
        ||| (px == area.x || px == area.x + area.width - 1) && px < frame.screen_width && (py < end
            || py == 0)
    })
}

/// The border of a pane is a box: every cell of its edge that is on the screen shows its line
/// character, in the colour of the pane, and no other cell is written to, neither inside the pane
/// nor outside it.
pub proof fn law_border_is_a_box(
    columns: spec_fn(Seq<char>) -> int,
    grid: Grid,
    area: Area,
    frame: Frame,
    px: int,
    py: int,
)
    requires
        lines_narrow(columns),
        framed(area),
    ensures
        ({
            let after = steps(columns, grid, paint::border_ops(area, frame), px, py);
            let look = border_look(grid.look, frame.active);
            &&& after.look == look
            &&& on_border(area, px, py) && on_screen(frame, px, py) ==> border_drawn(
                area,
                frame,
                px,
                py,
            )
            &&& after.mark == (if border_drawn(area, frame, px, py) {
                Some(Mark { text: seq![line_at(area, px, py)], look, offset: 0 })
            } else {
                grid.mark
            })
        }),
{
    let across = paint::count(
        area.x,
        paint::lesser(area.last_col(), paint::less(frame.screen_width as int, 1)),
    );
    let down = paint::count(
        area.y,
        paint::lesser(area.last_row(), paint::less(frame.end(), 1)),
    );
    let first = seq![
        OpView::Foreground(frame.border()),
        OpView::Attribute(
            if frame.active {
                Attr::Bold
            } else {
                Attr::NormalIntensity
            },
        ),
    ];
    let upper = paint::columns_ops(area, frame, across);
    let sides = paint::lines_ops(area, frame, down);
    assert(paint::border_ops(area, frame) == first + upper + sides);
    lemma_still_steps(columns, grid, first, px, py);
    assert(first.drop_last() =~= seq![OpView::Foreground(frame.border())]);
    assert(first.drop_last().drop_last() =~= Seq::<OpView>::empty());
    assert(paint_laws::looks_after(grid.look, first.drop_last().drop_last()) == grid.look);
    assert(paint_laws::looks_after(grid.look, first.drop_last()) == paint_laws::look_after(
        grid.look,
        OpView::Foreground(frame.border()),
    ));
    let g1 = steps(columns, grid, first, px, py);
    assert(g1.look == border_look(grid.look, frame.active));
    lemma_columns_steps(columns, g1, area, frame, across, px, py);
    lemma_steps_join(columns, grid, first, upper, px, py);
    let g2 = steps(columns, grid, first + upper, px, py);
    lemma_lines_steps(columns, g2, area, frame, down, px, py);
    lemma_steps_join(columns, grid, first + upper, sides, px, py);
}

/// The column in which the title begins: as many columns are left of it as right of it, or one
/// less.
pub open spec fn title_column(area: Area, length: int) -> int {
    area.x + (area.width - length) / 2
}

/// There is room for a title of that length between the corners, with a piece of the border on
/// both sides.
pub open spec fn title_fits(area: Area, length: int) -> bool {
    area.x < title_column(area, length) && title_column(area, length) + length < area.x + area.width
}

/// The title covers the cell: it is in the middle of the upper border of an active pane, where
/// there is room for it.
pub open spec fn under_title(area: Area, frame: Frame, length: int, px: int, py: int) -> bool {
    &&& frame.active
    &&& title_fits(area, length)
    &&& py == area.y
    &&& title_column(area, length) <= px < title_column(area, length) + length
}

/// A title is reversed, in the middle of the upper border, and covers nothing else.
proof fn lemma_title_steps(
    columns: spec_fn(Seq<char>) -> int,
    grid: Grid,
    area: Area,
    frame: Frame,
    pid: u32,
    px: int,
    py: int,
)
    requires
        framed(area),
        columns(paint::title(frame, pid, area.width)) == paint::title(frame, pid, area.width).len(),
        frame.active,
    ensures
        ({
            let after = steps(columns, grid, paint::title_ops(area, frame, pid), px, py);
            let title = paint::title(frame, pid, area.width);
            after.mark == (if under_title(area, frame, title.len() as int, px, py) {
                Some(
                    Mark {
                        text: title,
                        look: Look { reverse: true, ..grid.look },
                        offset: px - title_column(area, title.len() as int),
                    },
                )
            } else {
                grid.mark
            })
        }),
{
    let ops = paint::title_ops(area, frame, pid);
    let title = paint::title(frame, pid, area.width);
    let at = title_column(area, title.len() as int);
    if ops.len() > 0 {
        let to = OpView::MoveTo(at as u16, area.y as u16);
        let reverse = OpView::Attribute(Attr::Reverse);
        let print = OpView::Print(title);
        let reset = OpView::Attribute(Attr::Reset);
        assert(ops =~= seq![to] + seq![reverse] + seq![print] + seq![reset]);
        lemma_one_step(columns, grid, to, px, py);
        let g1 = steps(columns, grid, seq![to], px, py);
        lemma_one_step(columns, g1, reverse, px, py);
        lemma_steps_join(columns, grid, seq![to], seq![reverse], px, py);
        let g2 = steps(columns, grid, seq![to] + seq![reverse], px, py);
        lemma_one_step(columns, g2, print, px, py);
        lemma_steps_join(columns, grid, seq![to] + seq![reverse], seq![print], px, py);
        let g3 = steps(columns, grid, seq![to] + seq![reverse] + seq![print], px, py);
        lemma_one_step(columns, g3, reset, px, py);
        lemma_steps_join(
            columns,
            grid,
            seq![to] + seq![reverse] + seq![print],
            seq![reset],
            px,
            py,
        );
    }
}

/// The texts of the multiplexer itself take one column per character.
pub open spec fn title_narrow(
    columns: spec_fn(Seq<char>) -> int,
    area: Area,
    frame: Frame,
    pid: u32,
) -> bool {
    columns(paint::title(frame, pid, area.width)) == paint::title(frame, pid, area.width).len()
}

/// What a pane looks like when it has been drawn on a terminal on which no attribute was set:
/// every cell of its virtual screen that is shown is in its place inside the border, with its own
/// text, colours and attributes (but that the first row of an active pane may be bold where it is
/// not meant to be); the border is a box around it; the title of an active pane is in the middle
/// of the upper border; and nothing else is touched. At the end no attribute and no colour is set.
pub proof fn law_pane_on_the_grid(
    columns: spec_fn(Seq<char>) -> int,
    grid: Grid,
    area: Area,
    frame: Frame,
    pid: u32,
    shown: SnapshotView,
    px: int,
    py: int,
)
    requires
        shown.wf(),
        narrow(columns, shown),
        lines_narrow(columns),
        title_narrow(columns, area, frame, pid),
        framed(area),
        bare(grid.look),
    ensures
        ({
            let after = steps(columns, grid, paint::pane_ops(area, frame, pid, shown), px, py);
            let (r, c) = (py - (area.y + 1), px - (area.x + 1));
            let marked = frame.broadcast && r == shown.cursor_row && c == shown.cursor_col;
            let title = paint::title(frame, pid, area.width);
            let titled = under_title(area, frame, title.len() as int, px, py);
            &&& bare(after.look)
            &&& after.look.fg == Paint::Reset
            &&& after.look.bg == Paint::Reset
            &&& visible(area, frame, shown, r, c) ==> {
                &&& seen(after.mark, frame, shown, r, c, border_look(grid.look, frame.active))
                &&& (r > 0 || !frame.active) && shown.cells[r][c] is Some ==> after.mark->0.look
                    == look_wanted(shown.cells[r][c]->0, marked)
            }
            &&& border_drawn(area, frame, px, py) && !titled ==> after.mark == Some(
                Mark {
                    text: seq![line_at(area, px, py)],
                    look: border_look(grid.look, frame.active),
                    offset: 0,
                },
            )
            &&& titled ==> {
                &&& after.mark is Some
                &&& after.mark->0.text == title
                &&& after.mark->0.offset == px - title_column(area, title.len() as int)
                &&& after.mark->0.look.reverse
                &&& after.mark->0.look.fg == Paint::Yellow
            }
            &&& !visible(area, frame, shown, r, c) && !border_drawn(area, frame, px, py) && !titled
                ==> after.mark == grid.mark
        }),
{
    let border = paint::border_ops(area, frame);
    let rows = paint::shown_rows(area, frame, shown.rows);
    let contents = paint::contents_ops(area, frame, shown, rows);
    let title = if frame.active {
        paint::title_ops(area, frame, pid)
    } else {
        Seq::empty()
    };
    let end = seq![
        OpView::Attribute(Attr::Reset),
        OpView::Background(Paint::Reset),
        OpView::Foreground(Paint::Reset),
    ];
    let all = paint::pane_ops(area, frame, pid, shown);
    assert(all == border + contents + title + end);
    law_border_is_a_box(columns, grid, area, frame, px, py);
    let g1 = steps(columns, grid, border, px, py);
    law_glyphs_land_inside_the_border(columns, g1, area, frame, shown, px, py);
    lemma_steps_join(columns, grid, border, contents, px, py);
    let g2 = steps(columns, grid, border + contents, px, py);
    if frame.active {
        lemma_title_steps(columns, g2, area, frame, pid, px, py);
    }
    lemma_steps_join(columns, grid, border + contents, title, px, py);
    let g3 = steps(columns, grid, border + contents + title, px, py);
    lemma_still_steps(columns, g3, end, px, py);
    lemma_steps_join(columns, grid, border + contents + title, end, px, py);
    paint_laws::law_pane_ends_reset(area, frame, pid, shown, grid.look);
    lemma_look(columns, grid, all, px, py);
}

/// How text is shown depends on the commands alone.
pub proof fn lemma_look(
    columns: spec_fn(Seq<char>) -> int,
    grid: Grid,
    ops: Seq<OpView>,
    px: int,
    py: int,
)
    ensures
        steps(columns, grid, ops, px, py).look == paint_laws::looks_after(grid.look, ops),
    decreases ops.len(),
{
    if ops.len() > 0 {
        lemma_look(columns, grid, ops.drop_last(), px, py);
    }
}

} // verus!
