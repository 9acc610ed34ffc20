//! What the drawing commands do on the outer terminal.
use vstd::prelude::*;

use crate::geometry::Area;
use crate::paint;
use crate::paint::{Attr, Frame, Look, OpView, Paint, Pen};
use crate::vt::{CellView, SnapshotView};

verus! {

/// How text is shown after a command, if it was shown like `look` before.
pub open spec fn look_after(look: Look, op: OpView) -> Look {
    match op {
        OpView::Foreground(paint) => Look { fg: paint, ..look },
        OpView::Background(paint) => Look { bg: paint, ..look },
        OpView::Attribute(attr) => match attr {
            Attr::Reset => Look {
                fg: Paint::Reset,
                bg: Paint::Reset,
                bold: false,
                underline: false,
                reverse: false,
                italic: false,
                dim: false,
            },
            Attr::Bold => Look { bold: true, ..look },
            Attr::Dim => Look { dim: true, ..look },
            Attr::Italic => Look { italic: true, ..look },
            Attr::Underlined => Look { underline: true, ..look },
            Attr::Reverse => Look { reverse: true, ..look },
            Attr::NormalIntensity => Look { bold: false, dim: false, ..look },
        },
        _ => look,
    }
}

/// How text is shown after a list of commands.
pub open spec fn looks_after(look: Look, ops: Seq<OpView>) -> Look
    decreases ops.len(),
{
    if ops.len() == 0 {
        look
    } else {
        look_after(looks_after(look, ops.drop_last()), ops.last())
    }
}

/// A piece of text on the outer terminal, and how it is shown.
pub struct Shown {
    pub text: Seq<char>,
    pub look: Look,
}

/// The texts that a list of commands prints, one after the other.
pub open spec fn printed(look: Look, ops: Seq<OpView>) -> Seq<Shown>
    decreases ops.len(),
{
    if ops.len() == 0 {
        Seq::empty()
    } else {
        let before = printed(look, ops.drop_last());
        match ops.last() {
            OpView::Print(text) => before.push(
                Shown { text, look: looks_after(look, ops.drop_last()) },
            ),
            _ => before,
        }
    }
}

/// Commands after others act on what those have left.
pub proof fn lemma_ops_join(look: Look, a: Seq<OpView>, b: Seq<OpView>)
    ensures
        looks_after(look, a + b) == looks_after(looks_after(look, a), b),
        printed(look, a + b) == printed(look, a) + printed(looks_after(look, a), b),
    decreases b.len(),
{
    if b.len() == 0 {
        assert(a + b =~= a);
        assert(printed(look, a) + printed(looks_after(look, a), b) =~= printed(look, a));
    } else {
        assert((a + b).drop_last() =~= a + b.drop_last());
        assert((a + b).last() == b.last());
        lemma_ops_join(look, a, b.drop_last());
        assert(printed(look, a + b) =~= printed(look, a) + printed(looks_after(look, a), b));
    }
}

/// A single command, if needed, changes the look by itself and prints nothing.
proof fn lemma_needed(look: Look, condition: bool, op: OpView)
    requires
        op !is Print,
    ensures
        looks_after(look, paint::needed(condition, op)) == (if condition {
            look_after(look, op)
        } else {
            look
        }),
        printed(look, paint::needed(condition, op)) == Seq::<Shown>::empty(),
{
    let ops = paint::needed(condition, op);
    if condition {
        assert(ops.drop_last() =~= Seq::<OpView>::empty());
        assert(ops.last() == op);
        assert(looks_after(look, ops.drop_last()) == look);
        assert(printed(look, ops.drop_last()) == Seq::<Shown>::empty());
    }
}

/// What is known of how text is shown is true.
pub open spec fn agrees(pen: Pen, look: Look) -> bool {
    &&& pen.fg is Some ==> pen.fg == Some(look.fg)
    &&& pen.bg is Some ==> pen.bg == Some(look.bg)
    &&& pen.bold == look.bold
    &&& pen.underline == look.underline
    &&& pen.reverse == look.reverse
    &&& pen.italic == look.italic
    &&& pen.dim == look.dim
}

/// The pen is true of how text is shown but for attributes that were set when a row began: what
/// it says is set is set, and of the others it knows all.
pub open spec fn follows(pen: Pen, look: Look, start: Look) -> bool {
    &&& pen.fg is Some ==> pen.fg == Some(look.fg)
    &&& pen.bg is Some ==> pen.bg == Some(look.bg)
    &&& attribute_follows(pen.bold, look.bold, start.bold)
    &&& attribute_follows(pen.underline, look.underline, start.underline)
    &&& attribute_follows(pen.reverse, look.reverse, start.reverse)
    &&& attribute_follows(pen.italic, look.italic, start.italic)
    &&& attribute_follows(pen.dim, look.dim, start.dim)
}

/// An attribute that is wanted is set, and one that is not is not, unless it was set at the start.
pub open spec fn attribute_follows(wanted: bool, is_set: bool, at_start: bool) -> bool {
    &&& wanted ==> is_set
    &&& !at_start ==> is_set == wanted
}

/// Text is shown like `wanted` but for attributes that were set at the start.
pub open spec fn looks_like(wanted: Look, look: Look, start: Look) -> bool {
    follows(Pen::of(wanted), look, start)
}

/// The commands that change the look change it to the wanted one, but for attributes that were
/// set at the start, and print nothing.
pub proof fn lemma_change_ops(pen: Pen, actual: Look, look: Look, start: Look)
    requires
        follows(pen, actual, start),
    ensures
        looks_like(look, looks_after(actual, paint::change_ops(pen, look)), start),
        printed(actual, paint::change_ops(pen, look)) == Seq::<Shown>::empty(),
{
    let ready = pen.ready(look);
    let must = pen.must_reset(look);
    let set = Look {
        bold: look.bold && !ready.bold,
        underline: look.underline && !ready.underline,
        reverse: look.reverse && !ready.reverse,
        italic: look.italic && !ready.italic,
        dim: look.dim && !ready.dim,
        ..look
    };
    lemma_needed_ops(
        actual,
        look,
        must,
        ready.fg != Some(look.fg),
        ready.bg != Some(look.bg),
        set,
    );
    lemma_set_look(pen, actual, look, start, set);
}

/// What `lemma_change_ops` says, of the looks alone.
proof fn lemma_set_look(pen: Pen, actual: Look, look: Look, start: Look, set: Look)
    requires
        follows(pen, actual, start),
        ({
            let ready = pen.ready(look);
            &&& set.bold == (look.bold && !ready.bold)
            &&& set.underline == (look.underline && !ready.underline)
            &&& set.reverse == (look.reverse && !ready.reverse)
            &&& set.italic == (look.italic && !ready.italic)
            &&& set.dim == (look.dim && !ready.dim)
        }),
    ensures
        ({
            let ready = pen.ready(look);
            let r0 = if pen.must_reset(look) {
                look_after(actual, OpView::Attribute(Attr::Reset))
            } else {
                actual
            };
            looks_like(
                look,
                set_look(r0, look, ready.fg != Some(look.fg), ready.bg != Some(look.bg), set),
                start,
            )
        }),
{
}

/// `look0` with the colours of `look` where they are needed, and with the attributes of `set` too.
pub open spec fn set_look(look0: Look, look: Look, fg: bool, bg: bool, set: Look) -> Look {
    Look {
        fg: if fg {
            look.fg
        } else {
            look0.fg
        },
        bg: if bg {
            look.bg
        } else {
            look0.bg
        },
        bold: look0.bold || set.bold,
        underline: look0.underline || set.underline,
        reverse: look0.reverse || set.reverse,
        italic: look0.italic || set.italic,
        dim: look0.dim || set.dim,
    }
}

/// What a reset, if needed, and after it the commands for the colours and attributes that are
/// needed do together: `set` has the attributes that are to be set.
proof fn lemma_needed_ops(actual: Look, look: Look, reset: bool, fg: bool, bg: bool, set: Look)
    ensures
        ({
            let ops = paint::needed(reset, OpView::Attribute(Attr::Reset)) + paint::needed(
                fg,
                OpView::Foreground(look.fg),
            ) + paint::needed(bg, OpView::Background(look.bg)) + paint::needed(
                set.bold,
                OpView::Attribute(Attr::Bold),
            ) + paint::needed(set.underline, OpView::Attribute(Attr::Underlined)) + paint::needed(
                set.reverse,
                OpView::Attribute(Attr::Reverse),
            ) + paint::needed(set.italic, OpView::Attribute(Attr::Italic)) + paint::needed(
                set.dim,
                OpView::Attribute(Attr::Dim),
            );
            let r0 = if reset {
                look_after(actual, OpView::Attribute(Attr::Reset))
            } else {
                actual
            };
            &&& looks_after(actual, ops) == set_look(r0, look, fg, bg, set)
            &&& printed(actual, ops) == Seq::<Shown>::empty()
        }),
{
    let none = Seq::<Shown>::empty();
    let n0 = paint::needed(reset, OpView::Attribute(Attr::Reset));
    let n1 = paint::needed(fg, OpView::Foreground(look.fg));
    let n2 = paint::needed(bg, OpView::Background(look.bg));
    let n3 = paint::needed(set.bold, OpView::Attribute(Attr::Bold));
    let n4 = paint::needed(set.underline, OpView::Attribute(Attr::Underlined));
    let n5 = paint::needed(set.reverse, OpView::Attribute(Attr::Reverse));
    let n6 = paint::needed(set.italic, OpView::Attribute(Attr::Italic));
    let n7 = paint::needed(set.dim, OpView::Attribute(Attr::Dim));
    assert(none + none =~= none);
    lemma_needed(actual, reset, OpView::Attribute(Attr::Reset));
    let r0 = looks_after(actual, n0);
    lemma_needed(r0, fg, OpView::Foreground(look.fg));
    lemma_ops_join(actual, n0, n1);
    let r1 = looks_after(actual, n0 + n1);
    lemma_needed(r1, bg, OpView::Background(look.bg));
    lemma_ops_join(actual, n0 + n1, n2);
    let r2 = looks_after(actual, n0 + n1 + n2);
    lemma_needed(r2, set.bold, OpView::Attribute(Attr::Bold));
    lemma_ops_join(actual, n0 + n1 + n2, n3);
    let r3 = looks_after(actual, n0 + n1 + n2 + n3);
    lemma_needed(r3, set.underline, OpView::Attribute(Attr::Underlined));
    lemma_ops_join(actual, n0 + n1 + n2 + n3, n4);
    let r4 = looks_after(actual, n0 + n1 + n2 + n3 + n4);
    lemma_needed(r4, set.reverse, OpView::Attribute(Attr::Reverse));
    lemma_ops_join(actual, n0 + n1 + n2 + n3 + n4, n5);
    let r5 = looks_after(actual, n0 + n1 + n2 + n3 + n4 + n5);
    lemma_needed(r5, set.italic, OpView::Attribute(Attr::Italic));
    lemma_ops_join(actual, n0 + n1 + n2 + n3 + n4 + n5, n6);
    let r6 = looks_after(actual, n0 + n1 + n2 + n3 + n4 + n5 + n6);
    lemma_needed(r6, set.dim, OpView::Attribute(Attr::Dim));
    lemma_ops_join(actual, n0 + n1 + n2 + n3 + n4 + n5 + n6, n7);
}

/// What the outer terminal should show of the first `n` cells of a row.
pub open spec fn row_shown(row: Seq<Option<CellView>>, mark: Option<int>, n: nat) -> Seq<Shown> {
    Seq::new(
        n,
        |c: int|
            Shown {
                text: paint::glyphs_of(row[c]->0),
                look: paint::look_of(row[c]->0, mark == Some(c)),
            },
    )
}

/// The texts are those wanted, in the colours wanted, and with the attributes wanted but for those
/// that were set at the start.
pub open spec fn shows(got: Seq<Shown>, wanted: Seq<Shown>, start: Look) -> bool {
    &&& got.len() == wanted.len()
    &&& forall|i: int|
        0 <= i < got.len() ==> {
            let shown = #[trigger] got[i];
            shown.text == wanted[i].text && looks_like(wanted[i].look, shown.look, start)
        }
}

/// Where no attribute is set at the start, exactly what is wanted is shown.
proof fn lemma_shows_exactly(got: Seq<Shown>, wanted: Seq<Shown>, start: Look)
    requires
        shows(got, wanted, start),
        agrees(Pen::fresh(), start),
    ensures
        got == wanted,
{
    assert forall|i: int| 0 <= i < got.len() implies got[i] == wanted[i] by {
        assert(got[i].look == wanted[i].look);
    }
    assert(got =~= wanted);
}

/// A row is shown as the virtual screen holds it: though only the changes between one cell and
/// the next are sent, every cell gets its own text, colours and attributes. An attribute that is
/// set when the row begins may stay with cells that do not have it; the other attributes are
/// right all the same. Where none is set, as at the start of every row but the first of an active
/// pane, whose border is bold, everything is.
pub proof fn law_row_shows_its_cells(
    row: Seq<Option<CellView>>,
    mark: Option<int>,
    n: nat,
    start: Look,
)
    requires
        n <= row.len(),
        forall|c: int| 0 <= c < n ==> (#[trigger] row[c]) is Some,
    ensures
        shows(printed(start, paint::row_ops(row, mark, n)), row_shown(row, mark, n), start),
        agrees(Pen::fresh(), start) ==> printed(start, paint::row_ops(row, mark, n)) == row_shown(
            row,
            mark,
            n,
        ),
        follows(
            paint::row_pen(row, mark, n),
            looks_after(start, paint::row_ops(row, mark, n)),
            start,
        ),
    decreases n,
{
    if n > 0 {
        let m = (n - 1) as nat;
        law_row_shows_its_cells(row, mark, m, start);
        let before = paint::row_ops(row, mark, m);
        let pen = paint::row_pen(row, mark, m);
        let actual = looks_after(start, before);
        let marked = mark == Some(m as int);
        let cell = row[m as int]->0;
        let all = paint::cell_ops(pen, row[m as int], marked);
        lemma_cell_shows(pen, actual, cell, marked, start);
        lemma_ops_join(start, before, all);
        let wanted = seq![
            Shown { text: paint::glyphs_of(cell), look: paint::look_of(cell, marked) },
        ];
        assert(row_shown(row, mark, n) =~= row_shown(row, mark, m) + wanted);
        lemma_shows_join(
            printed(start, before),
            row_shown(row, mark, m),
            printed(actual, all),
            wanted,
            start,
        );
    }
    if agrees(Pen::fresh(), start) {
        lemma_shows_exactly(
            printed(start, paint::row_ops(row, mark, n)),
            row_shown(row, mark, n),
            start,
        );
    }
}

/// A cell is shown with its own text, colours and attributes, but for attributes that were set at
/// the start.
proof fn lemma_cell_shows(pen: Pen, actual: Look, cell: CellView, marked: bool, start: Look)
    requires
        follows(pen, actual, start),
    ensures
        ({
            let all = paint::cell_ops(pen, Some(cell), marked);
            let look = paint::look_of(cell, marked);
            &&& shows(
                printed(actual, all),
                seq![Shown { text: paint::glyphs_of(cell), look }],
                start,
            )
            &&& looks_like(look, looks_after(actual, all), start)
        }),
{
    let look = paint::look_of(cell, marked);
    let change = paint::change_ops(pen, look);
    let all = paint::cell_ops(pen, Some(cell), marked);
    lemma_change_ops(pen, actual, look, start);
    let changed = looks_after(actual, change);
    assert(all.drop_last() =~= change);
    assert(all.last() == OpView::Print(paint::glyphs_of(cell)));
    assert(looks_after(actual, all) == changed);
    assert(printed(actual, all) =~= seq![Shown { text: paint::glyphs_of(cell), look: changed }]);
}

/// What is wanted of one list of texts and of the next is wanted of both together.
proof fn lemma_shows_join(
    a: Seq<Shown>,
    wanted_a: Seq<Shown>,
    b: Seq<Shown>,
    wanted_b: Seq<Shown>,
    start: Look,
)
    requires
        shows(a, wanted_a, start),
        shows(b, wanted_b, start),
    ensures
        shows(a + b, wanted_a + wanted_b, start),
{
    let got = a + b;
    let wanted = wanted_a + wanted_b;
    assert forall|i: int| 0 <= i < got.len() implies {
        let shown = #[trigger] got[i];
        shown.text == wanted[i].text && looks_like(wanted[i].look, shown.look, start)
    } by {
        if i < a.len() {
            assert(got[i] == a[i]);
        } else {
            assert(got[i] == b[i - a.len()]);
        }
    }
}

/// Every row after the first begins with no attribute set: each row ends with a reset.
pub proof fn law_rows_end_reset(
    area: Area,
    frame: Frame,
    shown: SnapshotView,
    r: int,
    start: Look,
)
    ensures
        agrees(Pen::fresh(), looks_after(start, paint::content_ops(area, frame, shown, r))),
{
    let body = seq![OpView::MoveTo((area.x + 1) as u16, (area.y + 1 + r) as u16)] + paint::row_ops(
        shown.cells[r],
        paint::mark_in(frame, shown, r),
        paint::shown_cols(area, frame, shown.cols),
    );
    let end = seq![OpView::Attribute(Attr::Reset), OpView::Foreground(frame.border())];
    lemma_ops_join(start, body, end);
    let mid = looks_after(start, body);
    assert(end.drop_last() =~= seq![OpView::Attribute(Attr::Reset)]);
    assert(end.drop_last().drop_last() =~= Seq::<OpView>::empty());
    assert(looks_after(mid, end.drop_last().drop_last()) == mid);
    assert(looks_after(mid, end.drop_last()) == look_after(mid, OpView::Attribute(Attr::Reset)));
}

/// What the outer terminal should show of the first `n` rows of a pane.
pub open spec fn contents_shown(area: Area, frame: Frame, shown: SnapshotView, n: nat) -> Seq<Shown>
    decreases n,
{
    if n == 0 {
        Seq::empty()
    } else {
        contents_shown(area, frame, shown, (n - 1) as nat) + row_shown(
            shown.cells[n - 1],
            paint::mark_in(frame, shown, n - 1),
            paint::shown_cols(area, frame, shown.cols),
        )
    }
}

/// A pane shows its virtual screen: every cell that fits is printed in its place in the order,
/// with its own text, colours and attributes. Only an attribute that is set when the first row
/// begins may stay with cells of that row that do not have it.
pub proof fn law_pane_shows_its_screen(
    area: Area,
    frame: Frame,
    shown: SnapshotView,
    n: nat,
    start: Look,
)
    requires
        shown.wf(),
        forall|r: int, c: int|
            0 <= r < shown.rows && 0 <= c < shown.cols ==> #[trigger] shown.cells[r][c] is Some,
        n <= paint::shown_rows(area, frame, shown.rows),
    ensures
        ({
            let got = printed(start, paint::contents_ops(area, frame, shown, n));
            let wanted = contents_shown(area, frame, shown, n);
            &&& shows(got, wanted, start)
            &&& agrees(Pen::fresh(), start) ==> got == wanted
            &&& forall|i: int|
                paint::shown_cols(area, frame, shown.cols) <= i < got.len() ==> #[trigger] got[i]
                    == wanted[i]
        }),
        n > 0 ==> agrees(
            Pen::fresh(),
            looks_after(start, paint::contents_ops(area, frame, shown, n)),
        ),
    decreases n,
{
    let got = printed(start, paint::contents_ops(area, frame, shown, n));
    let wanted = contents_shown(area, frame, shown, n);
    if n > 0 {
        let r = n - 1;
        law_pane_shows_its_screen(area, frame, shown, r as nat, start);
        let before = paint::contents_ops(area, frame, shown, r as nat);
        let actual = looks_after(start, before);
        let row = shown.cells[r];
        let mark = paint::mark_in(frame, shown, r);
        let cols = paint::shown_cols(area, frame, shown.cols);
        assert forall|c: int| 0 <= c < cols implies (#[trigger] row[c]) is Some by {
            assert(shown.cells[r][c] is Some);
        }
        lemma_content_prints_row(area, frame, shown, r, actual);
        law_row_shows_its_cells(row, mark, cols, actual);
        law_rows_end_reset(area, frame, shown, r, actual);
        lemma_ops_join(start, before, paint::content_ops(area, frame, shown, r));
        let earlier = printed(start, before);
        let here = printed(actual, paint::row_ops(row, mark, cols));
        assert(got == earlier + here);
        let wanted_here = row_shown(row, mark, cols);
        if r == 0 {
            assert(earlier =~= Seq::<Shown>::empty());
            assert(wanted =~= wanted_here);
            assert(got =~= here);
        } else {
            assert(here == wanted_here);
            let wanted_earlier = contents_shown(area, frame, shown, r as nat);
            assert forall|i: int| 0 <= i < got.len() implies {
                let piece = #[trigger] got[i];
                &&& piece.text == wanted[i].text
                &&& looks_like(wanted[i].look, piece.look, start)
                &&& cols <= i ==> piece == wanted[i]
            } by {
                if i < earlier.len() {
                    assert(got[i] == earlier[i]);
                    assert(wanted[i] == wanted_earlier[i]);
                } else {
                    assert(got[i] == wanted_here[i - earlier.len()]);
                    assert(wanted[i] == wanted_here[i - earlier.len()]);
                }
            }
        }
    }
    if agrees(Pen::fresh(), start) {
        lemma_shows_exactly(got, wanted, start);
    }
}

/// A row of a pane prints its cells and nothing else.
proof fn lemma_content_prints_row(
    area: Area,
    frame: Frame,
    shown: SnapshotView,
    r: int,
    actual: Look,
)
    ensures
        printed(actual, paint::content_ops(area, frame, shown, r)) == printed(
            actual,
            paint::row_ops(
                shown.cells[r],
                paint::mark_in(frame, shown, r),
                paint::shown_cols(area, frame, shown.cols),
            ),
        ),
{
    let go = seq![OpView::MoveTo((area.x + 1) as u16, (area.y + 1 + r) as u16)];
    let cells = paint::row_ops(
        shown.cells[r],
        paint::mark_in(frame, shown, r),
        paint::shown_cols(area, frame, shown.cols),
    );
    let end = seq![OpView::Attribute(Attr::Reset), OpView::Foreground(frame.border())];
    let none = Seq::<OpView>::empty();
    let nothing = Seq::<Shown>::empty();
    assert(go.drop_last() =~= none);
    assert(looks_after(actual, none) == actual);
    assert(printed(actual, none) == nothing);
    assert(looks_after(actual, go) == actual);
    assert(printed(actual, go) == nothing);
    lemma_ops_join(actual, go, cells);
    assert(printed(actual, go + cells) =~= printed(actual, cells));
    let last = looks_after(actual, go + cells);
    assert(end.drop_last().drop_last() =~= none);
    assert(printed(last, none) == nothing);
    assert(printed(last, end.drop_last()) == nothing);
    assert(printed(last, end) == nothing);
    lemma_ops_join(actual, go + cells, end);
    assert(printed(actual, go + cells + end) =~= printed(actual, cells));
}

/// The border of a pane changes the colour of text and whether it is bold or dim, and no other
/// attribute: text after it is bold in an active pane, and neither bold nor dim in another.
pub proof fn law_border_keeps_attributes(area: Area, frame: Frame, start: Look)
    ensures
        looks_after(start, paint::border_ops(area, frame)) == (Look {
            fg: frame.border(),
            bold: frame.active,
            dim: frame.active && start.dim,
            ..start
        }),
{
    let across = paint::count(
        area.x,
        paint::lesser(area.last_col(), paint::less(frame.screen_width as int, 1)),
    );
    let down = paint::count(
        area.y,
        paint::lesser(area.last_row(), paint::less(frame.end(), 1)),
    );
    let first = seq![
        OpView::Foreground(frame.border()),
        OpView::Attribute(
            if frame.active {
                Attr::Bold
            } else {
                Attr::NormalIntensity
            },
        ),
    ];
    let columns = paint::columns_ops(area, frame, across);
    let lines = paint::lines_ops(area, frame, down);
    assert(first.drop_last().drop_last() =~= Seq::<OpView>::empty());
    assert(looks_after(start, first.drop_last().drop_last()) == start);
    assert(looks_after(start, first.drop_last()) == look_after(
        start,
        OpView::Foreground(frame.border()),
    ));
    lemma_ops_join(start, first, columns);
    lemma_columns_keep_look(area, frame, across, looks_after(start, first));
    lemma_ops_join(start, first + columns, lines);
    lemma_lines_keep_look(area, frame, down, looks_after(start, first + columns));
}

/// A character at a position leaves the look as it is.
proof fn lemma_mark_keeps_look(x: int, y: int, c: char, look: Look)
    ensures
        looks_after(look, paint::mark_ops(x, y, c)) == look,
{
    let ops = paint::mark_ops(x, y, c);
    assert(ops.drop_last().drop_last() =~= Seq::<OpView>::empty());
    assert(looks_after(look, ops.drop_last().drop_last()) == look);
    assert(looks_after(look, ops.drop_last()) == look);
}

/// The upper and lower border leave the look as it is.
proof fn lemma_columns_keep_look(area: Area, frame: Frame, n: nat, look: Look)
    ensures
        looks_after(look, paint::columns_ops(area, frame, n)) == look,
    decreases n,
{
    if n > 0 {
        let x = area.x + n - 1;
        let none = Seq::<OpView>::empty();
        let upper = paint::piece(x, area.x, area.last_col(), '┌', '┐', '─');
        let lower = paint::piece(x, area.x, area.last_col(), '└', '┘', '─');
        let a = if area.y < frame.screen_height {
            paint::mark_ops(x, area.y, upper)
        } else {
            none
        };
        let b = if area.last_row() < frame.end() {
            paint::mark_ops(x, area.last_row(), lower)
        } else {
            none
        };
        lemma_columns_keep_look(area, frame, (n - 1) as nat, look);
        lemma_mark_keeps_look(x, area.y, upper, look);
        lemma_mark_keeps_look(x, area.last_row(), lower, look);
        assert(looks_after(look, none) == look);
        lemma_ops_join(look, a, b);
        lemma_ops_join(look, paint::columns_ops(area, frame, (n - 1) as nat), a + b);
    }
}

/// The left and right border leave the look as it is.
proof fn lemma_lines_keep_look(area: Area, frame: Frame, n: nat, look: Look)
    ensures
        looks_after(look, paint::lines_ops(area, frame, n)) == look,
    decreases n,
{
    if n > 0 {
        let y = area.y + n - 1;
        let none = Seq::<OpView>::empty();
        let left = paint::piece(y, area.y, area.last_row(), '┌', '└', '│');
        let right = paint::piece(y, area.y, area.last_row(), '┐', '┘', '│');
        let a = if area.x < frame.screen_width {
            paint::mark_ops(area.x, y, left)
        } else {
            none
        };
        let b = if area.last_col() < frame.screen_width {
            paint::mark_ops(area.last_col(), y, right)
        } else {
            none
        };
        lemma_lines_keep_look(area, frame, (n - 1) as nat, look);
        lemma_mark_keeps_look(area.x, y, left, look);
        lemma_mark_keeps_look(area.last_col(), y, right, look);
        assert(looks_after(look, none) == look);
        lemma_ops_join(look, a, b);
        lemma_ops_join(look, paint::lines_ops(area, frame, (n - 1) as nat), a + b);
    }
}

/// A pane leaves the outer terminal as it is at the start: no attribute and no colour is set.
pub proof fn law_pane_ends_reset(
    area: Area,
    frame: Frame,
    pid: u32,
    shown: SnapshotView,
    start: Look,
)
    ensures
        agrees(Pen::blank(), looks_after(start, paint::pane_ops(area, frame, pid, shown))),
{
    let ops = paint::pane_ops(area, frame, pid, shown);
    let n = ops.len();
    assert(ops.last() == OpView::Foreground(Paint::Reset));
    assert(ops.drop_last().last() == OpView::Background(Paint::Reset));
    assert(ops.drop_last().drop_last().last() == OpView::Attribute(Attr::Reset));
    let actual = looks_after(start, ops.drop_last().drop_last().drop_last());
    assert(looks_after(start, ops.drop_last().drop_last()) == look_after(
        actual,
        OpView::Attribute(Attr::Reset),
    ));
    assert(looks_after(start, ops.drop_last()) == look_after(
        looks_after(start, ops.drop_last().drop_last()),
        OpView::Background(Paint::Reset),
    ));
}

/// A title is drawn strictly between the corners of the upper border.
pub proof fn law_title_fits(area: Area, frame: Frame, pid: u32)
    requires
        0 <= area.x,
        area.right() <= 65536,
        paint::title_ops(area, frame, pid).len() > 0,
    ensures
        ({
            let ops = paint::title_ops(area, frame, pid);
            let text = paint::title(frame, pid, area.width);
            &&& ops[0] is MoveTo
            &&& ops[2] == OpView::Print(text)
            &&& area.x < ops[0]->MoveTo_0
            &&& ops[0]->MoveTo_0 + text.len() < area.right()
        }),
{
}

/// The command moves nowhere but into `area`.
pub open spec fn stays_in(area: Area, op: OpView) -> bool {
    match op {
        OpView::MoveTo(x, y) => area.holds(x as int, y as int),
        _ => true,
    }
}

/// All the commands stay in `area`.
pub open spec fn all_stay_in(area: Area, ops: Seq<OpView>) -> bool {
    forall|i: int| 0 <= i < ops.len() ==> stays_in(area, #[trigger] ops[i])
}

/// The upper and lower border stay in the area.
proof fn lemma_columns_stay(area: Area, frame: Frame, n: nat)
    requires
        0 <= area.x,
        0 <= area.y,
        0 < area.width,
        0 < area.height,
        area.right() <= 65536,
        area.bottom() <= 65536,
        n <= area.width,
    ensures
        all_stay_in(area, paint::columns_ops(area, frame, n)),
    decreases n,
{
    if n > 0 {
        lemma_columns_stay(area, frame, (n - 1) as nat);
        assert(all_stay_in(area, paint::column_ops(area, frame, area.x + n - 1)));
    }
}

/// The left and right border stay in the area.
proof fn lemma_lines_stay(area: Area, frame: Frame, n: nat)
    requires
        0 <= area.x,
        0 <= area.y,
        0 < area.width,
        0 < area.height,
        area.right() <= 65536,
        area.bottom() <= 65536,
        n <= area.height,
    ensures
        all_stay_in(area, paint::lines_ops(area, frame, n)),
    decreases n,
{
    if n > 0 {
        lemma_lines_stay(area, frame, (n - 1) as nat);
        assert(all_stay_in(area, paint::line_ops(area, frame, area.y + n - 1)));
    }
}

/// Lists of commands that stay in `area`, one after the other.
proof fn lemma_stay_join(area: Area, a: Seq<OpView>, b: Seq<OpView>)
    requires
        all_stay_in(area, a),
        all_stay_in(area, b),
    ensures
        all_stay_in(area, a + b),
{
}

/// The commands that change the look move nowhere.
proof fn lemma_change_stays(area: Area, pen: Pen, look: Look)
    ensures
        all_stay_in(area, paint::change_ops(pen, look)),
{
    let ready = pen.ready(look);
    let n0 = paint::needed(pen.must_reset(look), OpView::Attribute(Attr::Reset));
    let n1 = paint::needed(ready.fg != Some(look.fg), OpView::Foreground(look.fg));
    let n2 = paint::needed(ready.bg != Some(look.bg), OpView::Background(look.bg));
    let n3 = paint::needed(look.bold && !ready.bold, OpView::Attribute(Attr::Bold));
    let n4 = paint::needed(
        look.underline && !ready.underline,
        OpView::Attribute(Attr::Underlined),
    );
    let n5 = paint::needed(look.reverse && !ready.reverse, OpView::Attribute(Attr::Reverse));
    let n6 = paint::needed(look.italic && !ready.italic, OpView::Attribute(Attr::Italic));
    let n7 = paint::needed(look.dim && !ready.dim, OpView::Attribute(Attr::Dim));
    lemma_stay_join(area, n0, n1);
    lemma_stay_join(area, n0 + n1, n2);
    lemma_stay_join(area, n0 + n1 + n2, n3);
    lemma_stay_join(area, n0 + n1 + n2 + n3, n4);
    lemma_stay_join(area, n0 + n1 + n2 + n3 + n4, n5);
    lemma_stay_join(area, n0 + n1 + n2 + n3 + n4 + n5, n6);
    lemma_stay_join(area, n0 + n1 + n2 + n3 + n4 + n5 + n6, n7);
}

/// The cells of a row are printed without moving.
proof fn lemma_row_stays(area: Area, row: Seq<Option<CellView>>, mark: Option<int>, n: nat)
    ensures
        all_stay_in(area, paint::row_ops(row, mark, n)),
    decreases n,
{
    if n > 0 {
        let m = (n - 1) as nat;
        lemma_row_stays(area, row, mark, m);
        let pen = paint::row_pen(row, mark, m);
        let marked = mark == Some(m as int);
        let ops = paint::cell_ops(pen, row[m as int], marked);
        if let Some(cell) = row[m as int] {
            lemma_change_stays(area, pen, paint::look_of(cell, marked));
        }
        assert(all_stay_in(area, ops));
        lemma_stay_join(area, paint::row_ops(row, mark, m), ops);
    }
}

/// The rows of the virtual screen stay in the area.
proof fn lemma_contents_stay(area: Area, frame: Frame, shown: SnapshotView, n: nat)
    requires
        0 <= area.x,
        0 <= area.y,
        2 <= area.width,
        0 < area.height,
        area.right() <= 65536,
        area.bottom() <= 65536,
        n <= paint::shown_rows(area, frame, shown.rows),
    ensures
        all_stay_in(area, paint::contents_ops(area, frame, shown, n)),
    decreases n,
{
    if n > 0 {
        let r = n - 1;
        lemma_contents_stay(area, frame, shown, r as nat);
        lemma_row_stays(
            area,
            shown.cells[r],
            paint::mark_in(frame, shown, r),
            paint::shown_cols(area, frame, shown.cols),
        );
        assert(all_stay_in(area, paint::content_ops(area, frame, shown, r)));
    }
}

/// A pane is drawn inside its own area: the cursor is moved nowhere else.
pub proof fn law_pane_stays_in_its_area(area: Area, frame: Frame, pid: u32, shown: SnapshotView)
    requires
        0 <= area.x,
        0 <= area.y,
        2 <= area.width,
        2 <= area.height,
        area.right() <= 65536,
        area.bottom() <= 65536,
    ensures
        all_stay_in(area, paint::pane_ops(area, frame, pid, shown)),
{
    lemma_columns_stay(
        area,
        frame,
        paint::count(
            area.x,
            paint::lesser(area.last_col(), paint::less(frame.screen_width as int, 1)),
        ),
    );
    lemma_lines_stay(
        area,
        frame,
        paint::count(area.y, paint::lesser(area.last_row(), paint::less(frame.end(), 1))),
    );
    lemma_contents_stay(area, frame, shown, paint::shown_rows(area, frame, shown.rows));
    assert(all_stay_in(area, paint::title_ops(area, frame, pid)));
}

/// Both lines of the footer are exactly as wide as the screen, and the second is always the same
/// text; the first ends with the last key, if that is shown and there is room for it.
pub proof fn law_footer_fills_its_lines(
    broadcast: bool,
    key: Option<Seq<char>>,
    width: int,
    height: int,
)
    requires
        width >= 0,
    ensures
        ({
            let ops = paint::footer_ops(broadcast, key, width, height);
            &&& ops[2] is Print && ops[2]->Print_0.len() == width
            &&& ops[4] is Print && ops[4]->Print_0.len() == width
            &&& key is Some && paint::key_tag(key->0).len() <= width
                ==> ops[2]->Print_0.skip(width - paint::key_tag(key->0).len()) == paint::key_tag(
                key->0,
            )
        }),
{
    let first = paint::footer_first(broadcast, key, width);
    if let Some(key) = key {
        let tag = paint::key_tag(key);
        if tag.len() <= width {
            assert(first.len() == width);
            assert(first.take(width) =~= first);
            assert(first.skip(width - tag.len()) =~= tag);
        }
    }
}

} // verus!
