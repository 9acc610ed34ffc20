//! What holds of every pane: the output of its terminal is kept, and its screen shows it.
use vstd::prelude::*;

use crate::geometry::Area;
use crate::pane;
use crate::pane::{PaneView, KEPT_OUTPUT, MAX_OUTPUT};
use crate::vt;

verus! {

/// Moving a pane keeps its terminal and all the output that is kept. When the room inside the
/// border changes, the screen is that of a new terminal of the new size to which this output was
/// sent; otherwise the screen is untouched.
pub proof fn law_move_rebuilds_from_history(pane: PaneView, area: Area)
    requires
        pane.wf(),
        PaneView::near(area),
    ensures
        pane.placed(area).wf(),
        pane.placed(area).area == area,
        pane.placed(area).id == pane.id,
        pane.placed(area).pid == pane.pid,
        pane.placed(area).terminal == pane.terminal,
        pane.placed(area).output == pane.output,
        pane.other_size(area) ==> {
            let screen = pane.placed(area).screen;
            &&& screen.rows == pane::empty_screen(area, pane.output).rows
            &&& screen.cols == pane::empty_screen(area, pane.output).cols
            &&& screen.fed == seq![pane.output]
        },
        !pane.other_size(area) ==> pane.placed(area).screen == pane.screen,
{
    vt::lemma_one_piece(pane.output);
}

/// The way by which a pane came to its size does not matter: after a move to another size its
/// screen is the same as after two moves that end there.
pub proof fn law_moves_forget_the_way(pane: PaneView, between: Area, area: Area)
    requires
        pane.wf(),
        PaneView::near(between),
        PaneView::near(area),
        pane.other_size(area),
        pane::differ(between, area),
    ensures
        pane.placed(between).placed(area) == pane.placed(area),
{
}

/// The terminal is told its size exactly when the room inside the border changes, and then once.
pub proof fn law_terminal_is_told_its_size(pane: PaneView, area: Area)
    ensures
        pane.placed_notices(area).len() == (if pane.other_size(area) {
            1nat
        } else {
            0
        }),
        pane.other_size(area) ==> pane.placed_notices(area)[0] == pane.placed(area).size_notice(),
{
}

/// What is kept of the output is always its end, and never more than allowed: all of it while
/// that is allowed, and half of what is allowed otherwise.
pub proof fn law_output_keeps_the_end(pane: PaneView, data: Seq<u8>)
    requires
        pane.wf(),
    ensures
        ({
            let all = pane.output + data;
            let kept = pane.with_output(data).output;
            &&& kept.len() <= MAX_OUTPUT
            &&& kept.len() <= all.len()
            &&& kept == all.skip(all.len() - kept.len())
            &&& all.len() <= MAX_OUTPUT ==> kept == all
            &&& all.len() > MAX_OUTPUT ==> kept.len() == KEPT_OUTPUT
        }),
{
    let all = pane.output + data;
    assert(all.skip(0) =~= all);
}

/// A pane that gets another terminal shows all the output of that terminal that is kept: its
/// screen is that of a new terminal of its own size to which this output was sent. The pane
/// stays where it is.
pub proof fn law_exchange_rebuilds_from_history(pane: PaneView, other: PaneView)
    requires
        pane.wf(),
        other.wf(),
    ensures
        ({
            let after = pane.with_terminal(other);
            &&& after.wf()
            &&& after.id == pane.id
            &&& after.area == pane.area
            &&& after.terminal == other.terminal
            &&& after.pid == other.pid
            &&& after.output == other.output
            &&& after.screen.rows == pane::empty_screen(pane.area, other.output).rows
            &&& after.screen.cols == pane::empty_screen(pane.area, other.output).cols
            &&& after.screen.fed == seq![other.output]
        }),
{
    pane::lemma_rebuilt_wf(pane, other);
}

/// Exchanging the terminals of two panes twice leaves both with their own terminal and output,
/// on screens made anew from that.
pub proof fn law_exchange_twice(a: PaneView, b: PaneView)
    ensures
        a.with_terminal(b).with_terminal(b.with_terminal(a)) == a.rebuilt(),
        b.with_terminal(a).with_terminal(a.with_terminal(b)) == b.rebuilt(),
{
}

/// The screen of a pane that is made anew has exactly the rows and columns that the border leaves,
/// and is shown as it is, on every output on which vt100 does not panic at that size. On all but
/// the smallest and the widest panes it never does.
pub proof fn law_screen_has_the_size_of_the_pane(pane: PaneView)
    ensures
        ({
            let (rows, cols) = (pane::inner(pane.area.height), pane::inner(pane.area.width));
            let after = pane.rebuilt();
            &&& !vt::fails(rows, cols, pane.output) ==> {
                &&& after.screen.rows == rows
                &&& after.screen.cols == cols
                &&& after.shown() == after.screen.shown()
            }
            &&& !vt::delicate(rows, cols) ==> !vt::fails(rows, cols, pane.output)
        }),
{
    let (rows, cols) = (pane::inner(pane.area.height), pane::inner(pane.area.width));
    if !vt::delicate(rows, cols) {
        vt::lemma_safe_never_fails(rows, cols, pane.output);
    }
}

/// Every screen has the size that fits its pane and its output, whatever was done with the pane: a
/// new pane, one that has received output and one that was made anew have it, and a pane that is
/// moved keeps it.
pub proof fn law_screens_stay_fitting(pane: PaneView, other: PaneView, area: Area, data: Seq<u8>)
    requires
        pane.wf(),
        other.wf(),
    ensures
        pane.with_output(data).fitting(),
        pane.rebuilt().fitting(),
        pane.with_terminal(other).fitting(),
        pane.fitting() ==> pane.placed(area).fitting(),
        pane.output.len() == 0 && pane.screen.rows == pane::inner(pane.area.height)
            && pane.screen.cols == pane::inner(pane.area.width) ==> pane.fitting(),
{
}

/// The output that is kept is all that the screen depends on: as long as no piece spoils the
/// output, it stays unspoiled, and a screen that is made anew starts from one piece. What such a
/// pane shows is what a new screen shows to which the output that is kept is given at once, as
/// the reading of a pane promises.
pub proof fn law_history_stays_unspoiled(pane: PaneView, data: Seq<u8>)
    requires
        pane.wf(),
        vt::joins(pane.screen.fed),
        !vt::spoils(pane.output, data),
    ensures
        vt::joins(pane.with_output(data).screen.fed),
        vt::joins(pane.rebuilt().screen.fed),
{
    vt::lemma_joins_push(pane.screen.fed, data);
    vt::lemma_one_piece(pane.output);
    vt::lemma_one_piece(pane.with_output(data).output);
}

/// The screen of a pane that is made anew never has less than the border leaves, nor more than the
/// least that every output needs: two rows, and three columns. Only a pane of a single row inside
/// its border, or of less than three columns or more than 65527, can have a screen of another size
/// than that room.
pub proof fn law_small_panes_get_the_nearest_screen(pane: PaneView)
    ensures
        ({
            let screen = pane.rebuilt().screen;
            let rows = if pane.area.height < 3 {
                1
            } else if pane.area.height > 65537 {
                65535
            } else {
                pane.area.height - 2
            };
            let cols = if pane.area.width < 3 {
                1
            } else if pane.area.width > 65537 {
                65535
            } else {
                pane.area.width - 2
            };
            let as_is = screen.rows == rows && screen.cols == cols;
            &&& rows >= 2 && 3 <= cols <= 65527 ==> as_is
            &&& !as_is ==> {
                &&& screen.rows == (if rows < 2 {
                    2
                } else {
                    rows
                })
                &&& screen.cols == (if cols < 3 {
                    3
                } else if cols > 65527 {
                    65527
                } else {
                    cols
                })
            }
            &&& screen.fed == seq![pane.output]
        }),
{
    law_screen_has_the_size_of_the_pane(pane);
}

/// A pane shows its virtual screen as vt100 renders it: every cell in its row and column, and the
/// cursor where it is. Where the screen has more rows than there is room for, the row of the cursor
/// is shown alone.
pub proof fn law_a_pane_shows_what_vt100_renders(pane: PaneView, r: int, c: int)
    requires
        pane.wf(),
    ensures
        ({
            let shown = pane.shown();
            let (rows, cols, fed) = (pane.screen.rows, pane.screen.cols, pane.screen.fed);
            let (row, col) = vt::cursor_after(rows, cols, fed);
            let room = if pane.area.height < 3 {
                1
            } else if pane.area.height > 65537 {
                65535
            } else {
                pane.area.height - 2
            };
            &&& shown.cols == cols
            &&& shown.cursor_col == col
            &&& rows <= room ==> {
                &&& shown.rows == rows
                &&& shown.cursor_row == row
                &&& 0 <= r < rows && 0 <= c < cols ==> shown.cells[r][c] == vt::cell_after(
                    rows,
                    cols,
                    fed,
                    r as u16,
                    c as u16,
                )
            }
            &&& rows > room ==> {
                &&& shown.rows == 1
                &&& shown.cursor_row == 0
                &&& row < rows && 0 <= c < cols ==> shown.cells[0][c] == vt::cell_after(
                    rows,
                    cols,
                    fed,
                    row,
                    c as u16,
                )
            }
        }),
{
}

/// A screen has no room for a character exactly when the character is wider than the screen, or the
/// screen is a single row on which too few columns are left for it. Every wider screen, and every
/// screen of more rows, has the room that a smaller one has.
pub proof fn law_room_for_a_character(rows: u16, cols: u16, col: u16, width: int, more: u16)
    requires
        0 <= width,
        1 <= rows,
        1 <= cols <= more,
        col <= cols,
    ensures
        width == 0 ==> !vt::no_room(rows, cols, col, width),
        width > cols ==> vt::no_room(rows, cols, col, width),
        rows == 1 && width > 0 && width > cols - col ==> vt::no_room(rows, cols, col, width),
        rows >= 2 && width <= cols ==> !vt::no_room(rows, cols, col, width),
        width <= cols - col ==> !vt::no_room(rows, cols, col, width),
        vt::no_room(rows, more, col, width) ==> vt::no_room(rows, cols, col, width),
        vt::no_room(2, cols, col, width) ==> vt::no_room(rows, cols, col, width),
{
}

/// How many columns a character takes: a printable ASCII character one, a control character and
/// what is no character none, and none more than three.
pub proof fn law_widths_of_characters(output: Seq<u8>, i: int)
    requires
        0 <= i < output.len(),
    ensures
        0x20 <= output[i] <= 0x7e ==> vt::width_at(output, i) == 1,
        output[i] < 0x20 || output[i] == 0x7f ==> vt::width_at(output, i) == 0,
        0x80 <= output[i] <= 0xc1 || output[i] >= 0xf5 ==> vt::width_at(output, i) == 0,
        i + 3 <= output.len() && output[i] == 0xe1 && output[i + 1] == 0x9f && output[i + 2] == 0x98
            ==> vt::width_at(output, i) == 3,
        0 <= vt::width_at(output, i) <= 3,
{
    if i + 3 <= output.len() && output[i] == 0xe1 && output[i + 1] == 0x9f && output[i + 2]
        == 0x98 {
        assert(vt::has_char(output, i)) by {
            assert forall|k: int| i < k < i + vt::char_len(output[i]) implies 0x80
                <= #[trigger] output[k] <= 0xbf by {
                assert(k == i + 1 || k == i + 2);
            }
        }
        assert(vt::char_at(output, i) =~= vt::widest());
    }
}

/// The character at `i` is printed and has no room, or, on the widest screens, there is a tab there
/// that is obeyed in one of the last columns.
pub open spec fn lacks_room(rows: u16, cols: u16, output: Seq<u8>, i: int) -> bool {
    let col = vt::column(cols, output.take(i));
    let width = vt::width_at(output, i);
    ||| vt::prints_at(output, i) && width > 0 && (width > cols || (rows == 1 && width > cols - col))
    ||| vt::obeys(output.take(i)) && output[i] == 0x09 && cols > 65527 && col > 65527
}

/// Output fails on a screen exactly when there is no room somewhere in it. So nothing fails without
/// output.
pub proof fn law_failing_is_for_want_of_room(rows: u16, cols: u16, output: Seq<u8>)
    requires
        1 <= rows,
    ensures
        vt::fails(rows, cols, output) <==> exists|i: int|
            0 <= i < output.len() && #[trigger] lacks_room(rows, cols, output, i),
{
    assert forall|i: int| 0 <= i < output.len() implies #[trigger] lacks_room(
        rows,
        cols,
        output,
        i,
    ) == vt::fails_at(rows, cols, output, i) by {}
    if vt::fails(rows, cols, output) {
        let i = choose|i: int| 0 <= i < output.len() && #[trigger] vt::fails_at(rows, cols, output, i);
        assert(lacks_room(rows, cols, output, i));
    }
    if exists|i: int| 0 <= i < output.len() && #[trigger] lacks_room(rows, cols, output, i) {
        let i = choose|i: int| 0 <= i < output.len() && #[trigger] lacks_room(rows, cols, output, i);
        assert(vt::fails_at(rows, cols, output, i));
    }
}

/// A piece of output is told apart from the pieces before it only where it goes on with the second
/// byte of a two-byte character, an ASCII byte and another that is not ASCII; so a piece that
/// begins with a whole character, or that is shorter than three bytes, never spoils the output.
pub proof fn law_whole_pieces_spoil_nothing(before: Seq<u8>, piece: Seq<u8>)
    ensures
        piece.len() < 3 ==> !vt::spoils(before, piece),
        piece.len() > 0 && !(0x80 <= piece[0] <= 0xbf) ==> !vt::spoils(before, piece),
        before.len() == 0 || !(0xc2 <= before.last() <= 0xdf) ==> !vt::spoils(before, piece),
        before.len() > 0 && 0xc2 <= before.last() <= 0xdf && piece.len() >= 3 && 0x80 <= piece[0]
            <= 0xbf && piece[1] < 0x80 && piece[2] >= 0x80 ==> vt::spoils(before, piece),
{
}

} // verus!
