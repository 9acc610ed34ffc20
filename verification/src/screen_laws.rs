//! What is seen on the outer terminal when everything has been drawn: the panes, the footer and
//! the cursor.
use vstd::prelude::*;

use crate::command_laws;
use crate::geometry::Area;
use crate::grid_laws;
use crate::grid_laws::{Grid, Mark};
use crate::layout_laws;
use crate::model::AppView;
use crate::model_laws;
use crate::paint;
use crate::paint::{Attr, Frame, Look, OpView, Paint};
use crate::paint_laws;
use crate::text;
use crate::vt::SnapshotView;

verus! {

/// How text is shown when nothing is set.
pub open spec fn plain() -> Look {
    Look {
        fg: Paint::Reset,
        bg: Paint::Reset,
        bold: false,
        underline: false,
        reverse: false,
        italic: false,
        dim: false,
    }
}

/// What pane `i` is drawn with: the pane with the focus is marked as active, and all are while
/// input is broadcast; the footer keeps two rows free.
pub open spec fn frame_of(s: AppView, i: int) -> Frame {
    Frame {
        active: i == s.active_index || s.broadcast_mode,
        broadcast: s.broadcast_mode,
        zoomed: s.is_zoomed,
        screen_width: s.screen_width as usize,
        screen_height: s.screen_height as usize,
        bottom: if s.no_instructions {
            0
        } else {
            2
        },
    }
}

/// What is seen in a cell is what a pane shows there: inside the border its virtual screen, on the
/// border the title or the line.
pub open spec fn shows_pane(
    mark: Option<Mark>,
    area: Area,
    frame: Frame,
    pid: u32,
    shown: SnapshotView,
    px: int,
    py: int,
) -> bool {
    let (r, c) = (py - (area.y + 1), px - (area.x + 1));
    let marked = frame.broadcast && r == shown.cursor_row && c == shown.cursor_col;
    let title = paint::title(frame, pid, area.width);
    let titled = grid_laws::under_title(area, frame, title.len() as int, px, py);
    let look = grid_laws::border_look(plain(), frame.active);
    &&& grid_laws::visible(area, frame, shown, r, c) ==> {
        &&& grid_laws::seen(mark, frame, shown, r, c, look)
        &&& (r > 0 || !frame.active) && shown.cells[r][c] is Some ==> mark->0.look
            == grid_laws::look_wanted(shown.cells[r][c]->0, marked)
    }
    &&& grid_laws::border_drawn(area, frame, px, py) && !titled ==> mark == Some(
        Mark { text: seq![grid_laws::line_at(area, px, py)], look, offset: 0 },
    )
    &&& titled ==> {
        &&& mark is Some
        &&& mark->0.text == title
        &&& mark->0.offset == px - grid_laws::title_column(area, title.len() as int)
        &&& mark->0.look.reverse
        &&& mark->0.look.fg == Paint::Yellow
    }
}

/// Everything that the panes show takes the columns that it should: a cell one, and so do the
/// characters of the lines and titles.
pub open spec fn all_narrow(columns: spec_fn(Seq<char>) -> int, s: AppView) -> bool {
    &&& grid_laws::lines_narrow(columns)
    &&& forall|i: int|
        0 <= i < s.panes.len() ==> grid_laws::narrow(columns, (#[trigger] s.panes[i]).shown())
            && s.panes[i].shown().wf() && grid_laws::title_narrow(
            columns,
            s.panes[i].area,
            frame_of(s, i),
            s.panes[i].pid,
        )
}

/// One pane, on a terminal on which nothing is set.
proof fn lemma_pane_steps(
    columns: spec_fn(Seq<char>) -> int,
    grid: Grid,
    s: AppView,
    i: int,
    px: int,
    py: int,
)
    requires
        all_narrow(columns, s),
        0 <= i < s.panes.len(),
        grid_laws::framed(s.panes[i].area),
        grid.look == plain(),
    ensures
        ({
            let after = grid_laws::steps(columns, grid, s.pane_ops(i), px, py);
            let pane = s.panes[i];
            &&& after.look == plain()
            &&& pane.area.holds(px, py) ==> shows_pane(
                after.mark,
                pane.area,
                frame_of(s, i),
                pane.pid,
                pane.shown(),
                px,
                py,
            )
            &&& !pane.area.holds(px, py) ==> after.mark == grid.mark
        }),
{
    let pane = s.panes[i];
    assert(grid_laws::narrow(columns, pane.shown()));
    assert(s.frame(i) == frame_of(s, i));
    grid_laws::law_pane_on_the_grid(
        columns,
        grid,
        pane.area,
        frame_of(s, i),
        pane.pid,
        pane.shown(),
        px,
        py,
    );
}

/// The first `n` panes, when pane `i` is the last that holds the cell.
proof fn lemma_panes_steps(
    columns: spec_fn(Seq<char>) -> int,
    grid: Grid,
    s: AppView,
    n: nat,
    i: int,
    px: int,
    py: int,
)
    requires
        all_narrow(columns, s),
        n <= s.panes.len(),
        forall|k: int| 0 <= k < s.panes.len() ==> grid_laws::framed((#[trigger] s.panes[k]).area),
        forall|k: int|
            0 <= k < s.panes.len() && (#[trigger] s.panes[k]).area.holds(px, py) ==> k <= i,
        0 <= i < s.panes.len() ==> s.panes[i].area.holds(px, py),
        grid.look == plain(),
    ensures
        ({
            let after = grid_laws::steps(columns, grid, s.panes_ops(n), px, py);
            &&& after.look == plain()
            &&& 0 <= i < n ==> shows_pane(
                after.mark,
                s.panes[i].area,
                frame_of(s, i),
                s.panes[i].pid,
                s.panes[i].shown(),
                px,
                py,
            )
            &&& i < 0 ==> after.mark == grid.mark
        }),
    decreases n,
{
    if n > 0 {
        let m = (n - 1) as nat;
        lemma_panes_steps(columns, grid, s, m, i, px, py);
        let mid = grid_laws::steps(columns, grid, s.panes_ops(m), px, py);
        lemma_pane_steps(columns, mid, s, m as int, px, py);
        grid_laws::lemma_steps_join(
            columns,
            grid,
            s.panes_ops(m),
            s.pane_ops(m as int),
            px,
            py,
        );
    }
}

/// The panes have room and are where they belong: without zoom all are in place and large enough;
/// with zoom the active one fills the screen.
pub open spec fn roomy_screen(s: AppView) -> bool {
    &&& command_laws::well_placed(s)
    &&& !s.is_zoomed ==> command_laws::large_enough(s, s.root)
    &&& s.is_zoomed ==> grid_laws::framed(s.panes[s.active_index].area)
}

/// Panes with room lie on the screen, above the footer.
proof fn lemma_framed(s: AppView, i: int)
    requires
        s.wf(),
        0 <= i < s.panes.len(),
        roomy_screen(s),
        s.is_zoomed ==> i == s.active_index,
    ensures
        grid_laws::framed(s.panes[i].area),
        s.panes[i].area.x + s.panes[i].area.width <= s.screen_width,
        s.panes[i].area.y + s.panes[i].area.height <= s.screen_height - (if s.no_instructions {
            0int
        } else {
            2
        }),
{
    if !s.is_zoomed {
        let area = s.layout_area();
        assert(command_laws::field(s) == area);
        command_laws::lemma_in_place(s);
        command_laws::lemma_large_enough(s, s.root);
        model_laws::law_panes_stay_on_the_screen(s, i);
        layout_laws::law_roomy_panes_are_tiles(
            s.root,
            area,
            s.min_pane_width,
            s.min_pane_height,
        );
        layout_laws::law_tiles_follow_panes(s.root, area);
        assert(s.panes[i].area == s.places()[i].area);
        assert(s.root.tiles(area)[i].area.width >= s.min_pane_width);
        assert(s.root.tiles(area)[i].area.height >= s.min_pane_height);
    }
}

/// The footer writes to the last two rows only and sets nothing that stays.
proof fn lemma_footer_steps(
    columns: spec_fn(Seq<char>) -> int,
    grid: Grid,
    s: AppView,
    px: int,
    py: int,
)
    requires
        0 <= s.screen_height <= 65535,
    ensures
        ({
            let after = grid_laws::steps(columns, grid, s.footer_ops(), px, py);
            let key = if s.debug_mode {
                s.last_key_code
            } else {
                None
            };
            let first = text::padded(
                paint::footer_first(s.broadcast_mode, key, s.screen_width),
                s.screen_width as nat,
            );
            let second = text::padded(paint::footer_second(), s.screen_width as nat);
            let look = Look { reverse: true, ..grid.look };
            let (upper, lower) = (
                paint::less(s.screen_height, 2),
                paint::less(s.screen_height, 1),
            );
            &&& after.look == plain()
            &&& after.mark == (if py == lower && 0 <= px < columns(second) {
                Some(Mark { text: second, look, offset: px })
            } else if py == upper && 0 <= px < columns(first) {
                Some(Mark { text: first, look, offset: px })
            } else {
                grid.mark
            })
        }),
{
    let ops = s.footer_ops();
    let reverse = OpView::Attribute(Attr::Reverse);
    let to_upper = OpView::MoveTo(0, paint::less(s.screen_height, 2) as u16);
    let to_lower = OpView::MoveTo(0, paint::less(s.screen_height, 1) as u16);
    let reset = OpView::Attribute(Attr::Reset);
    let (first, second) = (ops[2], ops[4]);
    let o1 = seq![reverse];
    let o2 = o1.push(to_upper);
    let o3 = o2.push(first);
    let o4 = o3.push(to_lower);
    let o5 = o4.push(second);
    let none = Seq::<OpView>::empty();
    assert(ops.drop_last() =~= o5);
    assert(o5.drop_last() =~= o4);
    assert(o4.drop_last() =~= o3);
    assert(o3.drop_last() =~= o2);
    assert(o2.drop_last() =~= o1);
    assert(o1.drop_last() =~= none);
    let g0 = grid_laws::steps(columns, grid, none, px, py);
    assert(g0 == grid);
    let g1 = grid_laws::steps(columns, grid, o1, px, py);
    assert(g1 == grid_laws::step(columns, g0, reverse, px, py));
    let g2 = grid_laws::steps(columns, grid, o2, px, py);
    assert(g2 == grid_laws::step(columns, g1, to_upper, px, py));
    let g3 = grid_laws::steps(columns, grid, o3, px, py);
    assert(g3 == grid_laws::step(columns, g2, first, px, py));
    let g4 = grid_laws::steps(columns, grid, o4, px, py);
    assert(g4 == grid_laws::step(columns, g3, to_lower, px, py));
    let g5 = grid_laws::steps(columns, grid, o5, px, py);
    assert(g5 == grid_laws::step(columns, g4, second, px, py));
    let g6 = grid_laws::steps(columns, grid, ops, px, py);
    assert(g6 == grid_laws::step(columns, g5, reset, px, py));
}

/// The commands before the panes: the cursor is hidden, and everything is cleared if it is to be
/// drawn anew.
proof fn lemma_first_steps(
    columns: spec_fn(Seq<char>) -> int,
    grid: Grid,
    s: AppView,
    px: int,
    py: int,
)
    requires
        grid.look == plain(),
    ensures
        ({
            let ops = seq![OpView::HideCursor] + paint::needed(s.full_redraw, OpView::ClearAll);
            let after = grid_laws::steps(columns, grid, ops, px, py);
            &&& after.look == plain()
            &&& after.mark == (if s.full_redraw {
                None
            } else {
                grid.mark
            })
        }),
{
    let hide = seq![OpView::HideCursor];
    let clear = paint::needed(s.full_redraw, OpView::ClearAll);
    grid_laws::lemma_one_step(columns, grid, OpView::HideCursor, px, py);
    let g1 = grid_laws::steps(columns, grid, hide, px, py);
    grid_laws::lemma_one_step(columns, g1, OpView::ClearAll, px, py);
    grid_laws::lemma_steps_join(columns, grid, hide, clear, px, py);
    if !s.full_redraw {
        assert(hide + clear =~= hide);
    }
}

/// The commands for the cursor print nothing.
proof fn lemma_cursor_steps(
    columns: spec_fn(Seq<char>) -> int,
    grid: Grid,
    s: AppView,
    px: int,
    py: int,
)
    ensures
        grid_laws::steps(columns, grid, s.cursor_ops(), px, py).mark == grid.mark,
{
    let ops = s.cursor_ops();
    let none = Seq::<OpView>::empty();
    assert(grid_laws::steps(columns, grid, none, px, py) == grid);
    if ops.len() == 2 {
        assert(ops.drop_last().drop_last() =~= none);
        let g1 = grid_laws::steps(columns, grid, ops.drop_last(), px, py);
        assert(g1 == grid_laws::step(columns, grid, ops[0], px, py));
    } else if ops.len() == 1 {
        assert(ops.drop_last() =~= none);
    }
}

/// Drawing is: hiding the cursor, clearing if need be, the panes, the footer, the cursor.
proof fn lemma_draw_steps(
    columns: spec_fn(Seq<char>) -> int,
    grid: Grid,
    s: AppView,
    px: int,
    py: int,
) -> (parts: (Grid, Grid, Grid))
    requires
        grid.look == plain(),
    ensures
        parts.0.look == plain(),
        parts.0.mark == (if s.full_redraw {
            None
        } else {
            grid.mark
        }),
        parts.1 == grid_laws::steps(columns, parts.0, s.visible_ops(), px, py),
        parts.2 == grid_laws::steps(columns, parts.1, s.instruction_ops(), px, py),
        grid_laws::steps(columns, grid, s.draw_ops(), px, py).mark == parts.2.mark,
{
    let first = seq![OpView::HideCursor] + paint::needed(s.full_redraw, OpView::ClearAll);
    let panes = s.visible_ops();
    let footer = s.instruction_ops();
    let cursor = s.cursor_ops();
    lemma_first_steps(columns, grid, s, px, py);
    let g0 = grid_laws::steps(columns, grid, first, px, py);
    grid_laws::lemma_steps_join(columns, grid, first, panes, px, py);
    let g1 = grid_laws::steps(columns, grid, first + panes, px, py);
    grid_laws::lemma_steps_join(columns, grid, first + panes, footer, px, py);
    let g2 = grid_laws::steps(columns, grid, first + panes + footer, px, py);
    grid_laws::lemma_steps_join(columns, grid, first + panes + footer, cursor, px, py);
    lemma_cursor_steps(columns, g2, s, px, py);
    (g0, g1, g2)
}

/// The panes are drawn in their order, on whatever screen: where several hold a cell, as on a
/// screen that is too small for them all, it shows what the last of them shows there. While a pane
/// is zoomed it alone is drawn.
pub proof fn law_later_panes_lie_above_earlier_ones(
    columns: spec_fn(Seq<char>) -> int,
    grid: Grid,
    s: AppView,
    i: int,
    px: int,
    py: int,
)
    requires
        s.wf(),
        0 <= i < s.panes.len(),
        forall|k: int| 0 <= k < s.panes.len() ==> grid_laws::framed((#[trigger] s.panes[k]).area),
        s.is_zoomed ==> i == s.active_index,
        s.panes[i].area.holds(px, py),
        !s.is_zoomed ==> forall|k: int|
            i < k < s.panes.len() ==> !(#[trigger] s.panes[k]).area.holds(px, py),
        s.no_instructions || py < s.screen_height - 2,
        grid.look == plain(),
    ensures
        all_narrow(columns, s) ==> shows_pane(
            grid_laws::steps(columns, grid, s.draw_ops(), px, py).mark,
            s.panes[i].area,
            frame_of(s, i),
            s.panes[i].pid,
            s.panes[i].shown(),
            px,
            py,
        ),
{
    if all_narrow(columns, s) {
        let (g0, g1, g2) = lemma_draw_steps(columns, grid, s, px, py);
        if s.is_zoomed {
            lemma_pane_steps(columns, g0, s, i, px, py);
        } else {
            lemma_panes_steps(columns, g0, s, s.panes.len(), i, px, py);
        }
        if !s.no_instructions {
            assert(s.panes[i].wf());
            lemma_footer_steps(columns, g1, s, px, py);
        }
    }
}

/// When everything has been drawn, every cell of the screen shows what the pane shows that holds
/// it: the pane that lies there without zoom, and the active one while it is zoomed.
pub proof fn law_the_screen_shows_the_panes(
    columns: spec_fn(Seq<char>) -> int,
    grid: Grid,
    s: AppView,
    i: int,
    px: int,
    py: int,
)
    requires
        s.wf(),
        0 <= i < s.panes.len(),
        roomy_screen(s),
        s.is_zoomed ==> i == s.active_index,
        s.panes[i].area.holds(px, py),
        grid.look == plain(),
    ensures
        all_narrow(columns, s) ==> shows_pane(
            grid_laws::steps(columns, grid, s.draw_ops(), px, py).mark,
            s.panes[i].area,
            frame_of(s, i),
            s.panes[i].pid,
            s.panes[i].shown(),
            px,
            py,
        ),
{
    if all_narrow(columns, s) {
        let (g0, g1, g2) = lemma_draw_steps(columns, grid, s, px, py);
        lemma_framed(s, i);
        if s.is_zoomed {
            lemma_pane_steps(columns, g0, s, i, px, py);
        } else {
            assert forall|k: int| 0 <= k < s.panes.len() implies grid_laws::framed(
                (#[trigger] s.panes[k]).area,
            ) by {
                lemma_framed(s, k);
            }
            lemma_one_pane(s, i, px, py);
            lemma_panes_steps(columns, g0, s, s.panes.len(), i, px, py);
        }
        if !s.no_instructions {
            lemma_footer_steps(columns, g1, s, px, py);
        }
    }
}

/// What belongs neither to a pane that is shown nor to the footer is not written to: it is as it
/// was before, or cleared if everything is drawn anew.
pub proof fn law_the_rest_of_the_screen_is_left_alone(
    columns: spec_fn(Seq<char>) -> int,
    grid: Grid,
    s: AppView,
    px: int,
    py: int,
)
    requires
        s.wf(),
        s.panes.len() > 0,
        roomy_screen(s),
        forall|i: int|
            0 <= i < s.panes.len() && (!s.is_zoomed || i == s.active_index) ==> !(
            #[trigger] s.panes[i]).area.holds(px, py),
        s.no_instructions || py < s.screen_height - 2,
        grid.look == plain(),
    ensures
        all_narrow(columns, s) ==> grid_laws::steps(columns, grid, s.draw_ops(), px, py).mark == (
        if s.full_redraw {
            None
        } else {
            grid.mark
        }),
{
    if all_narrow(columns, s) {
        let (g0, g1, g2) = lemma_draw_steps(columns, grid, s, px, py);
        if s.is_zoomed {
            lemma_framed(s, s.active_index);
            lemma_pane_steps(columns, g0, s, s.active_index, px, py);
        } else {
            assert forall|k: int| 0 <= k < s.panes.len() implies grid_laws::framed(
                (#[trigger] s.panes[k]).area,
            ) by {
                lemma_framed(s, k);
            }
            lemma_panes_steps(columns, g0, s, s.panes.len(), -1, px, py);
        }
        if !s.no_instructions {
            lemma_framed(s, s.active_index);
            lemma_footer_steps(columns, g1, s, px, py);
        }
    }
}

/// No two panes hold the same cell.
proof fn lemma_one_pane(s: AppView, i: int, px: int, py: int)
    requires
        s.wf(),
        0 <= i < s.panes.len(),
        roomy_screen(s),
        !s.is_zoomed,
        s.panes[i].area.holds(px, py),
    ensures
        forall|k: int|
            0 <= k < s.panes.len() && (#[trigger] s.panes[k]).area.holds(px, py) ==> k == i,
{
    command_laws::lemma_in_place(s);
    command_laws::lemma_large_enough(s, s.root);
    model_laws::law_panes_stay_on_the_screen(s, i);
    model_laws::law_panes_divide_the_screen(s, px, py);
}

/// The first line of the footer as it is meant: what the keys do, filled with spaces, and the last
/// key at the end if keys are shown. What there is no room for is cut off.
pub open spec fn first_line_at(s: AppView, px: int) -> char {
    let keys = if s.broadcast_mode {
        " [ BROADCAST MODE ACTIVE ] - [Ctrl+B]:Toggle Broadcast "@
    } else {
        " [Ctrl+V]:Split V | [Ctrl+H]:Split H | [Ctrl+Space]:Maximize | [Ctrl+B]:Broadcast "@
    };
    let tag = if s.debug_mode && s.last_key_code is Some {
        "  [key:"@ + s.last_key_code->0 + "]"@
    } else {
        Seq::empty()
    };
    let start = if tag.len() > s.screen_width {
        0
    } else {
        s.screen_width - tag.len()
    };
    if px >= start {
        tag[px - start]
    } else if px < keys.len() {
        keys[px]
    } else {
        ' '
    }
}

/// The second line of the footer as it is meant.
pub open spec fn second_line_at(px: int) -> char {
    let keys = " [Ctrl+Shift+Arrows]:Resize | [Alt+Shift+Arrows]:Swap "@;
    if px < keys.len() {
        keys[px]
    } else {
        ' '
    }
}

/// When everything has been drawn, the last two rows of the screen are the footer, reversed from
/// the first column to the last, unless it is not wanted. Where keys are shown, the first line ends
/// in the last key, or begins with it where there is no room for more.
pub proof fn law_the_last_rows_show_the_footer(
    columns: spec_fn(Seq<char>) -> int,
    grid: Grid,
    s: AppView,
    px: int,
)
    requires
        s.wf(),
        !s.no_instructions,
        s.screen_height >= 2,
        0 <= px < s.screen_width,
        grid.look == plain(),
        forall|line: Seq<char>| #[trigger] columns(line) == line.len(),
    ensures
        ({
            let upper = s.screen_height - 2;
            let lower = s.screen_height - 1;
            let first = grid_laws::steps(columns, grid, s.draw_ops(), px, upper).mark;
            let second = grid_laws::steps(columns, grid, s.draw_ops(), px, lower).mark;
            &&& first is Some && second is Some
            &&& first->0.look == (Look { reverse: true, ..plain() })
            &&& second->0.look == (Look { reverse: true, ..plain() })
            &&& first->0.text[first->0.offset] == first_line_at(s, px)
            &&& second->0.text[second->0.offset] == second_line_at(px)
        }),
{
    let upper = s.screen_height - 2;
    let lower = s.screen_height - 1;
    let (a0, a1, a2) = lemma_draw_steps(columns, grid, s, px, upper);
    let (b0, b1, b2) = lemma_draw_steps(columns, grid, s, px, lower);
    lemma_visible_look(columns, a0, s, px, upper);
    lemma_visible_look(columns, b0, s, px, lower);
    lemma_footer_steps(columns, a1, s, px, upper);
    lemma_footer_steps(columns, b1, s, px, lower);
    lemma_footer_text(s, px);
}

/// The texts of the footer.
proof fn lemma_footer_text(s: AppView, px: int)
    requires
        0 <= px < s.screen_width,
    ensures
        ({
            let key = if s.debug_mode {
                s.last_key_code
            } else {
                None
            };
            let first = text::padded(
                paint::footer_first(s.broadcast_mode, key, s.screen_width),
                s.screen_width as nat,
            );
            let second = text::padded(paint::footer_second(), s.screen_width as nat);
            &&& first.len() == s.screen_width
            &&& second.len() == s.screen_width
            &&& first[px] == first_line_at(s, px)
            &&& second[px] == second_line_at(px)
        }),
{
    reveal_strlit("  [key:");
    reveal_strlit("]");
    let key = if s.debug_mode {
        s.last_key_code
    } else {
        None
    };
    if let Some(label) = key {
        let tag = paint::key_tag(label);
        assert(tag == "  [key:"@ + label + "]"@);
        assert(tag.len() == label.len() + 8);
    }
}

/// The panes leave nothing set.
proof fn lemma_visible_look(
    columns: spec_fn(Seq<char>) -> int,
    grid: Grid,
    s: AppView,
    px: int,
    py: int,
)
    requires
        s.wf(),
        grid.look == plain(),
    ensures
        grid_laws::steps(columns, grid, s.visible_ops(), px, py).look == plain(),
{
    grid_laws::lemma_look(columns, grid, s.visible_ops(), px, py);
    if !s.is_zoomed {
        lemma_panes_look(s, s.panes.len());
    } else if s.panes.len() > 0 {
        let pane = s.panes[s.active_index];
        paint_laws::law_pane_ends_reset(
            pane.area,
            s.frame(s.active_index),
            pane.pid,
            pane.shown(),
            plain(),
        );
    } else {
        assert(paint_laws::looks_after(plain(), s.visible_ops()) == plain());
    }
}

/// The same for the first `n` panes.
proof fn lemma_panes_look(s: AppView, n: nat)
    ensures
        paint_laws::looks_after(plain(), s.panes_ops(n)) == plain(),
    decreases n,
{
    if n > 0 {
        let m = (n - 1) as nat;
        lemma_panes_look(s, m);
        let pane = s.panes[m as int];
        paint_laws::law_pane_ends_reset(
            pane.area,
            s.frame(m as int),
            pane.pid,
            pane.shown(),
            plain(),
        );
        paint_laws::lemma_ops_join(plain(), s.panes_ops(m), s.pane_ops(m as int));
    }
}

/// The cursor of the active pane is in the cell in which the outer terminal would show it: inside
/// the border, on the screen and above the footer.
pub open spec fn cursor_seen(s: AppView) -> bool {
    let area = s.panes[s.active_index].area;
    let shown = s.panes[s.active_index].shown();
    let (x, y) = (area.x + 1 + shown.cursor_col, area.y + 1 + shown.cursor_row);
    &&& x < area.x + area.width - 1
    &&& y < area.y + area.height - 1
    &&& x < s.screen_width
    &&& y < s.screen_height - (if s.no_instructions {
        0int
    } else {
        2
    })
}

/// When everything has been drawn, the cursor of the outer terminal stands where the cursor of the
/// active pane is, in the cell of its virtual screen, and can be seen; where that cell is not
/// shown, the cursor is hidden. Drawing begins by hiding the cursor, and clears the terminal then
/// if everything is to be drawn anew, which it need not be after that.
pub proof fn law_the_cursor_is_that_of_the_active_pane(
    columns: spec_fn(Seq<char>) -> int,
    grid: Grid,
    s: AppView,
    px: int,
    py: int,
)
    requires
        s.wf(),
        s.panes.len() > 0,
        grid_laws::framed(s.panes[s.active_index].area),
    ensures
        ({
            let ops = s.draw_ops();
            let after = grid_laws::steps(columns, grid, ops, px, py);
            let area = s.panes[s.active_index].area;
            let shown = s.panes[s.active_index].shown();
            &&& ops.len() > 0
            &&& ops[0] == OpView::HideCursor
            &&& s.full_redraw ==> ops[1] == OpView::ClearAll
            &&& cursor_seen(s) ==> {
                &&& ops.last() == OpView::ShowCursor
                &&& after.x == area.x + 1 + shown.cursor_col
                &&& after.y == area.y + 1 + shown.cursor_row
            }
            &&& !cursor_seen(s) ==> ops.last() == OpView::HideCursor
            &&& s.drawn() == AppView { full_redraw: false, ..s }
        }),
{
    let before = seq![OpView::HideCursor] + paint::needed(s.full_redraw, OpView::ClearAll)
        + s.visible_ops() + s.instruction_ops();
    let cursor = s.cursor_ops();
    let ops = s.draw_ops();
    assert(ops == before + cursor);
    grid_laws::lemma_steps_join(columns, grid, before, cursor, px, py);
    let g = grid_laws::steps(columns, grid, before, px, py);
    assert(ops.last() == cursor.last());
    if cursor_seen(s) {
        assert(cursor.len() == 2);
        assert(cursor.drop_last() =~= seq![cursor[0]]);
        grid_laws::lemma_one_step(columns, g, cursor[0], px, py);
    }
}

/// The title names the zoom if there is one, then the program by its process number, then the
/// state of the pane: in full where more than six columns are left beside it, by a star where not.
pub proof fn law_the_title_says_what_it_should(s: AppView, i: int)
    requires
        0 <= i < s.panes.len(),
    ensures
        ({
            let pane = s.panes[i];
            let title = paint::title(frame_of(s, i), pane.pid, pane.area.width);
            let zoom = if s.is_zoomed {
                " [ ZOOMED ] "@
            } else {
                Seq::empty()
            };
            let program = zoom + " [ PID: "@ + text::decimal(pane.pid as nat) + " ] "@;
            let state = if s.broadcast_mode {
                " [ BROADCAST ] "@
            } else {
                " [ ACTIVE ] "@
            };
            title == (if pane.area.width - (program + state).len() > 6 {
                program + state
            } else {
                program + "[*] "@
            })
        }),
{
}

} // verus!
