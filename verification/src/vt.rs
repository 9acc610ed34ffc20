//! Virtual screens: what a program's output looks like on a terminal, as vt100 renders it.
use vstd::prelude::*;

verus! {

/// The least number of rows on which vt100 can wrap a line: on a single row its scrolling moves
/// the wrapped row out of the grid, and it panics.
pub const MIN_ROWS: u16 = 2;

/// The least number of columns in which vt100 can place any character: the widest, U+17D8, takes
/// three, and vt100 panics on a character that is wider than the screen.
pub const MIN_COLS: u16 = 3;

/// The greatest number of columns in which vt100 can place a tab stop after the last one.
pub const MAX_COLS: u16 = 65527;

/// The columns of a small screen on which vt100 renders every output. It is used to learn what
/// vt100 makes of a piece of output. No character of any width that is printed on it leaves the
/// cursor in the same column.
pub const PROBE_COLS: u16 = 5;

/// A tab.
pub const TAB: u8 = 0x09;

/// A carriage return.
pub const RETURN: u8 = 0x0d;

/// The start of an escape sequence.
pub const ESCAPE: u8 = 0x1b;

/// A letter that is printed in text. In a control sequence it ends one that moves the cursor up.
pub const LETTER: u8 = 0x41;

/// The one character that takes three columns, U+17D8, in UTF-8.
pub open spec fn widest() -> Seq<u8> {
    seq![0xe1u8, 0x9f, 0x98]
}

/// A colour of a cell.
#[derive(Clone, Copy, Debug, PartialEq, Eq, Structural)]
pub enum Color {
    Default,
    Idx(u8),
    Rgb(u8, u8, u8),
}

/// A cell of a virtual screen: its text and how it is shown.
#[derive(Debug)]
pub struct Cell {
    pub contents: String,
    pub fgcolor: Color,
    pub bgcolor: Color,
    pub bold: bool,
    pub dim: bool,
    pub italic: bool,
    pub underline: bool,
    pub inverse: bool,
}

/// The value of a cell.
pub struct CellView {
    pub contents: Seq<char>,
    pub fgcolor: Color,
    pub bgcolor: Color,
    pub bold: bool,
    pub dim: bool,
    pub italic: bool,
    pub underline: bool,
    pub inverse: bool,
}

impl View for Cell {
    type V = CellView;

    open spec fn view(&self) -> CellView {
        CellView {
            contents: self.contents@,
            fgcolor: self.fgcolor,
            bgcolor: self.bgcolor,
            bold: self.bold,
            dim: self.dim,
            italic: self.italic,
            underline: self.underline,
            inverse: self.inverse,
        }
    }
}

/// The value of a cell that may be missing.
pub open spec fn cell_view(cell: Option<Cell>) -> Option<CellView> {
    match cell {
        Some(cell) => Some(cell@),
        None => None,
    }
}

/// A virtual screen, held in a vt100 parser.
#[verifier::external_body]
pub struct VirtualScreen {
    parser: vt100::Parser,
}

/// What a virtual screen was made from: its size, and the pieces of output that it was given.
pub struct ScreenView {
    pub rows: u16,
    pub cols: u16,
    pub fed: Seq<Seq<u8>>,
}

/// The pieces of output that the parser in `screen` has processed, oldest first.
pub uninterp spec fn fed(screen: VirtualScreen) -> Seq<Seq<u8>>;

/// The rows and columns that the parser in `screen` was made for.
pub uninterp spec fn made_for(screen: VirtualScreen) -> (u16, u16);

/// The cell that vt100 shows in a row and a column of a screen of `rows` rows and `cols` columns
/// after it has processed `fed`, piece by piece.
pub uninterp spec fn cell_after(
    rows: u16,
    cols: u16,
    fed: Seq<Seq<u8>>,
    row: u16,
    col: u16,
) -> Option<CellView>;

/// The row and the column of the cursor of such a screen.
pub uninterp spec fn cursor_after(rows: u16, cols: u16, fed: Seq<Seq<u8>>) -> (u16, u16);

/// The piece goes on with the second byte of a two-byte character that `before` ends in, an ASCII
/// byte, and a byte that is not ASCII. Of such a piece vte drops the ASCII byte.
pub open spec fn spoils(before: Seq<u8>, piece: Seq<u8>) -> bool {
    &&& before.len() > 0
    &&& 0xc2 <= before.last() <= 0xdf
    &&& piece.len() >= 3
    &&& 0x80 <= piece[0] <= 0xbf
    &&& piece[1] < 0x80
    &&& piece[2] >= 0x80
}

/// No piece of the output spoils it.
pub open spec fn joins(fed: Seq<Seq<u8>>) -> bool
    decreases fed.len(),
{
    fed.len() == 0 || (joins(fed.drop_last()) && !spoils(fed.drop_last().flatten(), fed.last()))
}

/// The column of the cursor on a screen of `cols` columns, and of rows enough to wrap lines, after
/// `output`. It does not depend on how many rows there are.
pub open spec fn column(cols: u16, output: Seq<u8>) -> u16 {
    cursor_after(MIN_ROWS, cols, seq![output]).1
}

/// The output from the last start of an escape sequence on; nothing if there is none. What vte
/// makes of the next byte depends on nothing else: from every state an escape leads to the same
/// one.
pub open spec fn since_escape(output: Seq<u8>) -> Seq<u8>
    decreases output.len(),
{
    if output.len() == 0 {
        Seq::empty()
    } else if output.last() == ESCAPE {
        seq![ESCAPE]
    } else if since_escape(output.drop_last()).len() == 0 {
        Seq::empty()
    } else {
        since_escape(output.drop_last()).push(output.last())
    }
}

/// A character after `output` is printed, and is not part of a control sequence or a string.
pub open spec fn in_text(output: Seq<u8>) -> bool {
    let recent = since_escape(output);
    column(PROBE_COLS, recent.push(LETTER)) != column(PROBE_COLS, recent)
}

/// A control character after `output` is obeyed, and is not part of a string.
pub open spec fn obeys(output: Seq<u8>) -> bool {
    let recent = since_escape(output);
    column(PROBE_COLS, recent.push(TAB)) != column(PROBE_COLS, recent.push(RETURN))
}

/// The character at `i` is printed. Where it is one byte, the cursor of a small screen moves.
pub open spec fn prints_at(output: Seq<u8>, i: int) -> bool {
    &&& output[i] >= 0x80 || column(PROBE_COLS, output.take(i)) != column(
        PROBE_COLS,
        output.take(i + 1),
    )
    &&& in_text(output.take(i))
}

/// How many bytes the UTF-8 encoding of a character has that begins with `lead`.
pub open spec fn char_len(lead: u8) -> int {
    if lead < 0x80 {
        1
    } else if 0xc2 <= lead <= 0xdf {
        2
    } else if 0xe0 <= lead <= 0xef {
        3
    } else if 0xf0 <= lead <= 0xf4 {
        4
    } else {
        0
    }
}

/// The output has as many bytes from `i` on as the first asks for, and the others go on with it.
pub open spec fn has_char(output: Seq<u8>, i: int) -> bool {
    &&& char_len(output[i]) > 0
    &&& i + char_len(output[i]) <= output.len()
    &&& forall|k: int| i < k < i + char_len(output[i]) ==> 0x80 <= #[trigger] output[k] <= 0xbf
}

/// The character at `i` in the output.
pub open spec fn char_at(output: Seq<u8>, i: int) -> Seq<u8> {
    output.subrange(i, i + char_len(output[i]))
}

/// How many columns a character of several bytes takes, as vt100 moves the cursor over it. Over
/// the widest it moves by two columns only.
pub open spec fn wide_char(bytes: Seq<u8>) -> int {
    if bytes == widest() {
        3
    } else if column(PROBE_COLS, bytes) >= 2 {
        2
    } else {
        column(PROBE_COLS, bytes) as int
    }
}

/// How many columns the character at `i` takes in text. A control character takes none, nor does
/// what is no character.
pub open spec fn width_at(output: Seq<u8>, i: int) -> int {
    if !has_char(output, i) {
        0
    } else if output[i] >= 0x80 {
        wide_char(char_at(output, i))
    } else if 0x20 <= output[i] < 0x7f {
        1
    } else {
        0
    }
}

/// A screen of this size has no room for a character of `width` columns when the cursor is in
/// column `col`: the character is wider than the screen, or would have to go to another row
/// where there is none.
pub open spec fn no_room(rows: u16, cols: u16, col: u16, width: int) -> bool {
    width > 0 && (width > cols || (rows < MIN_ROWS && col + width > cols))
}

/// From this column a tab would go to one that has no number.
pub open spec fn past_tabs(col: u16) -> bool {
    col > MAX_COLS
}

/// At byte `i` of the output vt100 panics on a screen of this size: the character there is printed
/// and has no room, or the tab there is obeyed and goes too far.
pub open spec fn fails_at(rows: u16, cols: u16, output: Seq<u8>, i: int) -> bool {
    let before = output.take(i);
    ||| no_room(rows, cols, column(cols, before), width_at(output, i)) && prints_at(output, i)
    ||| cols > MAX_COLS && output[i] == TAB && past_tabs(column(cols, before)) && obeys(before)
}

/// vt100 panics on a screen of this size before it has processed all the output.
pub open spec fn fails(rows: u16, cols: u16, output: Seq<u8>) -> bool {
    exists|i: int| 0 <= i < output.len() && #[trigger] fails_at(rows, cols, output, i)
}

/// A size on which vt100 can panic at all.
pub open spec fn delicate(rows: u16, cols: u16) -> bool {
    rows < MIN_ROWS || cols < MIN_COLS || cols > MAX_COLS
}

/// The rows of the nearest size on which vt100 renders every output.
pub open spec fn safe_rows(rows: u16) -> u16 {
    if rows < MIN_ROWS {
        MIN_ROWS
    } else {
        rows
    }
}

/// The columns of that size.
pub open spec fn safe_cols(cols: u16) -> u16 {
    if cols < MIN_COLS {
        MIN_COLS
    } else if cols > MAX_COLS {
        MAX_COLS
    } else {
        cols
    }
}

impl View for VirtualScreen {
    type V = ScreenView;

    open spec fn view(&self) -> ScreenView {
        ScreenView { rows: made_for(*self).0, cols: made_for(*self).1, fed: fed(*self) }
    }
}

impl ScreenView {
    /// vt100 renders another piece of output on the screen without a panic. On a delicate size
    /// that is known of output as a whole, so no piece may have spoiled it.
    pub open spec fn renders(self, bytes: Seq<u8>) -> bool {
        &&& 1 <= self.rows
        &&& 1 <= self.cols
        &&& delicate(self.rows, self.cols) ==> {
            &&& joins(self.fed.push(bytes))
            &&& !fails(self.rows, self.cols, self.fed.flatten() + bytes)
        }
    }

    /// The screen to which the same output was given in one piece.
    pub open spec fn joined(self) -> ScreenView {
        ScreenView { fed: seq![self.fed.flatten()], ..self }
    }
}

impl VirtualScreen {
    /// Calls `vt100::Parser::new` without scrollback. The new screen has the given size and has
    /// processed nothing.
    #[verifier::external_body]
    pub(crate) fn new(rows: u16, cols: u16) -> (screen: VirtualScreen)
        requires
            1 <= rows,
            1 <= cols,
        ensures
            made_for(screen) == (rows, cols),
            fed(screen) == Seq::<Seq<u8>>::empty(),
    {
        VirtualScreen { parser: vt100::Parser::new(rows, cols, 0) }
    }

    /// Calls `vt100::Parser::process`. The screen has then processed one piece more; its size
    /// stays, because nothing in the output resizes a parser without callbacks. Pieces are not
    /// joined: a character whose bytes are spread over two pieces can be rendered otherwise than
    /// in one. Sizes and output on which vt100 panics are left out: it panics on a character that
    /// is wider than the screen, where it wraps a line of a single row, and on a tab so far to
    /// the right that the next stop has no number.
    #[verifier::external_body]
    pub(crate) fn process(&mut self, bytes: &[u8])
        requires
            old(self)@.renders(bytes@),
        ensures
            made_for(*final(self)) == made_for(*old(self)),
            fed(*final(self)) == fed(*old(self)).push(bytes@),
    {
        self.parser.process(bytes)
    }

    /// Calls `vt100::Screen::size`, which gives the rows and columns that the parser was made
    /// for.
    #[verifier::external_body]
    pub(crate) fn size(&self) -> (size: (u16, u16))
        ensures
            size == made_for(*self),
    {
        self.parser.screen().size()
    }

    /// Calls `vt100::Screen::cursor_position`. The position depends on the size and on what was
    /// processed alone, and its row is one of the screen. Where no
    /// piece spoils the output, it is the same as if all had been processed at once: between two
    /// calls the parser keeps, besides the state that it has after every byte, only the start of
    /// a cut character, and it finishes that from the next piece.
    #[verifier::external_body]
    pub(crate) fn cursor_position(&self) -> (position: (u16, u16))
        ensures
            position == cursor_after(self@.rows, self@.cols, self@.fed),
            position.0 < self@.rows,
            joins(self@.fed) ==> position == cursor_after(
                self@.joined().rows,
                self@.joined().cols,
                self@.joined().fed,
            ),
    {
        self.parser.screen().cursor_position()
    }

    /// Calls `vt100::Screen::cell` and copies what it refers to. The cell depends on the size
    /// and on what was processed alone, and exists exactly inside the screen. Where no piece
    /// spoils the output, it is the same as if all had been processed at once.
    #[verifier::external_body]
    pub(crate) fn cell(&self, row: u16, col: u16) -> (cell: Option<Cell>)
        ensures
            cell_view(cell) == cell_after(self@.rows, self@.cols, self@.fed, row, col),
            cell.is_some() == (row < self@.rows && col < self@.cols),
            joins(self@.fed) ==> cell_view(cell) == cell_after(
                self@.joined().rows,
                self@.joined().cols,
                self@.joined().fed,
                row,
                col,
            ),
    {
        let color = |color| match color {
            vt100::Color::Default => Color::Default,
            vt100::Color::Idx(i) => Color::Idx(i),
            vt100::Color::Rgb(r, g, b) => Color::Rgb(r, g, b),
        };
        let cell = self.parser.screen().cell(row, col)?;
        let (fgcolor, bgcolor) = (color(cell.fgcolor()), color(cell.bgcolor()));
        let (bold, dim, italic) = (cell.bold(), cell.dim(), cell.italic());
        let (underline, inverse) = (cell.underline(), cell.inverse());
        let contents = cell.contents().to_string();
        Some(Cell { contents, fgcolor, bgcolor, bold, dim, italic, underline, inverse })
    }
}

/// All that is drawn of a virtual screen.
pub struct Snapshot {
    pub rows: u16,
    pub cols: u16,
    pub cursor_row: u16,
    pub cursor_col: u16,
    pub cells: Vec<Vec<Option<Cell>>>,
}

/// The value of a snapshot.
pub struct SnapshotView {
    pub rows: u16,
    pub cols: u16,
    pub cursor_row: u16,
    pub cursor_col: u16,
    pub cells: Seq<Seq<Option<CellView>>>,
}

/// The values of the cells of a row.
pub open spec fn row_view(row: Seq<Option<Cell>>) -> Seq<Option<CellView>> {
    row.map_values(|cell: Option<Cell>| cell_view(cell))
}

impl View for Snapshot {
    type V = SnapshotView;

    open spec fn view(&self) -> SnapshotView {
        SnapshotView {
            rows: self.rows,
            cols: self.cols,
            cursor_row: self.cursor_row,
            cursor_col: self.cursor_col,
            cells: self.cells@.map_values(|row: Vec<Option<Cell>>| row_view(row@)),
        }
    }
}

impl SnapshotView {
    /// There is a row of cells for each row of the screen, and a cell for each column.
    pub open spec fn wf(self) -> bool {
        &&& self.cells.len() == self.rows
        &&& forall|r: int| 0 <= r < self.rows ==> (#[trigger] self.cells[r]).len() == self.cols
    }
}

impl ScreenView {
    /// What vt100 shows in a row.
    pub open spec fn row_shown(self, r: int) -> Seq<Option<CellView>> {
        Seq::new(
            self.cols as nat,
            |c: int| cell_after(self.rows, self.cols, self.fed, r as u16, c as u16),
        )
    }

    /// What vt100 shows.
    pub open spec fn shown(self) -> SnapshotView {
        SnapshotView {
            rows: self.rows,
            cols: self.cols,
            cursor_row: cursor_after(self.rows, self.cols, self.fed).0,
            cursor_col: cursor_after(self.rows, self.cols, self.fed).1,
            cells: Seq::new(self.rows as nat, |r: int| self.row_shown(r)),
        }
    }
}

impl VirtualScreen {
    /// Reads the whole screen.
    pub fn snapshot(&self) -> (snapshot: Snapshot)
        ensures
            snapshot@ == self@.shown(),
            snapshot@.wf(),
            snapshot@.cursor_row < snapshot@.rows,
            joins(self@.fed) ==> snapshot@ == self@.joined().shown(),
            forall|r: int, c: int|
                0 <= r < snapshot@.rows && 0 <= c < snapshot@.cols
                    ==> #[trigger] snapshot@.cells[r][c] is Some,
    {
        let (rows, cols) = self.size();
        let (cursor_row, cursor_col) = self.cursor_position();
        let mut cells: Vec<Vec<Option<Cell>>> = Vec::new();
        let mut r: u16 = 0;
        while r < rows
            invariant
                r <= rows,
                rows == self@.rows,
                cols == self@.cols,
                cells@.len() == r,
                forall|k: int| 0 <= k < r ==> row_view((#[trigger] cells@[k])@) == self@.row_shown(k),
                forall|k: int, c: int|
                    0 <= k < r && 0 <= c < cols ==> #[trigger] self@.row_shown(k)[c] is Some,
                forall|k: int|
                    0 <= k < r && joins(self@.fed) ==> #[trigger] self@.row_shown(k)
                        == self@.joined().row_shown(k),
            decreases rows - r,
        {
            let mut row: Vec<Option<Cell>> = Vec::new();
            let mut c: u16 = 0;
            while c < cols
                invariant
                    r < rows,
                    c <= cols,
                    rows == self@.rows,
                    cols == self@.cols,
                    row@.len() == c,
                    forall|k: int|
                        0 <= k < c ==> cell_view(#[trigger] row@[k]) == self@.row_shown(r as int)[k]
                            && row@[k] is Some,
                    forall|k: int|
                        0 <= k < c && joins(self@.fed) ==> #[trigger] self@.row_shown(r as int)[k]
                            == self@.joined().row_shown(r as int)[k],
                decreases cols - c,
            {
                row.push(self.cell(r, c));
                c = c + 1;
            }
            assert(row_view(row@) =~= self@.row_shown(r as int));
            assert(joins(self@.fed) ==> self@.row_shown(r as int) =~= self@.joined().row_shown(
                r as int,
            ));
            cells.push(row);
            r = r + 1;
        }
        let snapshot = Snapshot { rows, cols, cursor_row, cursor_col, cells };
        assert(snapshot@.cells =~= self@.shown().cells);
        assert(joins(self@.fed) ==> snapshot@.cells =~= self@.joined().shown().cells);
        assert forall|r: int, c: int|
            0 <= r < snapshot@.rows && 0 <= c < snapshot@.cols
                implies #[trigger] snapshot@.cells[r][c] is Some by {
            assert(snapshot@.cells[r] == self@.row_shown(r));
        }
        snapshot
    }
}

impl SnapshotView {
    /// The row of the cursor alone.
    pub open spec fn cursor_line(self) -> SnapshotView {
        SnapshotView {
            rows: 1,
            cols: self.cols,
            cursor_row: 0,
            cursor_col: self.cursor_col,
            cells: seq![self.cells[self.cursor_row as int]],
        }
    }
}

impl Snapshot {
    /// The row of the cursor alone.
    pub fn into_cursor_line(self) -> (line: Snapshot)
        requires
            self@.wf(),
            self@.cursor_row < self@.rows,
        ensures
            line@ == self@.cursor_line(),
            line@.wf(),
    {
        assert(self@.cells[self.cursor_row as int] == row_view(
            self.cells@[self.cursor_row as int]@,
        ));
        let mut rows: Vec<Vec<Option<Cell>>> = self.cells;
        let row = rows.remove(self.cursor_row as usize);
        let cells: Vec<Vec<Option<Cell>>> = vec![row];
        let line = Snapshot {
            rows: 1,
            cols: self.cols,
            cursor_row: 0,
            cursor_col: self.cursor_col,
            cells,
        };
        assert(line@.cells =~= seq![row_view(row@)]);
        line
    }
}

/// Pieces of one or two bytes spoil nothing.
pub proof fn lemma_short_pieces_join(fed: Seq<Seq<u8>>)
    requires
        forall|i: int| 0 <= i < fed.len() ==> (#[trigger] fed[i]).len() < 3,
    ensures
        joins(fed),
    decreases fed.len(),
{
    if fed.len() > 0 {
        let rest = fed.drop_last();
        assert forall|i: int| 0 <= i < rest.len() implies (#[trigger] rest[i]).len() < 3 by {
            assert(rest[i] == fed[i]);
        }
        lemma_short_pieces_join(rest);
    }
}

/// One piece spoils nothing, and is the output.
pub proof fn lemma_one_piece(output: Seq<u8>)
    ensures
        joins(seq![output]),
        seq![output].flatten() == output,
{
    let fed = seq![output];
    fed.lemma_flatten_one_element();
    assert(fed.drop_last() =~= Seq::<Seq<u8>>::empty());
    assert(joins(Seq::<Seq<u8>>::empty()));
    assert(Seq::<Seq<u8>>::empty().flatten().len() == 0);
}

/// Another piece that spoils nothing.
pub proof fn lemma_joins_push(fed: Seq<Seq<u8>>, piece: Seq<u8>)
    ensures
        joins(fed.push(piece)) == (joins(fed) && !spoils(fed.flatten(), piece)),
        fed.push(piece).flatten() == fed.flatten() + piece,
{
    fed.lemma_flatten_push(piece);
    assert(fed.push(piece).drop_last() =~= fed);
}

/// Where vt100 fails on the start of some output, it fails on the output.
pub proof fn lemma_fails_on_more(rows: u16, cols: u16, output: Seq<u8>, n: int, i: int)
    requires
        0 <= i < n <= output.len(),
        fails_at(rows, cols, output.take(n), i),
    ensures
        fails_at(rows, cols, output, i),
{
    let start = output.take(n);
    assert(start.take(i) =~= output.take(i));
    assert(start.take(i + 1) =~= output.take(i + 1));
    assert(start[i] == output[i]);
    if has_char(start, i) {
        assert forall|k: int| i < k < i + char_len(output[i]) implies 0x80 <= #[trigger] output[k]
            <= 0xbf by {
            assert(start[k] == output[k]);
        }
        assert(char_at(start, i) =~= char_at(output, i));
    }
}

/// A size that is not delicate renders every output.
pub proof fn lemma_safe_never_fails(rows: u16, cols: u16, output: Seq<u8>)
    requires
        !delicate(rows, cols),
    ensures
        !fails(rows, cols, output),
{
}

/// The column of the cursor on a small screen after `output`.
fn probe(output: &[u8]) -> (col: u16)
    ensures
        col == column(PROBE_COLS, output@),
{
    let mut screen = VirtualScreen::new(MIN_ROWS, PROBE_COLS);
    screen.process(output);
    proof {
        assert(screen@.fed =~= seq![output@]);
        lemma_one_piece(output@);
    }
    screen.cursor_position().1
}

/// The same after another byte.
fn probe_after(output: &[u8], byte: u8) -> (col: u16)
    ensures
        col == column(PROBE_COLS, output@.push(byte)),
{
    let more: [u8; 1] = [byte];
    let mut screen = VirtualScreen::new(MIN_ROWS, PROBE_COLS);
    screen.process(output);
    screen.process(&more);
    proof {
        let first = seq![output@];
        assert(screen@.fed =~= first.push(more@));
        lemma_one_piece(output@);
        lemma_joins_push(first, more@);
        assert(output@ + more@ =~= output@.push(byte));
    }
    screen.cursor_position().1
}

/// How many bytes the UTF-8 encoding of a character has that begins with `lead`.
fn length_of(lead: u8) -> (len: usize)
    ensures
        len == char_len(lead),
        len <= 4,
{
    if lead < 0x80 {
        1
    } else if 0xc2 <= lead && lead <= 0xdf {
        2
    } else if 0xe0 <= lead && lead <= 0xef {
        3
    } else if 0xf0 <= lead && lead <= 0xf4 {
        4
    } else {
        0
    }
}

/// How many columns the character at `i` takes in text.
fn char_width(output: &[u8], i: usize) -> (width: u16)
    requires
        i < output@.len(),
    ensures
        width == width_at(output@, i as int),
        width <= 3,
{
    let len: usize = length_of(output[i]);
    if len == 0 || len > output.len() - i {
        return 0;
    }
    let end: usize = i + len;
    let mut k: usize = i + 1;
    while k < end
        invariant
            i < k <= end,
            end == i + len,
            end <= output@.len(),
            len == char_len(output@[i as int]),
            forall|j: int| i < j < k ==> 0x80 <= #[trigger] output@[j] <= 0xbf,
        decreases end - k,
    {
        if output[k] < 0x80 || output[k] > 0xbf {
            assert(!has_char(output@, i as int));
            return 0;
        }
        k = k + 1;
    }
    assert(has_char(output@, i as int));
    if output[i] < 0x80 {
        return if 0x20 <= output[i] && output[i] < 0x7f {
            1
        } else {
            0
        };
    }
    let bytes = vstd::slice::slice_subrange(output, i, end);
    assert(bytes@ =~= char_at(output@, i as int));
    if len == 3 && bytes[0] == 0xe1 && bytes[1] == 0x9f && bytes[2] == 0x98 {
        assert(bytes@ =~= widest());
        return 3;
    }
    proof {
        if bytes@ == widest() {
            assert(bytes@.len() == 3);
            assert(bytes@[0] == 0xe1 && bytes@[1] == 0x9f && bytes@[2] == 0x98);
        }
    }
    let col: u16 = probe(bytes);
    if col >= 2 {
        2
    } else {
        col
    }
}

/// Whether a screen of this size has no room for a character of `width` columns when the cursor is
/// in column `col`.
pub fn has_no_room(rows: u16, cols: u16, col: u16, width: u16) -> (result: bool)
    ensures
        result == no_room(rows, cols, col, width as int),
{
    width > 0 && (width > cols || (rows < MIN_ROWS && (col > cols || width > cols - col)))
}

/// Whether vt100 panics on a screen of this size before it has processed all the output. The
/// output is followed byte by byte on a screen of as many columns that has rows enough.
pub fn is_failing(rows: u16, cols: u16, output: &[u8]) -> (result: bool)
    requires
        1 <= rows,
        1 <= cols,
    ensures
        result == fails(rows, cols, output@),
{
    if MIN_ROWS <= rows && MIN_COLS <= cols && cols <= MAX_COLS {
        proof {
            lemma_safe_never_fails(rows, cols, output@);
        }
        return false;
    }
    let mut screen = VirtualScreen::new(MIN_ROWS, cols);
    let mut small = VirtualScreen::new(MIN_ROWS, PROBE_COLS);
    let mut escape: Option<usize> = None;
    let mut i: usize = 0;
    proof {
        lemma_short_pieces_join(screen@.fed);
        assert(output@.take(0) =~= screen@.fed.flatten());
        assert(output@.take(0) =~= small@.fed.flatten());
    }
    while i < output.len()
        invariant
            1 <= rows,
            1 <= cols,
            i <= output@.len(),
            screen@.rows == MIN_ROWS,
            screen@.cols == cols,
            screen@.fed.flatten() == output@.take(i as int),
            forall|k: int| 0 <= k < screen@.fed.len() ==> (#[trigger] screen@.fed[k]).len() < 3,
            small@.rows == MIN_ROWS,
            small@.cols == PROBE_COLS,
            small@.fed.flatten() == output@.take(i as int),
            forall|k: int| 0 <= k < small@.fed.len() ==> (#[trigger] small@.fed[k]).len() < 3,
            is_recent(output@, i as int, escape),
            forall|k: int| 0 <= k < i ==> !#[trigger] fails_at(rows, cols, output@, k),
        decreases output.len() - i,
    {
        let ghost before = output@.take(i as int);
        let ghost next = output@.take(i + 1);
        let piece = vstd::slice::slice_subrange(output, i, i + 1);
        proof {
            lemma_short_pieces_join(screen@.fed);
            lemma_short_pieces_join(small@.fed);
            lemma_joins_push(screen@.fed, piece@);
            lemma_joins_push(small@.fed, piece@);
            assert(before + piece@ =~= next);
            assert(next.drop_last() =~= before);
            assert(next.last() == output@[i as int]);
        }
        let col: u16 = screen.cursor_position().1;
        let small_col: u16 = small.cursor_position().1;
        small.process(piece);
        let moves = small.cursor_position().1 != small_col;
        if step_fails(rows, cols, output, i, col, moves, escape) {
            return true;
        }
        proof {
            assert(!fails(MIN_ROWS, cols, next)) by {
                if fails(MIN_ROWS, cols, next) {
                    let k = choose|k: int|
                        0 <= k < next.len() && #[trigger] fails_at(MIN_ROWS, cols, next, k);
                    lemma_fails_on_more(MIN_ROWS, cols, output@, i + 1, k);
                    assert(fails_at(rows, cols, output@, k));
                }
            }
        }
        screen.process(piece);
        if output[i] == ESCAPE {
            escape = Some(i);
            assert(output@.subrange(i as int, i + 1) =~= seq![ESCAPE]);
        } else if let Some(start) = escape {
            assert(output@.subrange(start as int, i + 1) =~= output@.subrange(
                start as int,
                i as int,
            ).push(output@[i as int]));
        }
        i = i + 1;
    }
    false
}

/// The last escape in the first `i` bytes of the output is at `escape`.
spec fn is_recent(output: Seq<u8>, i: int, escape: Option<usize>) -> bool {
    match escape {
        Some(start) => start < i && since_escape(output.take(i)) == output.subrange(
            start as int,
            i,
        ),
        None => since_escape(output.take(i)).len() == 0,
    }
}

/// Whether vt100 panics at byte `i` of the output, when the cursor is in column `col` there. `moves`
/// says whether the byte moves the cursor of a small screen.
fn step_fails(
    rows: u16,
    cols: u16,
    output: &[u8],
    i: usize,
    col: u16,
    moves: bool,
    escape: Option<usize>,
) -> (result: bool)
    requires
        i < output@.len(),
        col == column(cols, output@.take(i as int)),
        moves == (column(PROBE_COLS, output@.take(i as int)) != column(
            PROBE_COLS,
            output@.take(i + 1),
        )),
        is_recent(output@, i as int, escape),
    ensures
        result == fails_at(rows, cols, output@, i as int),
{
    let start: usize = match escape {
        Some(start) => start,
        None => i,
    };
    let recent = vstd::slice::slice_subrange(output, start, i);
    assert(recent@ =~= since_escape(output@.take(i as int)));
    if cols > MAX_COLS && output[i] == TAB && col > MAX_COLS {
        return probe_after(recent, TAB) != probe_after(recent, RETURN);
    }
    if has_no_room(rows, cols, col, MIN_COLS) && (output[i] >= 0x80 || moves) {
        let width: u16 = char_width(output, i);
        has_no_room(rows, cols, col, width) && probe_after(recent, LETTER) != probe(recent)
    } else {
        false
    }
}

} // verus!
