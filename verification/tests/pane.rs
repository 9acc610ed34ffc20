use mmux::action::Action;
use mmux::pane::{inner_size, Pane, KEPT_OUTPUT, MAX_OUTPUT};
use mmux::vt::{Color, Snapshot};

fn pane(width: usize, height: usize) -> Pane {
    Pane::new(3, 0, 0, width, height, 7, 99)
}

fn row(shown: &Snapshot, r: usize) -> String {
    shown.cells[r]
        .iter()
        .map(|cell| match cell {
            Some(cell) if !cell.contents.is_empty() => cell.contents.clone(),
            _ => String::from(" "),
        })
        .collect()
}

fn asked(actions: &Vec<Action>) -> String {
    format!("{:?}", actions)
}

#[test]
fn inner_size_leaves_room_for_the_border() {
    assert_eq!(inner_size(80), 78);
    assert_eq!(inner_size(3), 1);
    assert_eq!(inner_size(2), 1);
    assert_eq!(inner_size(0), 1);
    assert_eq!(inner_size(65537), 65535);
    assert_eq!(inner_size(65538), 65535);
}

#[test]
fn a_new_pane_is_empty() {
    let pane = pane(12, 6);
    assert_eq!((pane.id, pane.terminal, pane.pid), (3, 7, 99));
    assert_eq!((pane.rows(), pane.cols()), (4, 10));
    let shown = pane.snapshot();
    assert_eq!((shown.rows, shown.cols), (4, 10));
    assert_eq!((shown.cursor_row, shown.cursor_col), (0, 0));
    assert_eq!(row(&shown, 0), "          ");
    assert!(pane.output.is_empty());
}

#[test]
fn output_is_shown() {
    let mut pane = pane(12, 6);
    pane.feed_data(b"hello\r\nab");
    let shown = pane.snapshot();
    assert_eq!(row(&shown, 0), "hello     ");
    assert_eq!(row(&shown, 1), "ab        ");
    assert_eq!((shown.cursor_row, shown.cursor_col), (1, 2));
    assert_eq!(pane.output, b"hello\r\nab");
}

#[test]
fn colours_and_attributes_are_shown() {
    let mut pane = pane(12, 6);
    pane.feed_data(b"\x1b[31;1ma\x1b[0;38;2;1;2;3;4mb\x1b[0;3;7mc\x1b[0;2;42md\x1b[0me");
    let shown = pane.snapshot();
    let cell = |c: usize| match &shown.cells[0][c] {
        Some(cell) => cell,
        None => panic!("the cell is on the screen"),
    };
    assert_eq!(cell(0).contents, "a");
    assert_eq!(cell(0).fgcolor, Color::Idx(1));
    assert!(cell(0).bold);
    assert_eq!(cell(1).fgcolor, Color::Rgb(1, 2, 3));
    assert!(cell(1).underline && !cell(1).bold);
    assert!(cell(2).italic && cell(2).inverse);
    assert_eq!(cell(3).bgcolor, Color::Idx(2));
    assert!(cell(3).dim);
    assert_eq!(cell(4).fgcolor, Color::Default);
    assert_eq!(cell(4).bgcolor, Color::Default);
    assert!(!cell(4).dim && !cell(4).italic && !cell(4).inverse && !cell(4).underline);
    assert_eq!(cell(5).contents, "");
}

#[test]
fn another_size_rebuilds_the_screen() {
    let mut pane = pane(12, 6);
    pane.feed_data(b"abcdefghij");
    let actions = pane.resize(5, 4, 8, 5);
    assert_eq!(asked(&actions), "[Resize { terminal: 7, rows: 3, cols: 6 }]");
    assert_eq!((pane.x, pane.y, pane.width, pane.height), (5, 4, 8, 5));
    let shown = pane.snapshot();
    assert_eq!((shown.rows, shown.cols), (3, 6));
    assert_eq!(row(&shown, 0), "abcdef");
    assert_eq!(row(&shown, 1), "ghij  ");
    assert_eq!(pane.output, b"abcdefghij");
}

#[test]
fn a_move_alone_tells_the_terminal_nothing() {
    let mut pane = pane(12, 6);
    pane.feed_data(b"abc");
    let actions = pane.resize(5, 4, 12, 6);
    assert!(actions.is_empty());
    assert_eq!(row(&pane.snapshot(), 0), "abc       ");
}

#[test]
fn sizes_that_leave_the_same_room_are_no_change() {
    let mut pane = pane(2, 2);
    assert!(pane.resize(0, 0, 3, 3).is_empty());
    assert!(pane.resize(0, 0, 0, 0).is_empty());
    assert_eq!(pane.resize(0, 0, 4, 3).len(), 1);
}

#[test]
fn the_way_to_a_size_does_not_matter() {
    let mut a = pane(12, 6);
    let mut b = pane(12, 6);
    a.feed_data(b"some text that wraps");
    b.feed_data(b"some text that wraps");
    a.resize(0, 0, 9, 7);
    b.resize(0, 0, 30, 4);
    b.resize(0, 0, 9, 7);
    for r in 0..5 {
        assert_eq!(row(&a.snapshot(), r), row(&b.snapshot(), r));
    }
}

#[test]
fn output_is_cut_to_its_end() {
    let mut pane = pane(12, 6);
    let first = vec![b'x'; MAX_OUTPUT];
    pane.feed_data(&first);
    assert_eq!(pane.output.len(), MAX_OUTPUT);
    pane.feed_data(b"\r\nend");
    assert_eq!(pane.output.len(), KEPT_OUTPUT);
    assert!(pane.output.ends_with(b"xx\r\nend"));
    let shown = pane.snapshot();
    assert_eq!(row(&shown, shown.cursor_row as usize), "end       ");
}

#[test]
fn terminals_are_exchanged() {
    let mut a = Pane::new(1, 0, 0, 12, 6, 10, 100);
    let mut b = Pane::new(2, 12, 0, 8, 5, 20, 200);
    a.feed_data(b"first");
    b.feed_data(b"second");
    let actions = a.swap_terminal_state(&mut b);
    assert_eq!(
        asked(&actions),
        "[Resize { terminal: 20, rows: 4, cols: 10 }, Resize { terminal: 10, rows: 3, cols: 6 }]"
    );
    assert_eq!((a.id, a.terminal, a.pid, a.x), (1, 20, 200, 0));
    assert_eq!((b.id, b.terminal, b.pid, b.x), (2, 10, 100, 12));
    assert_eq!(row(&a.snapshot(), 0), "second    ");
    assert_eq!(row(&b.snapshot(), 0), "first ");
    a.swap_terminal_state(&mut b);
    assert_eq!((a.terminal, a.pid, a.output), (10, 100, b"first".to_vec()));
    assert_eq!((b.terminal, b.pid, b.output), (20, 200, b"second".to_vec()));
}

#[test]
fn a_narrow_pane_wraps_at_its_width() {
    let mut pane = pane(4, 4);
    pane.feed_data(b"abcd");
    let shown = pane.snapshot();
    assert_eq!((shown.rows, shown.cols), (2, 2));
    assert_eq!((row(&shown, 0), row(&shown, 1)), (String::from("ab"), String::from("cd")));
    pane.feed_data("é\u{300}".as_bytes());
    assert_eq!(pane.snapshot().cols, 2);
}

/// The size of the virtual screen of a pane.
fn size(pane: &Pane) -> (u16, u16) {
    let shown = pane.screen.snapshot();
    (shown.rows, shown.cols)
}

#[test]
fn two_columns_hold_every_character_but_one() {
    let mut pane = pane(4, 6);
    pane.feed_data("─a漢😀".as_bytes());
    assert_eq!(size(&pane), (4, 2));
    let shown = pane.snapshot();
    assert_eq!(row(&shown, 0), "─a");
    assert_eq!(row(&shown, 1), "漢 ");
    assert_eq!(row(&shown, 2), "😀 ");
    // A Georgian letter, a Hangul letter and a title with the widest character.
    pane.feed_data("\u{10d0}\u{1100}\x1b]0;\u{17d8}\x07".as_bytes());
    assert_eq!(size(&pane), (4, 2));
    pane.feed_data("\u{17d8}".as_bytes());
    assert_eq!(size(&pane), (4, 3));
    assert_eq!((pane.rows(), pane.cols()), (4, 2));
}

#[test]
fn one_column_holds_narrow_characters() {
    let mut pane = pane(3, 6);
    pane.feed_data("a─\u{e0b0}".as_bytes());
    assert_eq!(size(&pane), (4, 1));
    let shown = pane.snapshot();
    assert_eq!((row(&shown, 0), row(&shown, 1)), (String::from("a"), String::from("─")));
    pane.feed_data("\u{10d0}\u{feff}ﾊ\x1b]0;漢\x07\x1b[漢m".as_bytes());
    assert_eq!(size(&pane), (4, 1));
    pane.feed_data("漢".as_bytes());
    assert_eq!(size(&pane), (4, 3));
    assert_eq!((pane.rows(), pane.cols()), (4, 1));
}

#[test]
fn a_character_can_come_in_pieces() {
    let mut pane = pane(3, 6);
    pane.feed_data(b"\xe2");
    pane.feed_data(b"\x94");
    assert_eq!(size(&pane), (4, 1));
    pane.feed_data(b"\x80");
    assert_eq!(row(&pane.snapshot(), 0), "─");
    pane.feed_data(b"\xe2");
    pane.feed_data(b"\x8c");
    assert_eq!(size(&pane), (4, 1));
    pane.feed_data(b"\x9a");
    assert_eq!(size(&pane), (4, 3));
}

#[test]
fn a_pane_of_one_row_is_a_screen_of_one_row() {
    let mut pane = pane(12, 3);
    assert_eq!(size(&pane), (1, 10));
    pane.feed_data(b"first\r\nsecond\r\n0123456789");
    assert_eq!(size(&pane), (1, 10));
    let shown = pane.snapshot();
    assert_eq!(row(&shown, 0), "0123456789");
    assert_eq!((shown.cursor_row, shown.cursor_col), (0, 10));
    pane.feed_data("\x08\x08xy\n\x08z\u{301}\u{200b}".as_bytes());
    assert_eq!(size(&pane), (1, 10));
    assert_eq!(row(&pane.snapshot(), 0), "         z\u{301}\u{200b}");
    pane.feed_data(b"!");
    assert_eq!(size(&pane), (2, 10));
}

#[test]
fn a_tab_fits_one_row() {
    let mut one = pane(80, 3);
    one.feed_data(b"\t");
    assert_eq!((size(&one), one.snapshot().cursor_col), ((1, 78), 8));
    let mut moved = pane(80, 24);
    moved.feed_data(b"\t");
    moved.resize(0, 0, 80, 3);
    assert_eq!(size(&moved), (1, 78));
    let mut other = pane(80, 3);
    moved.swap_terminal_state(&mut other);
    assert_eq!((size(&moved), size(&other)), ((1, 78), (1, 78)));
}

#[test]
fn positions_on_one_row() {
    let mut pane = pane(12, 3);
    pane.feed_data(b"abc\r\ndef");
    assert_eq!(row(&pane.snapshot(), 0), "def       ");
    pane.feed_data(b"\x1b[1;1H");
    assert_eq!(size(&pane), (1, 10));
    assert_eq!(row(&pane.snapshot(), 0), "def       ");
    pane.feed_data(b"\x1b[1H\x1b[4C+\x1b[7G*\x1b[9;8HX\x1b7\x1b[2;2H\x1b8Y\t.");
    assert_eq!(size(&pane), (1, 10));
    assert_eq!(row(&pane.snapshot(), 0), "def + *XY.");
}

#[test]
fn escape_sequences_on_one_row() {
    let mut pane = pane(12, 3);
    pane.feed_data(b"a\r\n\x1b[H");
    assert_eq!(row(&pane.snapshot(), 0), "          ");
    pane.feed_data(b"\x1b]0;a title\x07\x1b[?2004h\x1b[1;32m01234\x1b[0m\x1b[K6789\x1b[2D!");
    assert_eq!(size(&pane), (1, 10));
    let shown = pane.snapshot();
    assert_eq!(row(&shown, 0), "0123467!9 ");
    assert!(matches!(&shown.cells[0][4], Some(cell) if cell.bold && cell.fgcolor == Color::Idx(2)));
    // At the end of the line, nothing but text wraps.
    pane.feed_data(b"xy\x1b[1;31;4m\x1b[?25");
    pane.feed_data(b"l\x1b]2;a very long title\x07\x1bP1;2qstring\x1b\\\x1b(B\x1b=\x1b[A\x1b[B\x1b[K");
    assert_eq!(size(&pane), (1, 10));
    // The alternate screen has a line of its own.
    pane.feed_data(b"\x1b[?1049h0123456789\x1b[?1049l\x1b[Ddone");
    assert_eq!(size(&pane), (2, 10));
    let mut other = Pane::new(0, 0, 0, 12, 3, 0, 0);
    other.feed_data("\x1b[?1049h\x1b[H漢字漢字x─\x1b[?1049l\x1bMok".as_bytes());
    assert_eq!(size(&other), (1, 10));
    assert_eq!(row(&other.snapshot(), 0), "ok        ");
}

#[test]
fn wide_characters_on_one_row() {
    let mut pane = pane(12, 3);
    pane.feed_data("漢字漢字漢".as_bytes());
    assert_eq!(size(&pane), (1, 10));
    pane.feed_data("\r1234567漢".as_bytes());
    assert_eq!(size(&pane), (1, 10));
    // The widest character takes two cells, and wants three columns.
    pane.feed_data("\x1b[8G\u{17d8}".as_bytes());
    assert_eq!(size(&pane), (1, 10));
    let mut other = Pane::new(0, 0, 0, 12, 3, 0, 0);
    other.feed_data("\x1b[9G\u{17d8}".as_bytes());
    assert_eq!(size(&other), (2, 10));
    pane.feed_data("\x1b[10G漢".as_bytes());
    assert_eq!(size(&pane), (2, 10));
}

#[test]
fn a_pane_of_one_row_that_wraps_shows_the_row_of_the_cursor() {
    let mut pane = pane(12, 3);
    pane.feed_data(b"first\r\nsecond");
    assert_eq!(size(&pane), (1, 10));
    pane.feed_data(b" wraps here");
    assert_eq!(size(&pane), (2, 10));
    let shown = pane.snapshot();
    assert_eq!((shown.rows, shown.cells.len(), shown.cursor_row), (1, 1, 0));
    assert_eq!(row(&shown, 0), "ps here   ");
    assert_eq!(pane.rows(), 1);
}

#[test]
fn a_pane_of_one_row_is_ready_for_moves_to_the_right() {
    for moves in ["\x1b[99C", "\x1b[99G", "\x1b[1;99H", "\t\t", "\x1b[5C\x1b7\x1b8", "\x1b[?47h"] {
        let mut pane = pane(12, 3);
        pane.feed_data(moves.as_bytes());
        assert_eq!(size(&pane), (1, 10));
        pane.feed_data(b"wrapped text");
        assert_eq!(size(&pane), (2, 10));
    }
}

#[test]
fn only_a_tab_at_the_end_cuts_a_very_wide_screen() {
    let mut pane = pane(65535, 4);
    pane.feed_data(b"wide\t");
    assert_eq!((size(&pane), pane.snapshot().cursor_col), ((2, 65533), 8));
    pane.feed_data(b"\x1b[65528G\t");
    assert_eq!((size(&pane), pane.snapshot().cursor_col), ((2, 65533), 65528));
    pane.feed_data(b"\x1b]0;a\ttitle\x07");
    assert_eq!(size(&pane), (2, 65533));
    pane.feed_data(b"\t");
    assert_eq!((pane.cols(), size(&pane)), (65533, (2, 65527)));
}

#[test]
fn a_cut_character_on_a_small_screen_is_made_whole() {
    let mut pane = pane(12, 3);
    pane.feed_data(b"x\xc3");
    pane.feed_data(b"\xa9b\xe2\x94\x80");
    assert_eq!(size(&pane), (1, 10));
    assert_eq!(row(&pane.snapshot(), 0), "xéb─      ");
}

#[test]
fn pieces_of_whole_characters_show_the_same_as_one() {
    let text = "héllo \x1b[31mwörld\x1b[0m ─│ 漢字\r\n\x1b[1mbold";
    let mut whole = pane(20, 8);
    whole.feed_data(text.as_bytes());
    let mut pieces = pane(20, 8);
    for c in text.chars() {
        pieces.feed_data(String::from(c).as_bytes());
    }
    assert_eq!(whole.output, pieces.output);
    let (a, b) = (whole.snapshot(), pieces.snapshot());
    assert_eq!((a.cursor_row, a.cursor_col), (b.cursor_row, b.cursor_col));
    assert_eq!(format!("{:?}", a.cells), format!("{:?}", b.cells));
    // And the same again after the screen has been made anew.
    pieces.rebuild_screen();
    assert_eq!(format!("{:?}", a.cells), format!("{:?}", pieces.snapshot().cells));
}

#[test]
fn tiny_panes_render_everything() {
    for (width, height) in [(0, 0), (2, 2), (3, 3), (4, 3), (4, 4), (5, 4), (12, 3)] {
        let mut pane = pane(width, height);
        pane.feed_data("a long line that wraps 漢字 \u{17d8}\r\n\tand more\r\n".as_bytes());
        pane.feed_data(b"\x1b[5;5H\x1b[3Pa\x1b[2@b\x1b[1;1r\x1b[9L\x1bMc\x1b[2T\x1b[3Sd");
        assert_eq!(pane.snapshot().cells.len(), pane.snapshot().rows as usize);
    }
}

#[test]
fn two_columns_render_wide_characters_everywhere() {
    let mut pane = pane(4, 5);
    for _ in 0..3 {
        pane.feed_data("漢\u{300}字a漢\x08\x1b[@\x1b[2@b\x1b[P漢\x1b[1K\x1b[X\x1b[G\x1b[Pc".as_bytes());
        pane.feed_data("\x1b[2G漢\x1b[2Gx\x1b[1G漢\x1b[2G\x1b[5@\x1b[1G\x1b[9P漢字漢字".as_bytes());
    }
    assert_eq!(pane.snapshot().cols, 2);
}

/// Feeds characters to a pane of one column.
fn in_one_column(first: u32, last: u32) {
    let mut pane = pane(3, 6);
    let text: String = (first..=last).filter_map(char::from_u32).collect();
    pane.feed_data(text.as_bytes());
    assert_eq!(size(&pane), (4, 1));
}

#[test]
fn every_character_before_the_wide_ones_fits_one_column() {
    in_one_column(0x20, 0x10ff);
    let mut pane = pane(3, 6);
    pane.feed_data(b"\x80\xbf\xc3\xe0\xa0 \xe0");
    pane.feed_data(b"\x80\x80z");
    assert_eq!(size(&pane), (4, 1));
}

#[test]
fn every_symbol_of_one_column_fits_one_column() {
    in_one_column(0x2000, 0x22ff);
    in_one_column(0x2400, 0x257f);
    in_one_column(0x2800, 0x28ff);
    in_one_column(0xe000, 0xefff);
}

#[test]
fn a_long_output_on_one_row_is_followed_quickly() {
    let mut pane = pane(12, 3);
    let mut text = Vec::new();
    while text.len() < 300_000 {
        text.extend_from_slice(b"012345678\x1b[1;31m\x1b[K\x1b[5Dxy\x1b[99C\x1b[m\r\n");
    }
    pane.feed_data(&text);
    pane.feed_data(b"end");
    assert_eq!(size(&pane), (1, 10));
    assert_eq!(row(&pane.snapshot(), 0), "end       ");
}

#[test]
fn random_output_never_fails() {
    let words = [
        "a", "bc", "漢", "\u{17d8}", "é", "─", "\u{301}", "\t", "\r", "\n", "\x08", "\x1b[C",
        "\x1b[9G", "\x1b[2;3H", "\x1b7", "\x1b8", "\x1b[?1049h", "\x1b[?1049l", "\x1bM", "\x1bc",
        "\x1b[@", "\x1b[P", "\x1b[X", "\x1b[K", "\x1b[1J", "\x1b[L", "\x1b[M", "\x1b[S", "\x1b[T",
        "\x1b]0;t\x07", "\x1bPq", "\x1b\\", "\x1b[", "\x1b", "\x1b[?6h", "\x1b[1;2r", "\x18",
    ];
    let mut seed: u32 = 12345;
    let mut exact = 0;
    for round in 0..600 {
        let (width, height) = [(3, 3), (4, 3), (5, 3), (7, 3), (3, 5), (4, 5), (9, 4)][round % 7];
        let mut pane = pane(width, height);
        for _ in 0..12 {
            seed = seed.wrapping_mul(1664525).wrapping_add(1013904223);
            let word = words[(seed >> 16) as usize % words.len()].as_bytes();
            let (first, second) = word.split_at((seed >> 8) as usize % (word.len() + 1));
            pane.feed_data(first);
            pane.feed_data(second);
        }
        if size(&pane) == (pane.rows(), pane.cols()) {
            exact += 1;
            let mut parser = vt100::Parser::new(pane.rows(), pane.cols(), 0);
            parser.process(&pane.output);
            let shown = pane.snapshot();
            let cursor = (shown.cursor_row, shown.cursor_col);
            assert_eq!(cursor, parser.screen().cursor_position());
            for r in 0..shown.rows {
                for c in 0..shown.cols {
                    let cell = parser.screen().cell(r, c).map(|cell| cell.contents().to_string());
                    let own = &shown.cells[r as usize][c as usize];
                    assert_eq!(cell, own.as_ref().map(|cell| cell.contents.clone()));
                }
            }
        }
    }
    assert!(exact > 200);
}
