use mmux::geometry::Rect;
use mmux::paint::{
    draw_cursor, draw_footer, draw_pane, draw_row, to_ct_color, Attr, Frame, Op, Paint,
};
use mmux::pane::Pane;
use mmux::vt::{Cell, Color};

fn frame(active: bool) -> Frame {
    Frame {
        active,
        broadcast: false,
        zoomed: false,
        screen_width: 80,
        screen_height: 24,
        bottom: 2,
    }
}

fn cell(contents: &str) -> Cell {
    Cell {
        contents: String::from(contents),
        fgcolor: Color::Default,
        bgcolor: Color::Default,
        bold: false,
        dim: false,
        italic: false,
        underline: false,
        inverse: false,
    }
}

fn listed(ops: &Vec<Op>) -> Vec<String> {
    ops.iter().map(|op| format!("{:?}", op)).collect()
}

/// A grid of what is on the outer terminal after the commands.
fn screen(ops: &Vec<Op>, width: usize, height: usize) -> Vec<String> {
    let mut grid = vec![vec!['.'; width]; height];
    let (mut x, mut y) = (0, 0);
    for op in ops {
        match op {
            Op::MoveTo(col, row) => {
                x = *col as usize;
                y = *row as usize;
            }
            Op::Print(text) => {
                for c in text.chars() {
                    grid[y][x] = c;
                    x += 1;
                }
            }
            _ => {}
        }
    }
    grid.into_iter().map(|row| row.into_iter().collect()).collect()
}

fn drawn(width: usize, height: usize, frame: Frame, pid: u32, output: &[u8]) -> Vec<Op> {
    let mut pane = Pane::new(0, 0, 0, width, height, 0, pid);
    pane.feed_data(output);
    let mut out = Vec::new();
    let rect = Rect { x: 0, y: 0, width, height };
    draw_pane(&mut out, rect, frame, pid, &pane.snapshot());
    out
}

#[test]
fn colours_are_mapped() {
    assert_eq!(to_ct_color(Color::Default), Paint::Reset);
    assert_eq!(to_ct_color(Color::Idx(7)), Paint::Ansi(7));
    assert_eq!(to_ct_color(Color::Rgb(1, 2, 3)), Paint::Rgb(1, 2, 3));
}

#[test]
fn a_pane_has_a_border() {
    let out = drawn(6, 4, frame(false), 1, b"ab\r\ncd");
    assert_eq!(
        screen(&out, 8, 5),
        vec!["┌────┐..", "│ab  │..", "│cd  │..", "└────┘..", "........"]
    );
    let list = listed(&out);
    assert_eq!(list[0], "Foreground(White)");
    assert_eq!(list[1], "Attribute(NormalIntensity)");
    assert_eq!(
        list[list.len() - 3..],
        ["Attribute(Reset)", "Background(Reset)", "Foreground(Reset)"]
    );
}

#[test]
fn an_active_pane_has_a_title() {
    let out = drawn(40, 4, frame(true), 123, b"");
    assert_eq!(screen(&out, 40, 4)[0], "┌────── [ PID: 123 ]  [ ACTIVE ] ──────┐");
    assert_eq!(listed(&out)[0], "Foreground(Yellow)");
    assert_eq!(listed(&out)[1], "Attribute(Bold)");
}

#[test]
fn the_title_is_short_where_there_is_little_room() {
    let long = " [ PID: 123 ]  [ ACTIVE ] ".chars().count();
    let out = drawn(long + 6, 4, frame(true), 123, b"");
    assert_eq!(screen(&out, 32, 4)[0], "┌────── [ PID: 123 ] [*] ──────┐");
    let out = drawn(long + 7, 4, frame(true), 123, b"");
    assert_eq!(screen(&out, 33, 4)[0], "┌── [ PID: 123 ]  [ ACTIVE ] ───┐");
    let out = drawn(10, 4, frame(true), 123, b"");
    assert_eq!(screen(&out, 10, 4)[0], "┌────────┐");
}

#[test]
fn the_title_shows_zoom_and_broadcast() {
    let both = Frame { zoomed: true, broadcast: true, ..frame(true) };
    let out = drawn(60, 4, both, 5, b"");
    assert_eq!(
        screen(&out, 60, 4)[0],
        "┌───────── [ ZOOMED ]  [ PID: 5 ]  [ BROADCAST ] ──────────┐"
    );
}

#[test]
fn a_pane_is_cut_at_the_end_of_the_screen() {
    let small = Frame { screen_width: 5, screen_height: 5, bottom: 2, ..frame(false) };
    let out = drawn(8, 6, small, 1, b"abcdef\r\nghi\r\njkl");
    assert_eq!(screen(&out, 8, 6), vec![
        "┌────...", "│abcd...", "│ghi ...", "........", "........", "........",
    ]);
}

#[test]
fn attributes_are_set_only_when_they_change() {
    let row = vec![
        Some(Cell { bold: true, fgcolor: Color::Idx(1), ..cell("a") }),
        Some(Cell { bold: true, fgcolor: Color::Idx(1), ..cell("b") }),
        Some(cell("c")),
    ];
    let mut out = Vec::new();
    draw_row(&mut out, &row, None, 3);
    assert_eq!(
        listed(&out),
        [
            "Foreground(Ansi(1))",
            "Background(Reset)",
            "Attribute(Bold)",
            "Print(\"a\")",
            "Print(\"b\")",
            "Attribute(Reset)",
            "Foreground(Reset)",
            "Background(Reset)",
            "Print(\"c\")",
        ]
    );
}

#[test]
fn every_attribute_is_set() {
    let row = vec![Some(Cell {
        bold: true,
        dim: true,
        italic: true,
        underline: true,
        inverse: true,
        bgcolor: Color::Rgb(9, 8, 7),
        ..cell("")
    })];
    let mut out = Vec::new();
    draw_row(&mut out, &row, None, 1);
    assert_eq!(
        listed(&out),
        [
            "Foreground(Reset)",
            "Background(Rgb(9, 8, 7))",
            "Attribute(Bold)",
            "Attribute(Underlined)",
            "Attribute(Reverse)",
            "Attribute(Italic)",
            "Attribute(Dim)",
            "Print(\" \")",
        ]
    );
}

#[test]
fn a_missing_cell_is_blank() {
    let row = vec![Some(Cell { bold: true, ..cell("a") }), None, None];
    let mut out = Vec::new();
    draw_row(&mut out, &row, None, 3);
    assert_eq!(
        listed(&out)[4..],
        [
            "Attribute(Reset)",
            "Foreground(Reset)",
            "Background(Reset)",
            "Print(\" \")",
            "Print(\" \")",
        ]
    );
    let mut out = Vec::new();
    draw_row(&mut out, &vec![None], Some(0), 1);
    assert_eq!(listed(&out), ["Attribute(Reverse)", "Print(\" \")"]);
}

#[test]
fn the_cursor_is_marked_when_input_is_broadcast() {
    let row = vec![Some(cell("a")), Some(cell("b")), Some(cell("c"))];
    let mut out = Vec::new();
    draw_row(&mut out, &row, Some(1), 3);
    assert_eq!(
        listed(&out),
        [
            "Foreground(Reset)",
            "Background(Reset)",
            "Print(\"a\")",
            "Attribute(Reverse)",
            "Print(\"b\")",
            "Attribute(Reset)",
            "Foreground(Reset)",
            "Background(Reset)",
            "Print(\"c\")",
        ]
    );
    let out = drawn(6, 4, Frame { broadcast: true, ..frame(true) }, 1, b"ab");
    assert!(listed(&out).contains(&String::from("Attribute(Reverse)")));
}

#[test]
fn the_footer_fills_two_lines() {
    let mut out = Vec::new();
    draw_footer(&mut out, false, &None, 90, 24);
    assert_eq!(listed(&out)[0], "Attribute(Reverse)");
    assert_eq!(listed(&out)[1], "MoveTo(0, 22)");
    assert_eq!(listed(&out)[3], "MoveTo(0, 23)");
    assert_eq!(listed(&out)[5], "Attribute(Reset)");
    match (&out[2], &out[4]) {
        (Op::Print(first), Op::Print(second)) => {
            assert_eq!(
                first,
                " [Ctrl+V]:Split V | [Ctrl+H]:Split H | [Ctrl+Space]:Maximize | [Ctrl+B]:Broadcast         "
            );
            assert!(second.starts_with(" [Ctrl+Shift+Arrows]:Resize | [Alt+Shift+Arrows]:Swap "));
            assert_eq!(first.chars().count(), 90);
            assert_eq!(second.chars().count(), 90);
        }
        _ => panic!("the footer has two lines"),
    }
}

#[test]
fn the_footer_shows_the_last_key() {
    let mut out = Vec::new();
    draw_footer(&mut out, true, &Some(String::from("K")), 30, 24);
    match &out[2] {
        Op::Print(first) => assert_eq!(first, " [ BROADCAST MODE ACT  [key:K]"),
        _ => panic!("the footer has a first line"),
    }
    let mut out = Vec::new();
    draw_footer(&mut out, false, &Some(String::from("LONG")), 6, 1);
    match &out[2] {
        Op::Print(first) => assert_eq!(first, "  [key"),
        _ => panic!("the footer has a first line"),
    }
    assert_eq!(listed(&out)[1], "MoveTo(0, 0)");
    assert_eq!(listed(&out)[3], "MoveTo(0, 0)");
}

#[test]
fn the_cursor_is_put_or_hidden() {
    let mut pane = Pane::new(0, 10, 5, 12, 6, 0, 0);
    pane.feed_data(b"ab\r\nc");
    let rect = Rect { x: 10, y: 5, width: 12, height: 6 };
    let mut out = Vec::new();
    draw_cursor(&mut out, rect, frame(true), &pane.snapshot());
    assert_eq!(listed(&out), ["MoveTo(12, 7)", "ShowCursor"]);
    // After the last column the cursor waits outside.
    pane.feed_data(b"\r\n0123456789");
    let mut out = Vec::new();
    draw_cursor(&mut out, rect, frame(true), &pane.snapshot());
    assert_eq!(listed(&out), ["HideCursor"]);
    let small = Frame { screen_height: 9, ..frame(true) };
    pane.feed_data(b"\r");
    let mut out = Vec::new();
    draw_cursor(&mut out, rect, small, &pane.snapshot());
    assert_eq!(listed(&out), ["HideCursor"]);
}

#[test]
fn every_cell_gets_its_own_look() {
    let mut row = Vec::new();
    for i in 0..64u8 {
        row.push(Some(Cell {
            bold: i % 2 == 1,
            dim: i % 3 == 1,
            italic: i % 5 < 2,
            underline: i / 8 % 2 == 1,
            inverse: i / 16 % 2 == 1,
            fgcolor: if i % 4 == 0 { Color::Default } else { Color::Idx(i / 4) },
            bgcolor: if i % 7 == 0 { Color::Rgb(i, 0, 0) } else { Color::Default },
            ..cell("x")
        }));
    }
    let mut out = Vec::new();
    draw_row(&mut out, &row, Some(40), 64);
    let (mut fg, mut bg) = (Paint::Yellow, Paint::Reset);
    let mut set: Vec<Attr> = Vec::new();
    let mut shown = 0;
    for op in &out {
        match op {
            Op::Foreground(paint) => fg = *paint,
            Op::Background(paint) => bg = *paint,
            Op::Attribute(Attr::Reset) => {
                set.clear();
                fg = Paint::Reset;
                bg = Paint::Reset;
            }
            Op::Attribute(attr) => set.push(*attr),
            Op::Print(text) => {
                let cell = match &row[shown] {
                    Some(cell) => cell,
                    None => panic!("every cell is there"),
                };
                assert_eq!(text, "x");
                assert_eq!((fg, bg), (to_ct_color(cell.fgcolor), to_ct_color(cell.bgcolor)));
                assert_eq!(set.contains(&Attr::Bold), cell.bold);
                assert_eq!(set.contains(&Attr::Dim), cell.dim);
                assert_eq!(set.contains(&Attr::Italic), cell.italic);
                assert_eq!(set.contains(&Attr::Underlined), cell.underline);
                assert_eq!(set.contains(&Attr::Reverse), cell.inverse || shown == 40);
                shown += 1;
            }
            _ => panic!("a row only sets looks and prints"),
        }
    }
    assert_eq!(shown, 64);
}

#[test]
fn a_pane_is_drawn_inside_its_area() {
    let mut pane = Pane::new(0, 7, 3, 30, 9, 0, 12);
    pane.feed_data(b"one\r\n\x1b[31mtwo\x1b[5;20Hthree");
    let rect = Rect { x: 7, y: 3, width: 30, height: 9 };
    let mut out = Vec::new();
    draw_pane(&mut out, rect, frame(true), 12, &pane.snapshot());
    for op in &out {
        if let Op::MoveTo(x, y) = op {
            assert!((7..37).contains(x) && (3..12).contains(y));
        }
    }
}
