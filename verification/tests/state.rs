use mmux::action::Action;
use mmux::event::{Drain, Event, Polled};
use mmux::geometry::Direction;
use mmux::keys::{Key, KeyCode};
use mmux::paint::Op;
use mmux::state::App;

/// A multiplexer on a terminal of 80 columns and 26 rows, 24 of them above the footer.
fn start() -> App {
    App::new(false, false, 10, 5, 80, 26, 100)
}

fn split(app: &mut App, vertical: bool) -> Vec<Action> {
    let asked = app.begin_split(vertical);
    match asked.first() {
        Some(Action::Spawn { id, vertical }) => {
            let pid = 100 + *id as u32;
            app.complete_split(*id, *vertical, pid)
        }
        _ => panic!("the pane can be split"),
    }
}

/// Pane 0 on the left; 1 above 2 on the right, with the focus on 2.
fn three() -> App {
    let mut app = start();
    split(&mut app, true);
    split(&mut app, false);
    app
}

fn areas(app: &App) -> Vec<(usize, usize, usize, usize)> {
    app.panes.iter().map(|p| (p.x, p.y, p.width, p.height)).collect()
}

fn ids(app: &App) -> Vec<usize> {
    app.panes.iter().map(|p| p.id).collect()
}

fn terminals(app: &App) -> Vec<usize> {
    app.panes.iter().map(|p| p.terminal).collect()
}

fn asked(actions: &Vec<Action>) -> Vec<String> {
    actions.iter().map(|action| format!("{:?}", action)).collect()
}

fn listed(ops: &Vec<Op>) -> Vec<String> {
    ops.iter().map(|op| format!("{:?}", op)).collect()
}

fn press(app: &mut App, code: KeyCode, ctrl: bool, alt: bool, shift: bool) -> Vec<Action> {
    app.handle_key(Key { code, ctrl, alt, shift }, String::from("label"))
}

fn text(app: &App, i: usize) -> String {
    app.panes[i].snapshot().cells[0]
        .iter()
        .map(|cell| match cell {
            Some(cell) => cell.contents.clone(),
            None => String::new(),
        })
        .collect()
}

#[test]
fn a_new_multiplexer_has_one_pane() {
    let app = start();
    assert_eq!(areas(&app), vec![(0, 0, 80, 24)]);
    assert_eq!((ids(&app), terminals(&app)), (vec![0], vec![0]));
    assert_eq!((app.active_index, app.next_id, app.panes[0].pid), (0, 1, 100));
    assert!(app.root.is_leaf_of(0));
    assert!(app.full_redraw && !app.is_zoomed && !app.broadcast_mode);
    assert_eq!((app.min_pane_width, app.min_pane_height), (10, 5));
}

#[test]
fn least_sizes_leave_room_for_the_border() {
    let app = App::new(true, false, 0, 1, 80, 24, 0);
    assert_eq!((app.min_pane_width, app.min_pane_height), (2, 2));
    assert_eq!(areas(&app), vec![(0, 0, 80, 24)]);
    let app = App::new(false, false, 0, 1, 80, 3, 0);
    assert_eq!(areas(&app), vec![(0, 0, 80, 2)]);
}

#[test]
fn splits_halve_the_active_pane() {
    let mut app = start();
    let actions = split(&mut app, true);
    assert_eq!(areas(&app), vec![(0, 0, 40, 24), (40, 0, 40, 24)]);
    assert_eq!(
        asked(&actions),
        [
            "Resize { terminal: 0, rows: 22, cols: 38 }",
            "Resize { terminal: 1, rows: 22, cols: 38 }",
        ]
    );
    assert_eq!((app.active_index, app.panes[1].pid), (1, 101));
    split(&mut app, false);
    assert_eq!(areas(&app), vec![(0, 0, 40, 24), (40, 0, 40, 12), (40, 12, 40, 12)]);
    assert_eq!((ids(&app), app.active_index, app.next_id), (vec![0, 1, 2], 2, 3));
}

#[test]
fn a_small_pane_is_not_split() {
    let mut app = App::new(false, false, 40, 12, 79, 26, 0);
    assert!(app.begin_split(true).is_empty());
    assert_eq!(app.next_id, 1);
    assert_eq!(asked(&app.begin_split(false)), ["Spawn { id: 1, vertical: false }"]);
    assert_eq!(app.next_id, 2);
    let mut app = App::new(false, false, usize::MAX, usize::MAX, 80, 26, 0);
    assert!(app.begin_split(true).is_empty());
    assert!(app.begin_split(false).is_empty());
}

#[test]
fn a_zoomed_pane_is_not_split() {
    let mut app = start();
    app.toggle_maximize();
    assert!(app.begin_split(true).is_empty());
}

#[test]
fn a_failed_split_leaves_the_panes() {
    let mut app = start();
    app.begin_split(true);
    assert_eq!(ids(&app), vec![0]);
    assert_eq!(asked(&app.begin_split(true)), ["Spawn { id: 2, vertical: true }"]);
}

#[test]
fn closing_gives_the_place_back() {
    let mut app = three();
    let (last, actions) = app.remove_pane(1);
    assert!(!last);
    assert_eq!(
        asked(&actions),
        ["Close { terminal: 1 }", "Resize { terminal: 2, rows: 22, cols: 38 }"]
    );
    assert_eq!(areas(&app), vec![(0, 0, 40, 24), (40, 0, 40, 24)]);
    assert_eq!((ids(&app), app.active_index), (vec![0, 2], 1));
}

#[test]
fn closing_an_unknown_pane_does_nothing() {
    let mut app = three();
    let (last, actions) = app.remove_pane(9);
    assert!(!last && actions.is_empty());
    assert_eq!(ids(&app), vec![0, 1, 2]);
}

#[test]
fn closing_the_last_pane_ends() {
    let mut app = start();
    let (last, actions) = app.remove_pane(0);
    assert!(last);
    assert_eq!(asked(&actions), ["Close { terminal: 0 }"]);
    assert!(app.panes.is_empty());
    assert!(app.recalculate_layout().is_empty());
    assert!(app.toggle_maximize().is_empty());
    assert!(app.begin_split(true).is_empty());
    assert!(app.swap_active(Direction::Left).is_empty());
    assert!(app.resize_active(Direction::Left).is_empty());
    app.navigate(Direction::Left);
    assert!(press(&mut app, KeyCode::Char('x'), false, false, false).is_empty());
    assert!(press(&mut app, KeyCode::Esc, false, false, false).is_empty());
    assert!(app.cleanup().is_empty());
}

#[test]
fn closing_ends_zoom() {
    let mut app = three();
    app.toggle_maximize();
    app.remove_pane(2);
    assert!(!app.is_zoomed);
    assert_eq!(areas(&app), vec![(0, 0, 40, 24), (40, 0, 40, 24)]);
}

#[test]
fn closing_the_pane_of_a_split_undoes_it() {
    let mut app = three();
    let before = areas(&app);
    app.navigate(Direction::Left);
    split(&mut app, true);
    assert_eq!(areas(&app)[0], (0, 0, 20, 24));
    app.remove_pane(3);
    assert_eq!(areas(&app), before);
    assert_eq!((ids(&app), app.active_index), (vec![0, 1, 2], 1));
}

#[test]
fn zoom_fills_the_screen_and_back() {
    let mut app = three();
    app.panes[2].feed_data(b"kept");
    let before = areas(&app);
    let actions = app.toggle_maximize();
    assert_eq!(asked(&actions), ["Resize { terminal: 2, rows: 22, cols: 78 }"]);
    assert!(app.is_zoomed);
    assert_eq!(areas(&app)[2], (0, 0, 80, 24));
    assert_eq!(text(&app, 2), "kept");
    let actions = app.toggle_maximize();
    assert_eq!(asked(&actions), ["Resize { terminal: 2, rows: 10, cols: 38 }"]);
    assert!(!app.is_zoomed);
    assert_eq!(areas(&app), before);
    assert_eq!(text(&app, 2), "kept");
}

#[test]
fn the_layout_settles() {
    let mut app = three();
    assert!(app.recalculate_layout().is_empty());
}

#[test]
fn focus_moves_between_panes() {
    let mut app = three();
    app.navigate(Direction::Up);
    assert_eq!(app.active_index, 1);
    app.navigate(Direction::Left);
    assert_eq!(app.active_index, 0);
    app.navigate(Direction::Left);
    assert_eq!(app.active_index, 0);
    app.toggle_maximize();
    app.navigate(Direction::Right);
    assert_eq!(app.active_index, 0);
}

#[test]
fn terminals_change_places() {
    let mut app = three();
    app.panes[0].feed_data(b"left");
    app.panes[2].feed_data(b"low");
    let before = areas(&app);
    let actions = app.swap_active(Direction::Left);
    assert_eq!(
        asked(&actions),
        [
            "Resize { terminal: 0, rows: 10, cols: 38 }",
            "Resize { terminal: 2, rows: 22, cols: 38 }",
        ]
    );
    assert_eq!((ids(&app), terminals(&app)), (vec![0, 1, 2], vec![2, 1, 0]));
    assert_eq!(app.active_index, 0);
    assert_eq!((text(&app, 0), text(&app, 2)), (String::from("low"), String::from("left")));
    assert_eq!(areas(&app), before);
    app.swap_active(Direction::Up);
    assert_eq!(terminals(&app), vec![2, 1, 0]);
    assert_eq!(app.active_index, 0);
}

#[test]
fn terminals_change_places_and_back() {
    let mut app = start();
    split(&mut app, true);
    app.swap_active(Direction::Left);
    assert_eq!((terminals(&app), app.active_index), (vec![1, 0], 0));
    app.swap_active(Direction::Right);
    assert_eq!((terminals(&app), app.active_index), (vec![0, 1], 1));
    assert_eq!((app.panes[0].pid, app.panes[1].pid), (100, 101));
}

#[test]
fn boundaries_move_by_steps() {
    let mut app = three();
    let actions = app.resize_active(Direction::Left);
    assert_eq!(areas(&app), vec![(0, 0, 36, 24), (36, 0, 44, 12), (36, 12, 44, 12)]);
    assert_eq!(actions.len(), 3);
    app.resize_active(Direction::Down);
    assert_eq!(areas(&app), vec![(0, 0, 36, 24), (36, 0, 44, 13), (36, 13, 44, 11)]);
    app.navigate(Direction::Left);
    app.resize_active(Direction::Right);
    assert_eq!(areas(&app)[0], (0, 0, 40, 24));
}

#[test]
fn boundaries_stop_at_the_least_size() {
    let mut app = three();
    for _ in 0..20 {
        app.resize_active(Direction::Left);
    }
    assert_eq!(areas(&app)[0], (0, 0, 12, 24));
    for _ in 0..20 {
        app.resize_active(Direction::Down);
    }
    assert_eq!(areas(&app)[2], (12, 19, 68, 5));
}

#[test]
fn a_single_pane_has_no_boundary() {
    let mut app = start();
    assert!(app.resize_active(Direction::Left).is_empty());
    assert_eq!(areas(&app), vec![(0, 0, 80, 24)]);
    let mut app = start();
    split(&mut app, true);
    app.resize_active(Direction::Up);
    assert_eq!(areas(&app), vec![(0, 0, 40, 24), (40, 0, 40, 24)]);
}

#[test]
fn keys_do_what_they_say() {
    let mut app = start();
    let actions = press(&mut app, KeyCode::Char('v'), true, false, false);
    assert_eq!(asked(&actions), ["Spawn { id: 1, vertical: true }"]);
    app.complete_split(1, true, 7);
    let actions = press(&mut app, KeyCode::Char('h'), true, false, false);
    assert_eq!(asked(&actions), ["Spawn { id: 2, vertical: false }"]);
    assert!(press(&mut app, KeyCode::Left, true, false, false).is_empty());
    assert_eq!(app.active_index, 0);
    assert_eq!(press(&mut app, KeyCode::Right, false, true, true).len(), 2);
    assert_eq!(terminals(&app), vec![1, 0]);
    assert_eq!(press(&mut app, KeyCode::Right, true, false, true).len(), 2);
    assert_eq!(areas(&app)[0], (0, 0, 44, 24));
    press(&mut app, KeyCode::Char(' '), true, true, false);
    assert!(app.is_zoomed);
    app.full_redraw = false;
    press(&mut app, KeyCode::Char('b'), true, false, false);
    assert!(app.broadcast_mode && app.full_redraw);
    press(&mut app, KeyCode::Char('b'), true, false, false);
    assert!(!app.broadcast_mode);
}

#[test]
fn alt_keeps_the_split_keys_for_programs() {
    let mut app = start();
    let actions = press(&mut app, KeyCode::Char('v'), true, true, false);
    assert_eq!(asked(&actions), ["Write { terminal: 0, bytes: [27, 22] }"]);
}

#[test]
fn input_goes_to_the_active_pane() {
    let mut app = three();
    let actions = press(&mut app, KeyCode::Char('x'), false, false, false);
    assert_eq!(asked(&actions), ["Write { terminal: 2, bytes: [120] }"]);
    let actions = press(&mut app, KeyCode::Up, false, false, false);
    assert_eq!(asked(&actions), ["Write { terminal: 2, bytes: [27, 91, 65] }"]);
    assert!(press(&mut app, KeyCode::Other, false, false, false).is_empty());
}

#[test]
fn broadcast_input_goes_to_all_panes() {
    let mut app = three();
    press(&mut app, KeyCode::Char('b'), true, false, false);
    let actions = press(&mut app, KeyCode::Char('x'), false, false, false);
    assert_eq!(
        asked(&actions),
        [
            "Write { terminal: 0, bytes: [120] }",
            "Write { terminal: 1, bytes: [120] }",
            "Write { terminal: 2, bytes: [120] }",
        ]
    );
    let key = Key { code: KeyCode::Enter, ctrl: false, alt: false, shift: false };
    assert_eq!(app.send_key(key).len(), 3);
}

#[test]
fn escape_and_backspace_go_to_the_active_pane_alone() {
    let mut app = three();
    press(&mut app, KeyCode::Char('b'), true, false, false);
    let actions = press(&mut app, KeyCode::Esc, false, false, false);
    assert_eq!(asked(&actions), ["Write { terminal: 2, bytes: [27] }"]);
    let actions = press(&mut app, KeyCode::Backspace, false, true, false);
    assert_eq!(asked(&actions), ["Write { terminal: 2, bytes: [127] }"]);
    let actions = press(&mut app, KeyCode::Delete, false, false, false);
    assert_eq!(asked(&actions), ["Write { terminal: 2, bytes: [127] }"]);
}

#[test]
fn the_last_key_is_remembered_for_debugging() {
    let mut app = App::new(false, true, 10, 5, 80, 26, 0);
    press(&mut app, KeyCode::Char('x'), false, false, false);
    assert_eq!(app.last_key_code, Some(String::from("label")));
    let mut app = start();
    press(&mut app, KeyCode::Char('x'), false, false, false);
    assert_eq!(app.last_key_code, None);
}

#[test]
fn panes_follow_the_size_of_the_terminal() {
    let mut app = three();
    app.full_redraw = false;
    let actions = app.handle_resize(100, 42);
    assert_eq!(areas(&app), vec![(0, 0, 50, 40), (50, 0, 50, 20), (50, 20, 50, 20)]);
    assert_eq!(actions.len(), 3);
    assert!(app.full_redraw);
    app.handle_resize(0, 0);
    assert_eq!(areas(&app), vec![(0, 0, 2, 2), (0, 0, 2, 2), (0, 0, 2, 2)]);
}

#[test]
fn a_zoomed_pane_follows_the_size_of_the_terminal() {
    let mut app = three();
    app.toggle_maximize();
    let actions = app.handle_resize(60, 22);
    assert_eq!(asked(&actions), ["Resize { terminal: 2, rows: 18, cols: 58 }"]);
    assert_eq!(areas(&app)[2], (0, 0, 60, 20));
    assert_eq!(areas(&app)[0], (0, 0, 40, 24));
    app.toggle_maximize();
    assert_eq!(areas(&app), vec![(0, 0, 30, 20), (30, 0, 30, 10), (30, 10, 30, 10)]);
}

#[test]
fn events_are_told_apart() {
    let mut app = start();
    let (dirty, actions) = app.handle_event(Event::Other);
    assert!(!dirty && actions.is_empty());
    let (dirty, actions) = app.handle_event(Event::Resize { width: 60, height: 22 });
    assert!(dirty);
    assert_eq!(asked(&actions), ["Resize { terminal: 0, rows: 18, cols: 58 }"]);
    let key = Key { code: KeyCode::Tab, ctrl: false, alt: false, shift: false };
    let (dirty, actions) = app.handle_event(Event::Key { key, label: String::new() });
    assert!(dirty);
    assert_eq!(asked(&actions), ["Write { terminal: 0, bytes: [9] }"]);
}

#[test]
fn output_is_received() {
    let mut app = three();
    let mut drain = Drain::new();
    assert!(app.receive(1, Polled::Data(b"out".to_vec()), &mut drain));
    assert!(drain.dirty && drain.dead.is_empty());
    assert!(!app.receive(1, Polled::Empty, &mut drain));
    assert_eq!(text(&app, 1), "out");
    let mut drain = Drain::new();
    assert!(!app.receive(0, Polled::Empty, &mut drain));
    assert!(!drain.dirty);
}

#[test]
fn ended_terminals_are_closed() {
    let mut app = three();
    let mut drain = Drain::new();
    assert!(!app.receive(0, Polled::Eof, &mut drain));
    assert!(!app.receive(2, Polled::Disconnected, &mut drain));
    assert_eq!((&drain.dead, drain.dirty), (&vec![0, 2], true));
    let (keep_running, actions) = app.drain_output(&drain);
    assert!(keep_running);
    assert_eq!(ids(&app), vec![1]);
    assert_eq!(areas(&app), vec![(0, 0, 80, 24)]);
    assert!(asked(&actions).contains(&String::from("Close { terminal: 0 }")));
    assert!(asked(&actions).contains(&String::from("Close { terminal: 2 }")));
}

#[test]
fn the_end_of_all_terminals_ends_the_run() {
    let mut app = three();
    let drain = Drain { dead: vec![0, 1, 2, 9], dirty: true };
    let (keep_running, actions) = app.drain_output(&drain);
    assert!(!keep_running);
    assert!(app.panes.is_empty());
    assert_eq!(asked(&actions).iter().filter(|a| a.starts_with("Close")).count(), 3);
}

#[test]
fn everything_is_drawn() {
    let mut app = three();
    let ops = listed(&app.draw());
    assert_eq!(ops[..3], ["HideCursor", "ClearAll", "Foreground(White)"]);
    assert_eq!(ops[ops.len() - 2..], ["MoveTo(41, 13)", "ShowCursor"]);
    assert_eq!(ops.iter().filter(|op| *op == "Foreground(Yellow)").count() > 0, true);
    assert!(ops.contains(&String::from("MoveTo(0, 24)")));
    assert!(!app.full_redraw);
    let ops = listed(&app.draw());
    assert_eq!(ops[..2], ["HideCursor", "Foreground(White)"]);
}

#[test]
fn a_zoomed_pane_is_drawn_alone() {
    let mut app = three();
    app.toggle_maximize();
    let ops = listed(&app.draw());
    assert_eq!(ops[..3], ["HideCursor", "ClearAll", "Foreground(Yellow)"]);
    assert!(!ops.contains(&String::from("Foreground(White)")));
    assert!(ops.iter().any(|op| op.contains("[ ZOOMED ]")));
}

#[test]
fn all_panes_are_marked_when_input_is_broadcast() {
    let mut app = three();
    press(&mut app, KeyCode::Char('b'), true, false, false);
    let ops = listed(&app.draw());
    assert!(!ops.contains(&String::from("Foreground(White)")));
    assert_eq!(ops.iter().filter(|op| op.contains("[ BROADCAST ]")).count(), 3);
}

#[test]
fn the_footer_can_be_left_out() {
    let mut app = App::new(true, false, 10, 5, 80, 24, 0);
    let ops = listed(&app.draw());
    assert!(!ops.iter().any(|op| op.contains("Ctrl+Shift")));
    let mut app = start();
    assert!(listed(&app.draw()).iter().any(|op| op.contains("Ctrl+Shift")));
}

#[test]
fn the_footer_shows_the_key_only_for_debugging() {
    let mut app = App::new(false, true, 10, 5, 80, 26, 0);
    press(&mut app, KeyCode::Char('x'), false, false, false);
    assert!(listed(&app.draw()).iter().any(|op| op.contains("[key:label]")));
    app.debug_mode = false;
    assert!(!listed(&app.draw()).iter().any(|op| op.contains("[key:label]")));
}

#[test]
fn an_empty_multiplexer_draws_its_footer() {
    let mut app = start();
    app.remove_pane(0);
    let ops = listed(&app.draw());
    assert_eq!(ops[..3], ["HideCursor", "ClearAll", "Attribute(Reverse)"]);
    assert_eq!(ops.len(), 8);
}

#[test]
fn cleanup_closes_every_terminal() {
    let app = three();
    assert_eq!(
        asked(&app.cleanup()),
        ["Close { terminal: 0 }", "Close { terminal: 1 }", "Close { terminal: 2 }"]
    );
}

#[test]
fn the_footer_is_drawn_when_asked_for() {
    let app = App::new(true, true, 10, 5, 80, 24, 0);
    let mut out = Vec::new();
    app.draw_footer(&mut out);
    assert_eq!(listed(&out).len(), 6);
    assert_eq!(listed(&out)[1], "MoveTo(0, 22)");
    assert!(listed(&out)[4].contains("Ctrl+Shift"));
}
