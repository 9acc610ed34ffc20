use mmux::action::Action;
use mmux::event::{Event, Polled};
use mmux::keys::{Key, KeyCode};
use mmux::state::App;
use mmux::turn::{Turn, Want};

fn start() -> (App, Turn) {
    let mut app = App::new(false, false, 10, 5, 80, 26, 100);
    let (turn, actions) = Turn::new(&mut app);
    assert!(actions.is_empty());
    (app, turn)
}

fn press(code: KeyCode, ctrl: bool) -> Event {
    let key = Key { code, ctrl, alt: false, shift: false };
    Event::Key { key, label: String::new() }
}

/// Goes to the point where the loop waits for events, with nothing to receive.
fn wait(app: &mut App, turn: &mut Turn) {
    if turn.want == Want::Draw {
        app.draw();
        turn.drawn(app);
    }
    while let Want::Receive { .. } = turn.want {
        assert!(turn.received(app, Polled::Empty).is_empty());
    }
    assert_eq!(turn.want, Want::Wait);
}

#[test]
fn the_loop_begins_by_drawing() {
    let (app, mut turn) = start();
    assert_eq!(turn.want, Want::Draw);
    turn.drawn(&app);
    assert_eq!(turn.want, Want::Receive { index: 0 });
    assert!(!turn.drain.dirty);
}

#[test]
fn the_loop_receives_until_there_is_no_more() {
    let (mut app, mut turn) = start();
    turn.drawn(&app);
    assert!(turn.received(&mut app, Polled::Data(b"a".to_vec())).is_empty());
    assert_eq!(turn.want, Want::Receive { index: 0 });
    assert!(turn.received(&mut app, Polled::Data(b"b".to_vec())).is_empty());
    assert!(turn.received(&mut app, Polled::Empty).is_empty());
    assert_eq!(turn.want, Want::Wait);
    assert_eq!(app.panes[0].output, b"ab");
    turn.ready(&app, false);
    assert_eq!(turn.want, Want::Draw);
}

#[test]
fn an_idle_turn_draws_nothing() {
    let (mut app, mut turn) = start();
    wait(&mut app, &mut turn);
    turn.ready(&app, false);
    assert_eq!(turn.want, Want::Receive { index: 0 });
}

#[test]
fn events_are_taken_until_there_is_none() {
    let (mut app, mut turn) = start();
    wait(&mut app, &mut turn);
    turn.ready(&app, true);
    assert_eq!(turn.want, Want::Poll);
    turn.ready(&app, true);
    assert_eq!(turn.want, Want::Read);
    assert!(turn.happened(&mut app, Event::Other).is_empty());
    assert_eq!(turn.want, Want::Poll);
    assert!(!turn.drain.dirty);
    turn.ready(&app, true);
    assert_eq!(turn.happened(&mut app, press(KeyCode::Enter, false)).len(), 1);
    assert_eq!(turn.want, Want::Poll);
    assert!(turn.drain.dirty);
    turn.ready(&app, false);
    assert_eq!(turn.want, Want::Draw);
}

#[test]
fn every_terminal_is_looked_at() {
    let (mut app, mut turn) = start();
    wait(&mut app, &mut turn);
    turn.ready(&app, true);
    turn.ready(&app, true);
    let actions = turn.happened(&mut app, press(KeyCode::Char('v'), true));
    match actions.first() {
        Some(Action::Spawn { id, vertical }) => {
            app.complete_split(*id, *vertical, 7);
        }
        _ => panic!("the pane can be split"),
    }
    turn.ready(&app, false);
    assert_eq!(turn.want, Want::Draw);
    turn.drawn(&app);
    turn.received(&mut app, Polled::Empty);
    assert_eq!(turn.want, Want::Receive { index: 1 });
    turn.received(&mut app, Polled::Empty);
    assert_eq!(turn.want, Want::Wait);
}

#[test]
fn an_ended_terminal_is_closed_and_drawn() {
    let (mut app, mut turn) = start();
    app.begin_split(true);
    app.complete_split(1, true, 7);
    wait(&mut app, &mut turn);
    turn.ready(&app, false);
    turn.received(&mut app, Polled::Eof);
    let actions = turn.received(&mut app, Polled::Empty);
    assert_eq!(turn.want, Want::Wait);
    assert_eq!(app.panes.len(), 1);
    assert!(matches!(actions.first(), Some(Action::Close { terminal: 0 })));
    turn.ready(&app, false);
    assert_eq!(turn.want, Want::Draw);
}

#[test]
fn the_loop_ends_with_the_last_pane() {
    let (mut app, mut turn) = start();
    turn.drawn(&app);
    let actions = turn.received(&mut app, Polled::Disconnected);
    assert_eq!(turn.want, Want::Stop);
    assert!(app.panes.is_empty());
    assert_eq!(actions.len(), 1);
}
