use mmux::geometry::Direction;
use mmux::keys::{Key, KeyCode};

fn key(code: KeyCode) -> Key {
    Key { code, ctrl: false, alt: false, shift: false }
}

fn ctrl(code: KeyCode) -> Key {
    Key { ctrl: true, ..key(code) }
}

fn alt(code: KeyCode) -> Key {
    Key { alt: true, ..key(code) }
}

fn shift(code: KeyCode) -> Key {
    Key { shift: true, ..key(code) }
}

#[test]
fn arrows_have_directions() {
    assert_eq!(KeyCode::Up.direction(), Some(Direction::Up));
    assert_eq!(KeyCode::Down.direction(), Some(Direction::Down));
    assert_eq!(KeyCode::Left.direction(), Some(Direction::Left));
    assert_eq!(KeyCode::Right.direction(), Some(Direction::Right));
    assert_eq!(KeyCode::Enter.direction(), None);
}

#[test]
fn arrows_without_modifiers() {
    assert_eq!(key(KeyCode::Up).encode(), b"\x1b[A");
    assert_eq!(key(KeyCode::Down).encode(), b"\x1b[B");
    assert_eq!(key(KeyCode::Right).encode(), b"\x1b[C");
    assert_eq!(key(KeyCode::Left).encode(), b"\x1b[D");
}

#[test]
fn arrows_with_modifiers() {
    assert_eq!(shift(KeyCode::Up).encode(), b"\x1b[1;3A");
    assert_eq!(alt(KeyCode::Left).encode(), b"\x1b[1;3D");
    assert_eq!(ctrl(KeyCode::Right).encode(), b"\x1b[1;5C");
    let all = Key { code: KeyCode::Down, ctrl: true, alt: true, shift: true };
    assert_eq!(all.encode(), b"\x1b[1;9B");
}

#[test]
fn characters_are_utf8() {
    assert_eq!(key(KeyCode::Char('a')).encode(), b"a");
    assert_eq!(shift(KeyCode::Char('A')).encode(), b"A");
    assert_eq!(key(KeyCode::Char('é')).encode(), "é".as_bytes());
    assert_eq!(key(KeyCode::Char('€')).encode(), "€".as_bytes());
    assert_eq!(key(KeyCode::Char('😀')).encode(), "😀".as_bytes());
}

#[test]
fn control_characters() {
    assert_eq!(ctrl(KeyCode::Char('a')).encode(), vec![1]);
    assert_eq!(ctrl(KeyCode::Char('C')).encode(), vec![3]);
    assert_eq!(ctrl(KeyCode::Char('z')).encode(), vec![26]);
    assert_eq!(ctrl(KeyCode::Char('@')).encode(), vec![0]);
    assert_eq!(ctrl(KeyCode::Char('[')).encode(), vec![0x1b]);
    assert_eq!(ctrl(KeyCode::Char('1')).encode(), vec![0x11]);
    assert_eq!(ctrl(KeyCode::Char('é')).encode(), vec![0xe9 & 0x1f]);
}

#[test]
fn alt_puts_an_escape_in_front() {
    assert_eq!(alt(KeyCode::Char('x')).encode(), b"\x1bx");
    assert_eq!(alt(KeyCode::Enter).encode(), b"\x1b\r");
    let both = Key { ctrl: true, ..alt(KeyCode::Char('x')) };
    assert_eq!(both.encode(), vec![0x1b, 24]);
    assert_eq!(alt(KeyCode::Other).encode(), vec![0x1b]);
}

#[test]
fn named_keys() {
    assert_eq!(key(KeyCode::Enter).encode(), b"\r");
    assert_eq!(key(KeyCode::Tab).encode(), b"\t");
    assert_eq!(key(KeyCode::Backspace).encode(), vec![0x7f]);
    assert_eq!(key(KeyCode::Delete).encode(), vec![0x7f]);
    assert_eq!(key(KeyCode::Esc).encode(), vec![0x1b]);
    assert_eq!(key(KeyCode::Home).encode(), b"\x1b[H");
    assert_eq!(key(KeyCode::End).encode(), b"\x1b[F");
    assert_eq!(key(KeyCode::PageUp).encode(), b"\x1b[5~");
    assert_eq!(key(KeyCode::PageDown).encode(), b"\x1b[6~");
    assert_eq!(key(KeyCode::Insert).encode(), b"\x1b[2~");
    assert!(key(KeyCode::Other).encode().is_empty());
}

#[test]
fn function_keys() {
    assert_eq!(key(KeyCode::F(1)).encode(), b"\x1bOP");
    assert_eq!(key(KeyCode::F(2)).encode(), b"\x1bOQ");
    assert_eq!(key(KeyCode::F(3)).encode(), b"\x1bOR");
    assert_eq!(key(KeyCode::F(4)).encode(), b"\x1bOS");
    assert_eq!(key(KeyCode::F(5)).encode(), b"\x1b[15~");
    assert_eq!(key(KeyCode::F(9)).encode(), b"\x1b[19~");
    assert_eq!(key(KeyCode::F(10)).encode(), b"\x1b[20~");
    assert_eq!(key(KeyCode::F(12)).encode(), b"\x1b[22~");
    assert!(key(KeyCode::F(0)).encode().is_empty());
    assert!(key(KeyCode::F(13)).encode().is_empty());
}
