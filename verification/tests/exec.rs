use dockui::exec::encode_key;
use dockui::keys::{Key, KeyCode, KeyKind};

fn key(code: KeyCode, ctrl: bool, alt: bool) -> Key {
    Key { code, ctrl, alt, kind: KeyKind::Press }
}

#[test]
fn encode_key_maps_control_alt_navigation_and_release() {
    let ctrl_c = key(KeyCode::Char('c'), true, false);
    assert_eq!(encode_key(ctrl_c), vec![0x03]);

    let alt_x = key(KeyCode::Char('x'), false, true);
    assert_eq!(encode_key(alt_x), vec![0x1b, b'x']);

    assert_eq!(encode_key(Key::press(KeyCode::Up)), b"\x1b[A".to_vec());
    assert_eq!(encode_key(Key::press(KeyCode::Enter)), b"\r".to_vec());

    let release = Key { kind: KeyKind::Release, ..Key::press(KeyCode::Char('a')) };
    assert!(encode_key(release).is_empty());
}

#[test]
fn encode_key_sends_utf8_and_control_specials() {
    assert_eq!(encode_key(Key::press(KeyCode::Char('é'))), "é".as_bytes().to_vec());
    assert_eq!(encode_key(key(KeyCode::Char(' '), true, false)), vec![0]);
    assert_eq!(encode_key(key(KeyCode::Char('A'), true, false)), vec![0x01]);
    assert_eq!(encode_key(key(KeyCode::Char('1'), true, false)), Vec::<u8>::new());
    assert_eq!(encode_key(Key::press(KeyCode::PageDown)), b"\x1b[6~".to_vec());
    assert_eq!(encode_key(Key::press(KeyCode::Backspace)), vec![0x7f]);
    let repeat = Key { kind: KeyKind::Repeat, ..Key::press(KeyCode::Char('z')) };
    assert_eq!(encode_key(repeat), b"z".to_vec());
}
