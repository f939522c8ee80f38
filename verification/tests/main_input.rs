use ttree::input::{
    encode_key, encode_mouse, should_forward_mouse, KeyCode, KeyEvent, KeyModifiers, MouseButton,
    MouseEvent, MouseEventKind, MouseProtocolMode as M, Osc52Relay, Prefix, MAX_PAYLOAD,
};

fn mouse(kind: MouseEventKind, column: u16, row: u16, modifiers: KeyModifiers) -> MouseEvent {
    MouseEvent { kind, column, row, modifiers }
}

fn encoded(kind: MouseEventKind, column: u16, row: u16, x_offset: u16) -> String {
    let ev = mouse(kind, column, row, KeyModifiers::none());
    String::from_utf8(encode_mouse(&ev, x_offset, 0).expect("encodable")).unwrap()
}

fn relayed(chunks: &[&[u8]]) -> Vec<Vec<u8>> {
    let mut relay = Osc52Relay::new();
    let mut out = Vec::new();
    for chunk in chunks {
        out.extend(relay.scan(chunk));
    }
    out
}

fn key_bytes(code: KeyCode, modifiers: KeyModifiers) -> Vec<u8> {
    let mut bytes = Vec::new();
    encode_key(&KeyEvent::new(code, modifiers), &mut bytes);
    bytes
}

#[test]
fn main_mouse_encodes_sgr_with_one_based_coordinates() {
    assert_eq!(encoded(MouseEventKind::Down(MouseButton::Left), 14, 0, 14), "\x1b[<0;1;1M");
    assert_eq!(encoded(MouseEventKind::Down(MouseButton::Right), 20, 4, 14), "\x1b[<2;7;5M");
}

#[test]
fn main_mouse_release_uses_lowercase_terminator() {
    assert_eq!(encoded(MouseEventKind::Up(MouseButton::Left), 15, 2, 14), "\x1b[<0;2;3m");
}

#[test]
fn main_mouse_drag_and_wheel_use_their_own_button_codes() {
    assert_eq!(encoded(MouseEventKind::Drag(MouseButton::Left), 15, 0, 14), "\x1b[<32;2;1M");
    assert_eq!(encoded(MouseEventKind::ScrollUp, 15, 0, 14), "\x1b[<64;2;1M");
    assert_eq!(encoded(MouseEventKind::ScrollDown, 15, 0, 14), "\x1b[<65;2;1M");
}

#[test]
fn main_mouse_modifiers_add_their_bits() {
    let shift_alt_ctrl = KeyModifiers::shift().union(KeyModifiers::alt()).union(KeyModifiers::control());
    let ev = mouse(MouseEventKind::Down(MouseButton::Left), 14, 0, shift_alt_ctrl);
    let out = String::from_utf8(encode_mouse(&ev, 14, 0).unwrap()).unwrap();
    assert_eq!(out, "\x1b[<28;1;1M");
}

#[test]
fn main_forwarding_follows_the_mode_the_client_asked_for() {
    let down = MouseEventKind::Down(MouseButton::Left);
    let drag = MouseEventKind::Drag(MouseButton::Left);

    assert!(!should_forward_mouse(&down, M::Off));
    assert!(!should_forward_mouse(&MouseEventKind::ScrollUp, M::Off));

    assert!(should_forward_mouse(&down, M::Press));
    assert!(should_forward_mouse(&MouseEventKind::ScrollUp, M::PressRelease));
    assert!(!should_forward_mouse(&drag, M::Press));
    assert!(!should_forward_mouse(&drag, M::PressRelease));

    assert!(should_forward_mouse(&drag, M::ButtonMotion));
    assert!(should_forward_mouse(&drag, M::AnyMotion));
}

#[test]
fn main_bare_hover_is_never_forwarded() {
    for mode in [M::Off, M::Press, M::PressRelease, M::ButtonMotion, M::AnyMotion] {
        assert!(!should_forward_mouse(&MouseEventKind::Moved, mode));
    }
}

#[test]
fn main_osc52_relays_a_bel_terminated_sequence() {
    assert_eq!(relayed(&[b"junk\x1b]52;c;aGk=\x07more"]), vec![b"c;aGk=".to_vec()]);
}

#[test]
fn main_osc52_relays_an_st_terminated_sequence() {
    assert_eq!(relayed(&[b"\x1b]52;c;YWJj\x1b\\rest"]), vec![b"c;YWJj".to_vec()]);
}

#[test]
fn main_osc52_survives_every_split_point() {
    let data = b"pre\x1b]52;c;YWJj\x1b\\post";
    for split in 1..data.len() {
        assert_eq!(
            relayed(&[&data[..split], &data[split..]]),
            vec![b"c;YWJj".to_vec()],
            "split at {}",
            split
        );
    }
}

#[test]
fn main_osc52_ignores_other_sequences() {
    assert!(relayed(&[b"\x1b]0;title\x07\x1b]52\x07\x1b[<0;5;5M"]).is_empty());
}

#[test]
fn main_osc52_restarts_the_introducer_on_a_repeated_escape() {
    assert_eq!(relayed(&[b"\x1b\x1b]52;c;YQ==\x07"]), vec![b"c;YQ==".to_vec()]);
}

#[test]
fn main_osc52_keeps_an_escape_that_is_not_a_terminator() {
    assert_eq!(relayed(&[b"\x1b]52;c;a\x1bb\x07"]), vec![b"c;a\x1bb".to_vec()]);
}

#[test]
fn main_osc52_drops_an_oversized_payload_and_recovers() {
    let mut relay = Osc52Relay::new();
    let mut out: Vec<Vec<u8>> = Vec::new();
    out.extend(relay.scan(b"\x1b]52;"));
    out.extend(relay.scan(&vec![b'A'; MAX_PAYLOAD + 1]));
    assert!(out.is_empty(), "runaway payload should be dropped");
    out.extend(relay.scan(b"\x1b]52;c;YQ==\x07"));
    assert_eq!(out, vec![b"c;YQ==".to_vec()]);
}

#[test]
fn main_keys_encode_plain_and_modified_forms() {
    assert_eq!(key_bytes(KeyCode::Char('a'), KeyModifiers::none()), b"a");
    assert_eq!(key_bytes(KeyCode::Char('c'), KeyModifiers::control()), vec![0x03]);
    assert_eq!(key_bytes(KeyCode::Enter, KeyModifiers::none()), b"\r");
    assert_eq!(key_bytes(KeyCode::Tab, KeyModifiers::shift()), b"\x1b[Z");
    assert_eq!(key_bytes(KeyCode::Up, KeyModifiers::none()), b"\x1b[A");
    assert_eq!(key_bytes(KeyCode::Up, KeyModifiers::control()), b"\x1b[1;5A");
}

#[test]
fn main_prefix_follows_the_tmux_option() {
    assert_eq!(Prefix::parse(Some("C-a".into())), Prefix { ch: 'a', byte: 0x01 });
    assert_eq!(Prefix::parse(Some("C-b".into())), Prefix { ch: 'b', byte: 0x02 });
    assert_eq!(Prefix::parse(Some(" C-z \n".into())), Prefix { ch: 'z', byte: 0x1a });
}

#[test]
fn main_unparseable_prefixes_fall_back_to_c_b() {
    for value in [None, Some("None".into()), Some("M-a".into()), Some("C-Space".into())] {
        assert_eq!(Prefix::parse(value), Prefix::default());
    }
}

#[test]
fn main_prefix_matches_only_with_control() {
    let p = Prefix::parse(Some("C-a".into()));
    assert!(p.matches(&KeyEvent::new(KeyCode::Char('a'), KeyModifiers::control())));
    assert!(!p.matches(&KeyEvent::new(KeyCode::Char('a'), KeyModifiers::none())));
    assert!(!p.matches(&KeyEvent::new(KeyCode::Char('b'), KeyModifiers::control())));
}
