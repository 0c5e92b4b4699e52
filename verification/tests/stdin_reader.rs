use gomqlet::stdin_reader::{KeyboardInput, StdinReader};

fn keys(bytes: &[u8]) -> Vec<KeyboardInput> {
    StdinReader::parse_stdin_bytes(bytes, bytes.len())
}

#[test]
fn single_bytes() {
    assert_eq!(Vec::<KeyboardInput>::new(), keys(&[]));
    assert_eq!(vec![KeyboardInput::VisibleChar(b'a')], keys(b"a"));
    assert_eq!(
        vec![
            KeyboardInput::CtrlC,
            KeyboardInput::CtrlD,
            KeyboardInput::CtrlF,
            KeyboardInput::CtrlG,
            KeyboardInput::Tab,
            KeyboardInput::Enter,
            KeyboardInput::CtrlO,
            KeyboardInput::CtrlR,
            KeyboardInput::CtrlS,
            KeyboardInput::CtrlW,
            KeyboardInput::CtrlSlash,
            KeyboardInput::Backspace,
            KeyboardInput::VisibleChar(32),
            KeyboardInput::VisibleChar(126),
            KeyboardInput::ControlChar(0),
            KeyboardInput::ControlChar(200),
        ],
        keys(&[3, 4, 6, 7, 9, 13, 15, 18, 19, 23, 31, 127, 32, 126, 0, 200])
    );
    assert_eq!(vec![KeyboardInput::Escape], keys(&[27]));
    assert_eq!(vec![KeyboardInput::ControlChar(194)], keys(&[194]));
    assert_eq!(vec![KeyboardInput::VisibleChar(b'a')], StdinReader::parse_stdin_bytes(b"abc", 1));
}

#[test]
fn escape_sequences() {
    assert_eq!(vec![KeyboardInput::Up], keys(&[27, 91, 65]));
    assert_eq!(vec![KeyboardInput::Down], keys(&[27, 91, 66]));
    assert_eq!(vec![KeyboardInput::Right], keys(&[27, 91, 67]));
    assert_eq!(vec![KeyboardInput::Left], keys(&[27, 91, 68]));
    assert_eq!(vec![KeyboardInput::Home], keys(&[27, 91, 72]));
    assert_eq!(vec![KeyboardInput::End], keys(&[27, 91, 70]));
    assert_eq!(vec![KeyboardInput::Delete], keys(&[27, 91, 51, 126]));
    for digit in 0..10u8 {
        assert_eq!(vec![KeyboardInput::AltDigit(digit)], keys(&[27, 48 + digit]));
    }
    assert_eq!(vec![KeyboardInput::AltF], keys(&[27, 102]));
    assert_eq!(vec![KeyboardInput::AltS], keys(&[27, 115]));
    assert_eq!(vec![KeyboardInput::AltDigit(0)], keys(&[194, 186]));
    assert_eq!(vec![KeyboardInput::AltDigit(1)], keys(&[194, 161]));
    assert_eq!(vec![KeyboardInput::AltDigit(2)], keys(&[226, 132, 162]));
    assert_eq!(vec![KeyboardInput::AltDigit(3)], keys(&[194, 163]));
    assert_eq!(vec![KeyboardInput::AltDigit(4)], keys(&[194, 162]));
    assert_eq!(vec![KeyboardInput::AltDigit(5)], keys(&[226, 136, 158]));
    assert_eq!(vec![KeyboardInput::AltDigit(6)], keys(&[194, 167]));
    assert_eq!(vec![KeyboardInput::AltDigit(7)], keys(&[194, 182]));
    assert_eq!(vec![KeyboardInput::AltDigit(8)], keys(&[226, 128, 162]));
    assert_eq!(vec![KeyboardInput::AltDigit(9)], keys(&[194, 170]));
}

#[test]
fn what_follows_a_sequence_is_dropped() {
    assert_eq!(
        vec![KeyboardInput::VisibleChar(b'a'), KeyboardInput::Up],
        keys(&[b'a', 27, 91, 65, b'b'])
    );
    assert_eq!(vec![KeyboardInput::VisibleChar(b'a')], keys(&[b'a', 27]));
    assert_eq!(vec![KeyboardInput::VisibleChar(b'a')], keys(&[b'a', 27, 91, 99]));
    assert_eq!(Vec::<KeyboardInput>::new(), keys(&[27, 91]));
    assert_eq!(Vec::<KeyboardInput>::new(), keys(&[226, 132]));
    assert_eq!(vec![KeyboardInput::Up], StdinReader::parse_stdin_bytes(&[27, 91, 65, 0, 0], 3));
    assert_eq!(
        Vec::<KeyboardInput>::new(),
        StdinReader::parse_stdin_bytes(&[27, 91, 65, 0, 0], 2)
    );
}
