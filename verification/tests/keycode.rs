use nova_shell::keycode::{
    classify_byte, FunctionKey, KeyDecoder, KeyEvent, BACKSPACE, CR, ESC, LF, MAX_SUFFIX_LEN, TAB,
};

fn decode(bytes: &[u8]) -> Vec<KeyEvent> {
    let mut decoder = KeyDecoder::new();
    let mut events = Vec::new();
    for byte in bytes {
        if let Some(event) = decoder.feed(*byte) {
            events.push(event);
        }
    }
    events
}

#[test]
fn plain_bytes_are_classified() {
    assert_eq!(classify_byte(b'a'), KeyEvent::Printable(b'a'));
    assert_eq!(classify_byte(LF), KeyEvent::Submit);
    assert_eq!(classify_byte(CR), KeyEvent::Submit);
    assert_eq!(classify_byte(BACKSPACE), KeyEvent::Backspace);
    assert_eq!(classify_byte(TAB), KeyEvent::Tab);
    assert_eq!(classify_byte(1), KeyEvent::OtherControl);
    assert_eq!(classify_byte(31), KeyEvent::OtherControl);
    assert_eq!(classify_byte(0), KeyEvent::Printable(0));
    assert_eq!(classify_byte(32), KeyEvent::Printable(32));
    assert_eq!(classify_byte(127), KeyEvent::Printable(127));
    assert_eq!(classify_byte(200), KeyEvent::Printable(200));
}

#[test]
fn every_control_byte_but_the_known_ones_is_ignored() {
    for byte in 1..=31u8 {
        if byte == LF || byte == CR || byte == BACKSPACE || byte == TAB || byte == ESC {
            continue;
        }
        assert_eq!(decode(&[byte]), vec![KeyEvent::OtherControl]);
    }
}

#[test]
fn arrow_up_is_decoded() {
    let mut decoder = KeyDecoder::new();
    assert_eq!(decoder.feed(ESC), None);
    assert!(decoder.in_escape());
    assert_eq!(decoder.feed(0x5b), None);
    assert_eq!(decoder.feed(0x41), Some(KeyEvent::EscapeSequence(Some(FunctionKey::Up))));
    assert!(!decoder.in_escape());
}

#[test]
fn every_function_key_is_decoded() {
    let keys = [
        (vec![0x5b, 0x41], FunctionKey::Up),
        (vec![0x5b, 0x42], FunctionKey::Down),
        (vec![0x5b, 0x43], FunctionKey::Right),
        (vec![0x5b, 0x44], FunctionKey::Left),
        (vec![0x5b, 0x48], FunctionKey::Home),
        (vec![0x5b, 0x46], FunctionKey::End),
        (vec![0x5b, 0x33, 0x7e], FunctionKey::Delete),
    ];
    for (suffix, key) in keys {
        assert_eq!(FunctionKey::from_suffix(&suffix), Some(key));
        let mut bytes = vec![ESC];
        bytes.extend_from_slice(&suffix);
        assert_eq!(decode(&bytes), vec![KeyEvent::EscapeSequence(Some(key))]);
    }
}

#[test]
fn should_read_more_follows_the_suffixes() {
    assert!(FunctionKey::should_read_more(&[]));
    assert!(FunctionKey::should_read_more(&[0x5b]));
    assert!(FunctionKey::should_read_more(&[0x5b, 0x33]));
    assert!(!FunctionKey::should_read_more(&[0x41]));
    assert!(!FunctionKey::should_read_more(&[0x5b, 0x41]));
    assert!(!FunctionKey::should_read_more(&[0x5b, 0x5b]));
    assert!(!FunctionKey::should_read_more(&[0x5b, 0x33, 0x7e]));
    assert!(!FunctionKey::should_read_more(&[0x5b, 0x33, 0x00]));
    assert!(!FunctionKey::should_read_more(&[0x5b, 0x33, 0x7e, 0x7e]));
}

#[test]
fn unknown_sequences_end_as_unknown() {
    assert_eq!(decode(&[ESC, b'x']), vec![KeyEvent::EscapeSequence(None)]);
    assert_eq!(decode(&[ESC, 0x5b, b'Z']), vec![KeyEvent::EscapeSequence(None)]);
    assert_eq!(decode(&[ESC, 0x5b, 0x33, b'x']), vec![KeyEvent::EscapeSequence(None)]);
    assert_eq!(decode(&[ESC, ESC]), vec![KeyEvent::EscapeSequence(None)]);
    assert_eq!(FunctionKey::from_suffix(&[]), None);
    assert_eq!(FunctionKey::from_suffix(&[0x5b]), None);
    assert_eq!(FunctionKey::from_suffix(&[0x5b, 0x33]), None);
    assert_eq!(FunctionKey::from_suffix(&[0x5b, 0x41, 0x41]), None);
}

#[test]
fn a_byte_after_a_sequence_is_a_key_of_its_own() {
    assert_eq!(
        decode(&[ESC, 0x5b, 0x41, b'a', ESC, b'q', b'b']),
        vec![
            KeyEvent::EscapeSequence(Some(FunctionKey::Up)),
            KeyEvent::Printable(b'a'),
            KeyEvent::EscapeSequence(None),
            KeyEvent::Printable(b'b'),
        ]
    );
}

#[test]
fn the_escape_read_ends_within_the_longest_suffix() {
    for first in 0..=255u8 {
        for second in 0..=255u8 {
            for third in [0u8, 0x1b, 0x33, 0x41, 0x5b, 0x7e, 0xff] {
                let mut decoder = KeyDecoder::new();
                assert_eq!(decoder.feed(ESC), None);
                let mut read = 0;
                let mut ended = false;
                for byte in [first, second, third] {
                    read += 1;
                    if decoder.feed(byte).is_some() {
                        ended = true;
                        break;
                    }
                }
                assert!(ended);
                assert!(read <= MAX_SUFFIX_LEN);
            }
        }
    }
}
