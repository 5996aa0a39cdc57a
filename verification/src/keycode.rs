//! Key decoding: one terminal byte at a time becomes a logical key event.
//!
//! A byte is either a recognised control (submit, backspace, tab, escape),
//! another control byte, which has no effect, or a printable byte. An escape
//! byte opens a sub-read: the bytes that follow are collected for as long as
//! they are a proper prefix of a known function-key suffix, and the sub-read
//! ends with the key whose suffix was read, or with an unknown sequence.

use vstd::prelude::*;

verus! {

/// Line feed.
pub const LF: u8 = 0x0a;

/// Carriage return.
pub const CR: u8 = 0x0d;

/// Backspace.
pub const BACKSPACE: u8 = 0x08;

/// Horizontal tab.
pub const TAB: u8 = 0x09;

/// Escape, which opens a function-key sequence.
pub const ESC: u8 = 0x1b;

/// The length of the longest function-key suffix.
pub const MAX_SUFFIX_LEN: usize = 3;

/// A navigation or edit key that arrives as an escape sequence.
#[derive(Clone, Copy, Debug, PartialEq, Eq, Structural)]
pub enum FunctionKey {
    Up,
    Down,
    Left,
    Right,
    Home,
    End,
    Delete,
}

/// What one key press means to the line editor.
#[derive(Clone, Copy, Debug, PartialEq, Eq)]
pub enum KeyEvent {
    /// A byte to insert at the cursor.
    Printable(u8),
    /// Line feed or carriage return: the line is complete.
    Submit,
    Backspace,
    Tab,
    /// A finished escape sequence: the key it names, or `None` where it
    /// names no known key.
    EscapeSequence(Option<FunctionKey>),
    /// A control byte that the editor ignores.
    OtherControl,
}

impl FunctionKey {
    /// The bytes that follow the escape byte when this key is pressed.
    pub open spec fn suffix(self) -> Seq<u8> {
        match self {
            FunctionKey::Up => seq![0x5bu8, 0x41u8],
            FunctionKey::Down => seq![0x5bu8, 0x42u8],
            FunctionKey::Right => seq![0x5bu8, 0x43u8],
            FunctionKey::Left => seq![0x5bu8, 0x44u8],
            FunctionKey::Home => seq![0x5bu8, 0x48u8],
            FunctionKey::End => seq![0x5bu8, 0x46u8],
            FunctionKey::Delete => seq![0x5bu8, 0x33u8, 0x7eu8],
        }
    }

    /// Whether the sub-read goes on after the bytes `seen`: it does exactly
    /// when they could still grow into a known suffix.
    pub fn should_read_more(seen: &[u8]) -> (more: bool)
        ensures
            more == could_still_match(seen@),
            more ==> seen@.len() < MAX_SUFFIX_LEN,
    {
        let more = match seen.len() {
            0 => true,
            1 => seen[0] == 0x5b,
            2 => seen[0] == 0x5b && seen[1] == 0x33,
            _ => false,
        };
        proof {
            lemma_could_still_match(seen@);
        }
        more
    }

    /// The key whose suffix is exactly `seen`, if there is one.
    pub fn from_suffix(seen: &[u8]) -> (key: Option<FunctionKey>)
        ensures
            key == resolve(seen@),
    {
        let key = if seen.len() == 2 && seen[0] == 0x5b {
            match seen[1] {
                0x41 => Some(FunctionKey::Up),
                0x42 => Some(FunctionKey::Down),
                0x43 => Some(FunctionKey::Right),
                0x44 => Some(FunctionKey::Left),
                0x48 => Some(FunctionKey::Home),
                0x46 => Some(FunctionKey::End),
                _ => None,
            }
        } else if seen.len() == 3 && seen[0] == 0x5b && seen[1] == 0x33 && seen[2] == 0x7e {
            Some(FunctionKey::Delete)
        } else {
            None
        };
        proof {
            match key {
                Some(k) => {
                    assert(k.suffix() =~= seen@);
                    assert(names(seen@, k));
                    lemma_suffixes_differ(k, choose|other: FunctionKey| names(seen@, other));
                },
                None => {
                    assert forall|other: FunctionKey| !names(seen@, other) by {
                        if names(seen@, other) {
                            let whole = other.suffix();
                            assert(whole[0] == seen@[0]);
                            assert(whole[1] == seen@[1]);
                            if whole.len() == 3 {
                                assert(whole[2] == seen@[2]);
                            }
                        }
                    }
                },
            }
        }
        key
    }
}

/// `seen` is shorter than `whole` and agrees with it byte for byte.
pub open spec fn is_proper_prefix(seen: Seq<u8>, whole: Seq<u8>) -> bool {
    seen.len() < whole.len() && seen.is_prefix_of(whole)
}

/// The bytes read so far are the beginning of some function key's suffix,
/// and more are needed to tell which.
pub open spec fn could_still_match(seen: Seq<u8>) -> bool {
    exists|key: FunctionKey| is_proper_prefix(seen, #[trigger] key.suffix())
}

/// Which sequences could still match: the empty one, the opening bracket,
/// and the bracket with the digit that begins the one long suffix.
pub proof fn lemma_could_still_match(seen: Seq<u8>)
    ensures
        could_still_match(seen) <==> seen.len() == 0 || (seen.len() == 1 && seen[0] == 0x5b) || (
        seen.len() == 2 && seen[0] == 0x5b && seen[1] == 0x33),
{
    if seen.len() == 0 || (seen.len() == 1 && seen[0] == 0x5b) {
        assert(is_proper_prefix(seen, FunctionKey::Up.suffix()));
    } else if seen.len() == 2 && seen[0] == 0x5b && seen[1] == 0x33 {
        assert(is_proper_prefix(seen, FunctionKey::Delete.suffix()));
    } else {
        assert forall|key: FunctionKey| !is_proper_prefix(seen, #[trigger] key.suffix()) by {
            if is_proper_prefix(seen, key.suffix()) {
                let whole = key.suffix();
                assert(forall|i: int| 0 <= i < seen.len() ==> seen[i] == whole[i]);
                if seen.len() >= 1 {
                    assert(seen[0] == whole[0]);
                }
                if seen.len() >= 2 {
                    assert(seen[1] == whole[1]);
                }
            }
        }
    }
}

/// The bytes read after the escape byte are the suffix of `key`.
pub open spec fn names(seen: Seq<u8>, key: FunctionKey) -> bool {
    key.suffix() == seen
}

/// The key that a finished escape sequence names, `None` for an unknown one.
pub open spec fn resolve(seen: Seq<u8>) -> Option<FunctionKey> {
    if exists|key: FunctionKey| names(seen, key) {
        Some(choose|key: FunctionKey| names(seen, key))
    } else {
        None
    }
}

/// No two function keys share a suffix, so a sequence names at most one key.
pub proof fn lemma_suffixes_differ(a: FunctionKey, b: FunctionKey)
    requires
        a.suffix() == b.suffix(),
    ensures
        a == b,
{
    let x = a.suffix();
    let y = b.suffix();
    assert(x.len() == y.len());
    assert(x[1] == y[1]);
}

/// A sequence that could still match is shorter than the longest suffix:
/// this is what bounds the escape sub-read.
pub proof fn lemma_pending_is_short(seen: Seq<u8>)
    requires
        could_still_match(seen),
    ensures
        seen.len() < MAX_SUFFIX_LEN,
{
    let key = choose|key: FunctionKey| is_proper_prefix(seen, #[trigger] key.suffix());
    assert(key.suffix().len() <= MAX_SUFFIX_LEN);
}

/// What a byte means when no escape sequence is open. The escape byte itself
/// never gets here: it opens a sequence instead.
pub open spec fn classify(byte: u8) -> KeyEvent {
    if byte == LF || byte == CR {
        KeyEvent::Submit
    } else if byte == BACKSPACE {
        KeyEvent::Backspace
    } else if byte == TAB {
        KeyEvent::Tab
    } else if 1 <= byte <= 31 {
        KeyEvent::OtherControl
    } else {
        KeyEvent::Printable(byte)
    }
}

/// The decoder as a state machine. A state is `None` between keys and
/// `Some(seen)` inside an escape sequence of which `seen` has been read.
/// One byte leads to the next state and, where a key is complete, its event.
pub open spec fn decode_step(state: Option<Seq<u8>>, byte: u8) -> (Option<Seq<u8>>, Option<KeyEvent>) {
    match state {
        None => if byte == ESC {
            (Some(Seq::empty()), None)
        } else {
            (None, Some(classify(byte)))
        },
        Some(seen) => {
            let longer = seen.push(byte);
            if could_still_match(longer) {
                (Some(longer), None)
            } else {
                (None, Some(KeyEvent::EscapeSequence(resolve(longer))))
            }
        },
    }
}

/// The state reached and the events emitted when `bytes` are fed in order.
pub open spec fn decode_all(state: Option<Seq<u8>>, bytes: Seq<u8>) -> (Option<Seq<u8>>, Seq<KeyEvent>)
    decreases bytes.len(),
{
    if bytes.len() == 0 {
        (state, Seq::empty())
    } else {
        let (next, event) = decode_step(state, bytes[0]);
        let (last, later) = decode_all(next, bytes.drop_first());
        match event {
            Some(e) => (last, seq![e] + later),
            None => (last, later),
        }
    }
}

/// The states that the decoder can be in: between keys, or inside a sequence
/// that could still match.
pub open spec fn is_decoder_state(state: Option<Seq<u8>>) -> bool {
    match state {
        None => true,
        Some(seen) => could_still_match(seen),
    }
}

/// Every step leads from a decoder state to a decoder state.
pub proof fn lemma_step_keeps_state(state: Option<Seq<u8>>, byte: u8)
    requires
        is_decoder_state(state),
    ensures
        is_decoder_state(decode_step(state, byte).0),
{
    if state is None && byte == ESC {
        assert(is_proper_prefix(Seq::<u8>::empty(), FunctionKey::Up.suffix()));
    }
}

proof fn lemma_open_sequence_ends(seen: Seq<u8>, bytes: Seq<u8>)
    requires
        could_still_match(seen),
        seen.len() + bytes.len() >= MAX_SUFFIX_LEN,
    ensures
        decode_all(Some(seen), bytes).1.len() >= 1,
    decreases MAX_SUFFIX_LEN - seen.len(),
{
    lemma_pending_is_short(seen);
    let longer = seen.push(bytes[0]);
    if could_still_match(longer) {
        lemma_pending_is_short(longer);
        lemma_open_sequence_ends(longer, bytes.drop_first());
    }
}

/// The escape sub-read is bounded: whatever the bytes are, an escape byte and
/// the `MAX_SUFFIX_LEN` bytes after it are enough for an event. From any
/// decoder state, any `MAX_SUFFIX_LEN + 1` bytes yield at least one event.
pub proof fn lemma_escape_read_is_bounded(state: Option<Seq<u8>>, bytes: Seq<u8>)
    requires
        is_decoder_state(state),
        bytes.len() > MAX_SUFFIX_LEN,
    ensures
        decode_all(state, bytes).1.len() >= 1,
{
    match state {
        None => {
            if bytes[0] == ESC {
                assert(is_proper_prefix(Seq::<u8>::empty(), FunctionKey::Up.suffix()));
                lemma_open_sequence_ends(Seq::empty(), bytes.drop_first());
            }
        },
        Some(seen) => {
            lemma_open_sequence_ends(seen, bytes);
        },
    }
}

/// Every function key can be typed: the escape byte and the key's suffix,
/// fed between keys, give that key's event and nothing else, and leave the
/// decoder between keys.
pub proof fn lemma_key_decodes(key: FunctionKey)
    ensures
        decode_all(None, seq![ESC] + key.suffix()) == (
            None::<Seq<u8>>,
            seq![KeyEvent::EscapeSequence(Some(key))],
        ),
{
    let suffix = key.suffix();
    let bytes = seq![ESC] + suffix;
    let first = Seq::<u8>::empty().push(suffix[0]);
    let second = first.push(suffix[1]);
    lemma_could_still_match(first);
    lemma_could_still_match(second);
    assert(bytes.drop_first() =~= suffix);
    assert(suffix.drop_first().drop_first() =~= suffix.skip(2));
    reveal_with_fuel(decode_all, 5);
    if suffix.len() == 2 {
        assert(second =~= suffix);
        assert(names(second, key));
        lemma_suffixes_differ(key, choose|other: FunctionKey| names(second, other));
        assert(suffix.skip(2).len() == 0);
        assert(decode_all(None, suffix.skip(2)).1 =~= Seq::<KeyEvent>::empty());
        assert(decode_all(None, bytes).1 =~= seq![KeyEvent::EscapeSequence(Some(key))]);
    } else {
        let third = second.push(suffix[2]);
        lemma_could_still_match(third);
        assert(third =~= suffix);
        assert(names(third, key));
        lemma_suffixes_differ(key, choose|other: FunctionKey| names(third, other));
        assert(suffix.skip(2).drop_first().len() == 0);
        assert(decode_all(None, bytes).1 =~= seq![KeyEvent::EscapeSequence(Some(key))]);
    }
}

/// The byte-at-a-time decoder.
pub struct KeyDecoder {
    escaping: bool,
    seen: Vec<u8>,
}

impl View for KeyDecoder {
    type V = Option<Seq<u8>>;

    closed spec fn view(&self) -> Option<Seq<u8>> {
        if self.escaping {
            Some(self.seen@)
        } else {
            None
        }
    }
}

impl KeyDecoder {
    #[verifier::type_invariant]
    spec fn well_formed(self) -> bool {
        if self.escaping {
            could_still_match(self.seen@)
        } else {
            self.seen@.len() == 0
        }
    }

    /// A decoder between keys.
    pub fn new() -> (decoder: KeyDecoder)
        ensures
            decoder@ is None,
    {
        KeyDecoder { escaping: false, seen: Vec::new() }
    }

    /// Whether an escape sequence is open, so that the next byte belongs to it.
    pub fn in_escape(&self) -> (open: bool)
        ensures
            open == (self@ is Some),
    {
        self.escaping
    }

    /// Takes one byte. Returns the event that it completes, or `None` where
    /// it only extends an escape sequence. Never fails, whatever the bytes:
    /// a sequence that names no key ends as `EscapeSequence(None)`.
    pub fn feed(&mut self, byte: u8) -> (event: Option<KeyEvent>)
        ensures
            (final(self)@, event) == decode_step(old(self)@, byte),
            is_decoder_state(final(self)@),
    {
        proof {
            use_type_invariant(&*self);
        }
        if self.escaping {
            let mut longer = self.seen.clone();
            longer.push(byte);
            assert(longer@ =~= old(self).seen@.push(byte));
            if FunctionKey::should_read_more(longer.as_slice()) {
                *self = KeyDecoder { escaping: true, seen: longer };
                None
            } else {
                let key = FunctionKey::from_suffix(longer.as_slice());
                *self = KeyDecoder { escaping: false, seen: Vec::new() };
                Some(KeyEvent::EscapeSequence(key))
            }
        } else if byte == ESC {
            proof {
                assert(is_proper_prefix(Seq::<u8>::empty(), FunctionKey::Up.suffix()));
            }
            *self = KeyDecoder { escaping: true, seen: Vec::new() };
            None
        } else {
            Some(classify_byte(byte))
        }
    }
}

/// The event for a byte outside an escape sequence.
pub fn classify_byte(byte: u8) -> (event: KeyEvent)
    ensures
        event == classify(byte),
{
    if byte == LF || byte == CR {
        KeyEvent::Submit
    } else if byte == BACKSPACE {
        KeyEvent::Backspace
    } else if byte == TAB {
        KeyEvent::Tab
    } else if 1 <= byte && byte <= 31 {
        KeyEvent::OtherControl
    } else {
        KeyEvent::Printable(byte)
    }
}


} // verus!
