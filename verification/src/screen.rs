//! A model of the terminal line that the editor draws on.
//!
//! The editor never moves the terminal's cursor by itself: it returns bytes
//! to echo, and the terminal reacts to them. This module says how, for the
//! two kinds of byte that the editor echoes: a text byte, which is a
//! printable ASCII character, is written under the cursor, which then moves
//! one column to the right, and a backspace byte moves the cursor one column
//! to the left and writes nothing. The model is one unbounded row that
//! starts behind the prompt. Of bytes that are neither it says nothing: a
//! terminal may draw them in no column or in several, and the guarantees
//! that rest on this model are stated for lines of text bytes only.
//!
//! Everything here is ghost code: it is what the line buffer's echo is
//! proved against.

use vstd::prelude::*;
use crate::keycode::BACKSPACE;

verus! {

/// A blank cell.
pub const SPACE: u8 = 0x20;

/// The row behind the prompt: the cells written so far, and the column of
/// the cursor.
pub struct Screen {
    pub cells: Seq<u8>,
    pub column: nat,
}

/// A byte that occupies one cell when echoed: a printable ASCII character.
pub open spec fn is_text(byte: u8) -> bool {
    0x20 <= byte < 0x7f
}

/// Every byte of `bytes` occupies one cell.
pub open spec fn all_text(bytes: Seq<u8>) -> bool {
    forall|i: int| 0 <= i < bytes.len() ==> is_text(#[trigger] bytes[i])
}

/// `count` backspace bytes.
pub open spec fn backspaces(count: nat) -> Seq<u8> {
    Seq::new(count, |i: int| BACKSPACE)
}

/// `count` blanks.
pub open spec fn spaces(count: nat) -> Seq<u8> {
    Seq::new(count, |i: int| SPACE)
}

/// The cells after `text` has been written over them from column `at` on.
pub open spec fn overwrite(cells: Seq<u8>, at: nat, text: Seq<u8>) -> Seq<u8> {
    Seq::new(
        if cells.len() >= at + text.len() {
            cells.len()
        } else {
            at + text.len()
        },
        |i: int|
            if at <= i < at + text.len() {
                text[i - at]
            } else {
                cells[i]
            },
    )
}

/// The screen after the terminal has received one byte.
pub open spec fn put(screen: Screen, byte: u8) -> Screen {
    if is_text(byte) {
        Screen { cells: overwrite(screen.cells, screen.column, seq![byte]), column: screen.column + 1 }
    } else if byte == BACKSPACE && screen.column > 0 {
        Screen { cells: screen.cells, column: (screen.column - 1) as nat }
    } else {
        screen
    }
}

/// The screen after the terminal has received `out`, byte by byte.
pub open spec fn emit(screen: Screen, out: Seq<u8>) -> Screen
    decreases out.len(),
{
    if out.len() == 0 {
        screen
    } else {
        emit(put(screen, out[0]), out.drop_first())
    }
}

/// The cells hold `text` and, behind it, nothing but blanks.
pub open spec fn reads_as(cells: Seq<u8>, text: Seq<u8>) -> bool {
    &&& text.len() <= cells.len()
    &&& forall|i: int| 0 <= i < text.len() ==> #[trigger] cells[i] == text[i]
    &&& forall|i: int| text.len() <= i < cells.len() ==> #[trigger] cells[i] == SPACE
}

/// The screen shows exactly `text`, with blanks at most behind it, and its
/// cursor stands at byte `cursor` of the text.
pub open spec fn shows(screen: Screen, text: Seq<u8>, cursor: nat) -> bool {
    &&& screen.column == cursor
    &&& cursor <= text.len()
    &&& reads_as(screen.cells, text)
}

/// Echoing two runs of bytes one after the other is echoing both at once.
pub proof fn lemma_emit_concat(screen: Screen, first: Seq<u8>, second: Seq<u8>)
    ensures
        emit(screen, first + second) == emit(emit(screen, first), second),
    decreases first.len(),
{
    if first.len() == 0 {
        assert(first + second =~= second);
    } else {
        assert((first + second).drop_first() =~= first.drop_first() + second);
        lemma_emit_concat(put(screen, first[0]), first.drop_first(), second);
    }
}

/// Text is written over the cells under the cursor, which ends behind it.
pub proof fn lemma_emit_text(screen: Screen, text: Seq<u8>)
    requires
        all_text(text),
        screen.column <= screen.cells.len(),
    ensures
        emit(screen, text) == (Screen {
            cells: overwrite(screen.cells, screen.column, text),
            column: screen.column + text.len(),
        }),
    decreases text.len(),
{
    if text.len() == 0 {
        assert(overwrite(screen.cells, screen.column, text) =~= screen.cells);
    } else {
        let next = put(screen, text[0]);
        let rest = text.drop_first();
        assert(is_text(text[0]));
        assert(all_text(rest)) by {
            assert forall|i: int| 0 <= i < rest.len() implies is_text(#[trigger] rest[i]) by {
                assert(rest[i] == text[i + 1]);
            }
        }
        lemma_emit_text(next, rest);
        assert(overwrite(next.cells, next.column, rest) =~= overwrite(
            screen.cells,
            screen.column,
            text,
        ));
    }
}

/// Backspaces move the cursor left and leave the cells alone.
pub proof fn lemma_emit_backspaces(screen: Screen, count: nat)
    requires
        count <= screen.column,
    ensures
        emit(screen, backspaces(count)) == (Screen {
            cells: screen.cells,
            column: (screen.column - count) as nat,
        }),
    decreases count,
{
    if count > 0 {
        assert(!is_text(BACKSPACE));
        assert(backspaces(count).drop_first() =~= backspaces((count - 1) as nat));
        lemma_emit_backspaces(put(screen, BACKSPACE), (count - 1) as nat);
    }
}

} // verus!
