//! The line being edited: a sequence of bytes and a cursor between them.
//!
//! `Line` is the mathematical line, with every edit as a function from line
//! to line and, beside it, the bytes that the terminal must receive so that
//! what it shows follows the edit. `LineBuffer` is the line in memory; each of
//! its operations performs the edit and returns that echo.
//!
//! The cursor never leaves the text: `0 <= cursor <= len`.

use vstd::prelude::*;
use crate::keycode::BACKSPACE;
use crate::screen::{all_text, backspaces, emit, is_text, lemma_emit_backspaces, lemma_emit_concat,
    lemma_emit_text, overwrite, reads_as, shows, spaces, Screen, SPACE};

verus! {

/// A line of text with a cursor, as a mathematical value.
pub struct Line {
    pub text: Seq<u8>,
    pub cursor: nat,
}

impl Line {
    /// The cursor stands inside the text or right behind it.
    pub open spec fn wf(self) -> bool {
        self.cursor <= self.text.len()
    }

    /// The empty line.
    pub open spec fn empty() -> Line {
        Line { text: Seq::empty(), cursor: 0 }
    }

    /// The text before the cursor.
    pub open spec fn before_cursor(self) -> Seq<u8> {
        self.text.take(self.cursor as int)
    }

    /// The text from the cursor on.
    pub open spec fn after_cursor(self) -> Seq<u8> {
        self.text.skip(self.cursor as int)
    }

    /// The same text with the cursor at `cursor`.
    pub open spec fn at(self, cursor: nat) -> Line {
        Line { text: self.text, cursor }
    }

    /// `bytes` inserted at the cursor: what stood behind moves right, and the
    /// cursor ends behind the inserted bytes.
    pub open spec fn insert(self, bytes: Seq<u8>) -> Line {
        Line {
            text: self.before_cursor() + bytes + self.after_cursor(),
            cursor: self.cursor + bytes.len(),
        }
    }

    /// The echo of `insert`: the new bytes, then the text that moved, then
    /// the way back to behind the new bytes.
    pub open spec fn insert_echo(self, bytes: Seq<u8>) -> Seq<u8> {
        bytes + self.after_cursor() + backspaces(self.after_cursor().len())
    }

    /// How many bytes `delete(count)` removes: `count`, or all that stand
    /// behind the cursor where those are fewer.
    pub open spec fn removable(self, count: nat) -> nat {
        if self.cursor + count <= self.text.len() {
            count
        } else {
            (self.text.len() - self.cursor) as nat
        }
    }

    /// `count` bytes deleted forward from the cursor, which stays.
    pub open spec fn delete(self, count: nat) -> Line {
        Line {
            text: self.before_cursor() + self.text.skip((self.cursor + self.removable(count)) as int),
            cursor: self.cursor,
        }
    }

    /// The echo of `delete`: the text that moves left, blanks over what it
    /// leaves behind, and the way back to the cursor.
    pub open spec fn delete_echo(self, count: nat) -> Seq<u8> {
        if self.removable(count) == 0 {
            Seq::empty()
        } else {
            self.text.skip((self.cursor + self.removable(count)) as int) + spaces(self.removable(count))
                + backspaces(self.after_cursor().len())
        }
    }

    /// The byte before the cursor deleted, the cursor one to the left; at the
    /// beginning of the line, nothing.
    pub open spec fn backspace(self) -> Line {
        if self.cursor == 0 {
            self
        } else {
            self.at((self.cursor - 1) as nat).delete(1)
        }
    }

    /// The echo of `backspace`.
    pub open spec fn backspace_echo(self) -> Seq<u8> {
        if self.cursor == 0 {
            Seq::empty()
        } else {
            seq![BACKSPACE] + self.at((self.cursor - 1) as nat).delete_echo(1)
        }
    }

    /// The cursor `count` bytes to the left, or at the beginning.
    pub open spec fn left(self, count: nat) -> Line {
        self.at(
            if count <= self.cursor {
                (self.cursor - count) as nat
            } else {
                0
            },
        )
    }

    /// The echo of `left`: one backspace for each byte passed.
    pub open spec fn left_echo(self, count: nat) -> Seq<u8> {
        backspaces((self.cursor - self.left(count).cursor) as nat)
    }

    /// The cursor `count` bytes to the right, or at the end.
    pub open spec fn right(self, count: nat) -> Line {
        self.at(self.cursor + self.removable(count))
    }

    /// The echo of `right`: the bytes passed, written once more.
    pub open spec fn right_echo(self, count: nat) -> Seq<u8> {
        self.text.subrange(self.cursor as int, self.right(count).cursor as int)
    }

    /// The cursor at the beginning.
    pub open spec fn home(self) -> Line {
        self.at(0)
    }

    /// The cursor at the end.
    pub open spec fn end(self) -> Line {
        self.at(self.text.len())
    }

    /// Another text in place of this one, the cursor at its end.
    pub open spec fn replace(self, text: Seq<u8>) -> Line {
        Line { text, cursor: text.len() }
    }

    /// The echo of `replace`: back to the beginning, the new text, and,
    /// where the old text was longer, blanks over the rest and the way back.
    pub open spec fn replace_echo(self, text: Seq<u8>) -> Seq<u8> {
        let surplus: nat = if self.text.len() > text.len() {
            (self.text.len() - text.len()) as nat
        } else {
            0
        };
        backspaces(self.cursor) + text + spaces(surplus) + backspaces(surplus)
    }
}

/// A terminal that shows `before` shows `after` once it has received `echo`:
/// the visible text is the buffer's text and the visible cursor stands at the
/// buffer's cursor.
pub open spec fn renders(before: Line, echo: Seq<u8>, after: Line) -> bool {
    forall|screen: Screen| #[trigger]
        shows(screen, before.text, before.cursor) ==> shows(
            emit(screen, echo),
            after.text,
            after.cursor,
        )
}

/// Every echo has one shape: some steps to the left, a run of text written
/// from there, and some steps back. Where the old text, with the run written
/// over it, reads as the new text, the screen shows the new text afterwards.
proof fn lemma_redraw(
    screen: Screen,
    old: Line,
    back: nat,
    run: Seq<u8>,
    forth: nat,
    new: Line,
)
    requires
        shows(screen, old.text, old.cursor),
        all_text(run),
        back <= old.cursor,
        forth <= run.len(),
        new.cursor == old.cursor - back + run.len() - forth,
        new.cursor <= new.text.len(),
        reads_as(overwrite(old.text, (old.cursor - back) as nat, run), new.text),
    ensures
        shows(emit(screen, backspaces(back) + run + backspaces(forth)), new.text, new.cursor),
{
    let start = (old.cursor - back) as nat;
    lemma_emit_concat(screen, backspaces(back) + run, backspaces(forth));
    lemma_emit_concat(screen, backspaces(back), run);
    lemma_emit_backspaces(screen, back);
    let moved = emit(screen, backspaces(back));
    lemma_emit_text(moved, run);
    let written = emit(moved, run);
    lemma_emit_backspaces(written, forth);
    let done = emit(written, backspaces(forth));
    let drawn = overwrite(old.text, start, run);
    assert(done.cells == overwrite(screen.cells, start, run));
    assert forall|i: int| 0 <= i < new.text.len() implies #[trigger] done.cells[i]
        == new.text[i] by {
        assert(drawn[i] == new.text[i]);
        if !(start <= i < start + run.len()) {
            assert(screen.cells[i] == old.text[i]);
        }
    }
    assert forall|i: int| new.text.len() <= i < done.cells.len() implies #[trigger] done.cells[i]
        == SPACE by {
        if i < drawn.len() {
            assert(drawn[i] == SPACE);
            if !(start <= i < start + run.len()) {
                assert(screen.cells[i] == old.text[i]);
            }
        } else {
            assert(screen.cells[i] == SPACE);
        }
    }
}

/// The echo of an insertion of text into text keeps the screen in step.
pub proof fn lemma_insert_renders(line: Line, bytes: Seq<u8>)
    requires
        line.wf(),
        all_text(line.text),
        all_text(bytes),
    ensures
        renders(line, line.insert_echo(bytes), line.insert(bytes)),
{
    let run = bytes + line.after_cursor();
    let forth = line.after_cursor().len();
    assert(line.insert_echo(bytes) =~= backspaces(0) + run + backspaces(forth));
    assert(overwrite(line.text, line.cursor, run) =~= line.insert(bytes).text);
    assert forall|screen: Screen| #[trigger]
        shows(screen, line.text, line.cursor) implies shows(
        emit(screen, line.insert_echo(bytes)),
        line.insert(bytes).text,
        line.insert(bytes).cursor,
    ) by {
        lemma_redraw(screen, line, 0, run, forth, line.insert(bytes));
    }
}

/// The echo of a deletion keeps the screen in step.
pub proof fn lemma_delete_renders(line: Line, count: nat)
    requires
        line.wf(),
        all_text(line.text),
    ensures
        renders(line, line.delete_echo(count), line.delete(count)),
{
    let gone = line.removable(count);
    let after = line.delete(count);
    if gone == 0 {
        assert(after.text =~= line.text);
        assert(line.delete_echo(count) =~= backspaces(0) + Seq::<u8>::empty() + backspaces(0));
        assert(overwrite(line.text, line.cursor, Seq::<u8>::empty()) =~= line.text);
        assert forall|screen: Screen| #[trigger]
            shows(screen, line.text, line.cursor) implies shows(
            emit(screen, line.delete_echo(count)),
            after.text,
            after.cursor,
        ) by {
            lemma_redraw(screen, line, 0, Seq::<u8>::empty(), 0, after);
        }
    } else {
        let run = line.text.skip((line.cursor + gone) as int) + spaces(gone);
        let forth = line.after_cursor().len();
        assert(line.delete_echo(count) =~= backspaces(0) + run + backspaces(forth));
        assert(overwrite(line.text, line.cursor, run) =~= after.text + spaces(gone));
        assert forall|screen: Screen| #[trigger]
            shows(screen, line.text, line.cursor) implies shows(
            emit(screen, line.delete_echo(count)),
            after.text,
            after.cursor,
        ) by {
            lemma_redraw(screen, line, 0, run, forth, after);
        }
    }
}

/// The echo of a backspace keeps the screen in step.
pub proof fn lemma_backspace_renders(line: Line)
    requires
        line.wf(),
        all_text(line.text),
    ensures
        renders(line, line.backspace_echo(), line.backspace()),
{
    let after = line.backspace();
    if line.cursor == 0 {
        assert(line.backspace_echo() =~= backspaces(0) + Seq::<u8>::empty() + backspaces(0));
        assert(overwrite(line.text, line.cursor, Seq::<u8>::empty()) =~= line.text);
        assert forall|screen: Screen| #[trigger]
            shows(screen, line.text, line.cursor) implies shows(
            emit(screen, line.backspace_echo()),
            after.text,
            after.cursor,
        ) by {
            lemma_redraw(screen, line, 0, Seq::<u8>::empty(), 0, after);
        }
    } else {
        let start = (line.cursor - 1) as nat;
        let run = line.after_cursor() + spaces(1);
        let forth = line.after_cursor().len() + 1;
        assert(line.backspace_echo() =~= backspaces(1) + run + backspaces(forth));
        assert(overwrite(line.text, start, run) =~= after.text + spaces(1));
        assert forall|screen: Screen| #[trigger]
            shows(screen, line.text, line.cursor) implies shows(
            emit(screen, line.backspace_echo()),
            after.text,
            after.cursor,
        ) by {
            lemma_redraw(screen, line, 1, run, forth, after);
        }
    }
}

/// The echo of a move to the left keeps the screen in step.
pub proof fn lemma_left_renders(line: Line, count: nat)
    requires
        line.wf(),
        all_text(line.text),
    ensures
        renders(line, line.left_echo(count), line.left(count)),
{
    let after = line.left(count);
    let back = (line.cursor - after.cursor) as nat;
    assert(line.left_echo(count) =~= backspaces(back) + Seq::<u8>::empty() + backspaces(0));
    assert(overwrite(line.text, after.cursor, Seq::<u8>::empty()) =~= line.text);
    assert forall|screen: Screen| #[trigger]
        shows(screen, line.text, line.cursor) implies shows(
        emit(screen, line.left_echo(count)),
        after.text,
        after.cursor,
    ) by {
        lemma_redraw(screen, line, back, Seq::<u8>::empty(), 0, after);
    }
}

/// The echo of a move to the right keeps the screen in step.
pub proof fn lemma_right_renders(line: Line, count: nat)
    requires
        line.wf(),
        all_text(line.text),
    ensures
        renders(line, line.right_echo(count), line.right(count)),
{
    let after = line.right(count);
    let run = line.right_echo(count);
    assert(run =~= backspaces(0) + run + backspaces(0));
    assert(overwrite(line.text, line.cursor, run) =~= line.text);
    assert forall|screen: Screen| #[trigger]
        shows(screen, line.text, line.cursor) implies shows(
        emit(screen, line.right_echo(count)),
        after.text,
        after.cursor,
    ) by {
        lemma_redraw(screen, line, 0, run, 0, after);
    }
}

/// The echo of a replacement keeps the screen in step.
pub proof fn lemma_replace_renders(line: Line, text: Seq<u8>)
    requires
        line.wf(),
        all_text(line.text),
        all_text(text),
    ensures
        renders(line, line.replace_echo(text), line.replace(text)),
{
    let after = line.replace(text);
    let surplus: nat = if line.text.len() > text.len() {
        (line.text.len() - text.len()) as nat
    } else {
        0
    };
    let run = text + spaces(surplus);
    assert(line.replace_echo(text) =~= backspaces(line.cursor) + run + backspaces(surplus));
    assert(overwrite(line.text, 0, run) =~= run);
    assert forall|screen: Screen| #[trigger]
        shows(screen, line.text, line.cursor) implies shows(
        emit(screen, line.replace_echo(text)),
        after.text,
        after.cursor,
    ) by {
        lemma_redraw(screen, line, line.cursor, run, surplus, after);
    }
}

/// Inserting bytes at the cursor, stepping back over them and deleting as
/// many bytes as were inserted gives the line that was there before: the
/// same text and the same cursor.
pub proof fn lemma_insert_then_delete(line: Line, bytes: Seq<u8>)
    requires
        line.wf(),
    ensures
        line.insert(bytes).left(bytes.len()).delete(bytes.len()) == line,
        line.insert(bytes).at(line.cursor).delete(bytes.len()) == line,
{
    let back = line.insert(bytes).left(bytes.len());
    assert(back == line.insert(bytes).at(line.cursor));
    assert(back.delete(bytes.len()).text =~= line.text);
}

/// No edit moves the cursor out of the text.
pub proof fn lemma_edits_keep_cursor_in_text(line: Line, bytes: Seq<u8>, count: nat)
    requires
        line.wf(),
    ensures
        line.insert(bytes).wf(),
        line.delete(count).wf(),
        line.backspace().wf(),
        line.left(count).wf(),
        line.right(count).wf(),
        line.home().wf(),
        line.end().wf(),
        line.replace(bytes).wf(),
{
}


/// Two echoes in a row do what each does in turn.
pub proof fn lemma_renders_chain(first: Line, echo: Seq<u8>, second: Line, more: Seq<u8>, third: Line)
    requires
        renders(first, echo, second),
        renders(second, more, third),
    ensures
        renders(first, echo + more, third),
{
    assert forall|screen: Screen| #[trigger]
        shows(screen, first.text, first.cursor) implies shows(
        emit(screen, echo + more),
        third.text,
        third.cursor,
    ) by {
        lemma_emit_concat(screen, echo, more);
        assert(shows(emit(screen, echo), second.text, second.cursor));
    }
}

/// Edits of text with text give text: no edit brings a byte into the line
/// that was not in it or handed in.
pub proof fn lemma_edits_keep_text(line: Line, bytes: Seq<u8>, count: nat)
    requires
        line.wf(),
        all_text(line.text),
        all_text(bytes),
    ensures
        all_text(line.insert(bytes).text),
        all_text(line.delete(count).text),
        all_text(line.backspace().text),
{
    assert forall|i: int| 0 <= i < line.insert(bytes).text.len() implies is_text(
        #[trigger] line.insert(bytes).text[i],
    ) by {
        if i < line.cursor {
            assert(line.insert(bytes).text[i] == line.text[i]);
        } else if i < line.cursor + bytes.len() {
            assert(line.insert(bytes).text[i] == bytes[i - line.cursor]);
        } else {
            assert(line.insert(bytes).text[i] == line.text[i - bytes.len()]);
        }
    }
    assert forall|i: int| 0 <= i < line.delete(count).text.len() implies is_text(
        #[trigger] line.delete(count).text[i],
    ) by {
        if i < line.cursor {
            assert(line.delete(count).text[i] == line.text[i]);
        } else {
            assert(line.delete(count).text[i] == line.text[i + line.removable(count)]);
        }
    }
    if line.cursor > 0 {
        let back = line.at((line.cursor - 1) as nat);
        assert forall|i: int| 0 <= i < back.delete(1).text.len() implies is_text(
            #[trigger] back.delete(1).text[i],
        ) by {
            if i < back.cursor {
                assert(back.delete(1).text[i] == line.text[i]);
            } else {
                assert(back.delete(1).text[i] == line.text[i + 1]);
            }
        }
    }
}

/// Appends `src[from..to]` to `out`.
fn append_range(out: &mut Vec<u8>, src: &[u8], from: usize, to: usize)
    requires
        from <= to <= src@.len(),
    ensures
        final(out)@ == old(out)@ + src@.subrange(from as int, to as int),
{
    let mut i: usize = from;
    while i < to
        invariant
            from <= i <= to <= src@.len(),
            out@ == old(out)@ + src@.subrange(from as int, i as int),
        decreases to - i,
    {
        out.push(src[i]);
        i += 1;
        assert(out@ =~= old(out)@ + src@.subrange(from as int, i as int));
    }
}

/// Appends `count` copies of `byte` to `out`.
fn append_repeated(out: &mut Vec<u8>, byte: u8, count: usize)
    ensures
        final(out)@ == old(out)@ + Seq::new(count as nat, |i: int| byte),
{
    let mut i: usize = 0;
    assert(out@ =~= old(out)@ + Seq::new(0, |i: int| byte));
    while i < count
        invariant
            i <= count,
            out@ == old(out)@ + Seq::new(i as nat, |j: int| byte),
        decreases count - i,
    {
        out.push(byte);
        i += 1;
        assert(out@ =~= old(out)@ + Seq::new(i as nat, |j: int| byte));
    }
}

/// The line in memory.
pub struct LineBuffer {
    bytes: Vec<u8>,
    cursor: usize,
}

impl View for LineBuffer {
    type V = Line;

    closed spec fn view(&self) -> Line {
        Line { text: self.bytes@, cursor: self.cursor as nat }
    }
}

impl LineBuffer {
    #[verifier::type_invariant]
    spec fn cursor_in_text(self) -> bool {
        self.cursor <= self.bytes@.len()
    }

    /// An empty line.
    pub fn new() -> (line: LineBuffer)
        ensures
            line@ == Line::empty(),
    {
        LineBuffer { bytes: Vec::new(), cursor: 0 }
    }

    /// A line that holds `bytes`, the cursor at its end.
    pub fn from_bytes(bytes: Vec<u8>) -> (line: LineBuffer)
        ensures
            line@ == Line::empty().replace(bytes@),
    {
        let cursor: usize = bytes.len();
        LineBuffer { bytes, cursor }
    }

    /// The text.
    pub fn as_slice(&self) -> (text: &[u8])
        ensures
            text@ == self@.text,
            self@.wf(),
    {
        proof {
            use_type_invariant(self);
        }
        self.bytes.as_slice()
    }

    /// A copy of the text.
    pub fn to_vec(&self) -> (text: Vec<u8>)
        ensures
            text@ == self@.text,
    {
        let mut text: Vec<u8> = Vec::new();
        append_range(&mut text, self.bytes.as_slice(), 0, self.bytes.len());
        assert(text@ =~= self.bytes@);
        text
    }

    /// The number of bytes in the text.
    pub fn len(&self) -> (len: usize)
        ensures
            len == self@.text.len(),
    {
        self.bytes.len()
    }

    /// Whether the text is empty.
    pub fn is_empty(&self) -> (empty: bool)
        ensures
            empty == (self@.text.len() == 0),
    {
        self.bytes.len() == 0
    }

    /// The cursor: the number of bytes before it.
    pub fn cursor(&self) -> (cursor: usize)
        ensures
            cursor == self@.cursor,
            cursor <= self@.text.len(),
    {
        proof {
            use_type_invariant(self);
        }
        self.cursor
    }

    /// Inserts `bytes` at the cursor and returns the echo.
    pub fn insert(&mut self, bytes: &[u8]) -> (echo: Vec<u8>)
        ensures
            final(self)@ == old(self)@.insert(bytes@),
            echo@ == old(self)@.insert_echo(bytes@),
            final(self)@.wf(),
    {
        proof {
            use_type_invariant(&*self);
        }
        let at: usize = self.cursor;
        let len: usize = self.bytes.len();
        let mut text: Vec<u8> = Vec::new();
        append_range(&mut text, self.bytes.as_slice(), 0, at);
        append_range(&mut text, bytes, 0, bytes.len());
        append_range(&mut text, self.bytes.as_slice(), at, len);
        let mut echo: Vec<u8> = Vec::new();
        append_range(&mut echo, bytes, 0, bytes.len());
        append_range(&mut echo, self.bytes.as_slice(), at, len);
        append_repeated(&mut echo, BACKSPACE, len - at);
        proof {
            assert(bytes@.subrange(0, bytes@.len() as int) =~= bytes@);
            assert(text@ =~= old(self)@.insert(bytes@).text);
            assert(echo@ =~= old(self)@.insert_echo(bytes@));
        }
        let cursor: usize = text.len() - (len - at);
        *self = LineBuffer { bytes: text, cursor };
        echo
    }

    /// Deletes `count` bytes forward from the cursor, or all that stand
    /// behind it where those are fewer, and returns the echo.
    pub fn delete(&mut self, count: usize) -> (echo: Vec<u8>)
        ensures
            final(self)@ == old(self)@.delete(count as nat),
            echo@ == old(self)@.delete_echo(count as nat),
            final(self)@.wf(),
    {
        proof {
            use_type_invariant(&*self);
        }
        let at: usize = self.cursor;
        let len: usize = self.bytes.len();
        let gone: usize = if count <= len - at {
            count
        } else {
            len - at
        };
        let mut echo: Vec<u8> = Vec::new();
        if gone == 0 {
            assert(self@.delete(count as nat).text =~= self@.text);
            return echo;
        }
        let mut text: Vec<u8> = Vec::new();
        append_range(&mut text, self.bytes.as_slice(), 0, at);
        append_range(&mut text, self.bytes.as_slice(), at + gone, len);
        append_range(&mut echo, self.bytes.as_slice(), at + gone, len);
        append_repeated(&mut echo, SPACE, gone);
        append_repeated(&mut echo, BACKSPACE, len - at);
        proof {
            assert(text@ =~= old(self)@.delete(count as nat).text);
            assert(echo@ =~= old(self)@.delete_echo(count as nat));
        }
        *self = LineBuffer { bytes: text, cursor: at };
        echo
    }

    /// Deletes the byte before the cursor and returns the echo. At the
    /// beginning of the line there is nothing to delete and nothing to echo.
    pub fn backspace(&mut self) -> (echo: Vec<u8>)
        ensures
            final(self)@ == old(self)@.backspace(),
            echo@ == old(self)@.backspace_echo(),
            final(self)@.wf(),
    {
        proof {
            use_type_invariant(&*self);
        }
        let mut echo: Vec<u8> = Vec::new();
        if self.cursor == 0 {
            return echo;
        }
        self.cursor = self.cursor - 1;
        echo.push(BACKSPACE);
        let mut rest = self.delete(1);
        echo.append(&mut rest);
        echo
    }

    /// Moves the cursor `count` bytes to the left, no further than the
    /// beginning, and returns the echo.
    pub fn cursor_left(&mut self, count: usize) -> (echo: Vec<u8>)
        ensures
            final(self)@ == old(self)@.left(count as nat),
            echo@ == old(self)@.left_echo(count as nat),
            final(self)@.wf(),
    {
        proof {
            use_type_invariant(&*self);
        }
        let steps: usize = if count <= self.cursor {
            count
        } else {
            self.cursor
        };
        let mut echo: Vec<u8> = Vec::new();
        append_repeated(&mut echo, BACKSPACE, steps);
        self.cursor = self.cursor - steps;
        assert(echo@ =~= old(self)@.left_echo(count as nat));
        echo
    }

    /// Moves the cursor `count` bytes to the right, no further than the end,
    /// and returns the echo.
    pub fn cursor_right(&mut self, count: usize) -> (echo: Vec<u8>)
        ensures
            final(self)@ == old(self)@.right(count as nat),
            echo@ == old(self)@.right_echo(count as nat),
            final(self)@.wf(),
    {
        proof {
            use_type_invariant(&*self);
        }
        let at: usize = self.cursor;
        let steps: usize = if count <= self.bytes.len() - at {
            count
        } else {
            self.bytes.len() - at
        };
        let mut echo: Vec<u8> = Vec::new();
        append_range(&mut echo, self.bytes.as_slice(), at, at + steps);
        self.cursor = at + steps;
        assert(echo@ =~= old(self)@.right_echo(count as nat));
        echo
    }

    /// Moves the cursor to the beginning and returns the echo.
    pub fn home(&mut self) -> (echo: Vec<u8>)
        ensures
            final(self)@ == old(self)@.home(),
            echo@ == old(self)@.left_echo(old(self)@.cursor),
            final(self)@.wf(),
    {
        let steps: usize = self.cursor();
        self.cursor_left(steps)
    }

    /// Moves the cursor to the end and returns the echo.
    pub fn end(&mut self) -> (echo: Vec<u8>)
        ensures
            final(self)@ == old(self)@.end(),
            echo@ == old(self)@.right_echo(old(self)@.after_cursor().len()),
            final(self)@.wf(),
    {
        proof {
            use_type_invariant(&*self);
        }
        let steps: usize = self.bytes.len() - self.cursor;
        self.cursor_right(steps)
    }

    /// Puts `text` in place of the line's text, the cursor at its end, and
    /// returns the echo. This is how a line of the history comes up.
    pub fn change_line(&mut self, text: Vec<u8>) -> (echo: Vec<u8>)
        ensures
            final(self)@ == old(self)@.replace(text@),
            echo@ == old(self)@.replace_echo(text@),
            final(self)@.wf(),
    {
        proof {
            use_type_invariant(&*self);
        }
        let len: usize = self.bytes.len();
        let surplus: usize = if len > text.len() {
            len - text.len()
        } else {
            0
        };
        let mut echo: Vec<u8> = Vec::new();
        append_repeated(&mut echo, BACKSPACE, self.cursor);
        append_range(&mut echo, text.as_slice(), 0, text.len());
        append_repeated(&mut echo, SPACE, surplus);
        append_repeated(&mut echo, BACKSPACE, surplus);
        proof {
            assert(text@.subrange(0, text@.len() as int) =~= text@);
            assert(echo@ =~= old(self)@.replace_echo(text@));
        }
        let cursor: usize = text.len();
        *self = LineBuffer { bytes: text, cursor };
        echo
    }
}


} // verus!
