//! The line editor: terminal bytes in, edits, echoes and submitted lines out.
//!
//! The editor is a state machine. Its state is the line being edited, the
//! history with the place that browsing has reached in it, and the key
//! decoder. Its input is one byte from the terminal. Its output is a step:
//! bytes to echo, a submitted line with what is to be done with it, or a
//! request for completion candidates, which the caller answers with
//! `apply_completion`.
//!
//! Recall is by copy. The history's entries are never edited: an entry that
//! comes up is copied into the line, and edits to that copy are given up
//! when browsing moves on, or submitted as a new line. Only the line in
//! progress is kept while browsing is away from it, in the sentinel, so that
//! browsing down past the newest entry comes back to it.

use vstd::prelude::*;
use vstd::utf8::encode_utf8;
use crate::completion::{asks_completion, fragments_of, namespace_of, request, unquoted,
    CompletionRequest, Namespace};
use crate::history::{file_record, navigated, recorded, records, Direction, HistoryStore};
use crate::keycode::{decode_step, is_decoder_state, FunctionKey, KeyDecoder, KeyEvent};
use crate::line_buffer::{lemma_backspace_renders, lemma_delete_renders, lemma_edits_keep_text,
    lemma_insert_renders, lemma_left_renders, lemma_renders_chain, lemma_replace_renders,
    lemma_right_renders, renders, Line, LineBuffer};
use crate::paint::{candidate_listing, lists};
use crate::screen::{all_text, is_text, SPACE};

verus! {

/// The editor as a mathematical value.
pub struct EditorState {
    /// The line being edited.
    pub line: Line,
    /// The history's entries, oldest first.
    pub committed: Seq<Seq<u8>>,
    /// What the sentinel keeps: the line in progress, as it was when
    /// browsing left it.
    pub draft: Seq<u8>,
    /// The place of browsing: an index into the entries, or their number
    /// where the line in progress is being edited.
    pub index: nat,
    /// The key decoder's state.
    pub decoder: Option<Seq<u8>>,
}

/// What the editor hands back for one byte, as a mathematical value.
pub enum Outcome {
    /// Bytes for the terminal; none where nothing changed on the screen.
    Echo(Seq<u8>),
    /// The line is complete.
    Submit {
        /// The line.
        line: Seq<u8>,
        /// What the history file gains, where the line is recorded.
        record: Option<Seq<u8>>,
        /// Whether the line is to be parsed and run: it is unless it is
        /// empty or all spaces.
        execute: bool,
    },
    /// Candidates are wanted.
    Complete {
        namespace: Namespace,
        /// The length of the token that a single candidate replaces.
        token_len: nat,
        /// The bytes that candidates must begin with.
        fragment: Seq<u8>,
    },
}

/// Whether a line is nothing but spaces.
pub open spec fn is_blank(text: Seq<u8>) -> bool {
    forall|i: int| 0 <= i < text.len() ==> text[i] == SPACE
}

impl EditorState {
    /// The cursor is in the line, browsing is in the history, and the
    /// decoder is in one of its states.
    pub open spec fn wf(self) -> bool {
        &&& self.line.wf()
        &&& self.index <= self.committed.len()
        &&& is_decoder_state(self.decoder)
    }

    /// The editor at the beginning of a line.
    pub open spec fn fresh(committed: Seq<Seq<u8>>) -> EditorState {
        EditorState {
            line: Line::empty(),
            committed,
            draft: Seq::empty(),
            index: committed.len(),
            decoder: None,
        }
    }

    /// The same editor with another line.
    pub open spec fn with_line(self, line: Line) -> EditorState {
        EditorState { line, ..self }
    }

    /// Browsing moved to `to`. The line in progress is kept when it is left;
    /// what stands at `to` is copied into the line.
    pub open spec fn recall(self, to: nat) -> EditorState {
        let draft = if self.index == self.committed.len() {
            self.line.text
        } else {
            self.draft
        };
        let shown = if to < self.committed.len() {
            self.committed[to as int]
        } else {
            draft
        };
        EditorState { line: self.line.replace(shown), draft, index: to, ..self }
    }

    /// The echo of `recall`.
    pub open spec fn recall_echo(self, to: nat) -> Seq<u8> {
        self.line.replace_echo(self.recall(to).line.text)
    }

    /// One step of browsing. The index moves by one inside the history and
    /// its sentinel; where it cannot move, nothing happens.
    pub open spec fn browse(self, direction: Direction) -> (EditorState, Seq<u8>) {
        let reached = navigated(self.committed.len() + 1, direction, self.index);
        if reached == self.index {
            (self, Seq::empty())
        } else {
            (self.recall(reached), self.recall_echo(reached))
        }
    }

    /// What a function key does.
    pub open spec fn press(self, key: FunctionKey) -> (EditorState, Seq<u8>) {
        match key {
            FunctionKey::Up => self.browse(Direction::Older),
            FunctionKey::Down => self.browse(Direction::Newer),
            FunctionKey::Left => (self.with_line(self.line.left(1)), self.line.left_echo(1)),
            FunctionKey::Right => (self.with_line(self.line.right(1)), self.line.right_echo(1)),
            FunctionKey::Home => (
                self.with_line(self.line.home()),
                self.line.left_echo(self.line.cursor),
            ),
            FunctionKey::End => (
                self.with_line(self.line.end()),
                self.line.right_echo(self.line.after_cursor().len()),
            ),
            FunctionKey::Delete => (self.with_line(self.line.delete(1)), self.line.delete_echo(1)),
        }
    }

    /// What a submitted line comes to, and the editor for the next line.
    pub open spec fn submit(self) -> (EditorState, Outcome) {
        let text = self.line.text;
        (
            EditorState::fresh(recorded(self.committed, text)),
            Outcome::Submit {
                line: text,
                record: if records(self.committed, text) {
                    Some(file_record(text))
                } else {
                    None
                },
                execute: !is_blank(text),
            },
        )
    }

    /// What the tab key asks for.
    pub open spec fn tab(self) -> Outcome {
        let text = self.line.before_cursor();
        if asks_completion(text) {
            let tokens = fragments_of(text)->0;
            Outcome::Complete {
                namespace: namespace_of(tokens.len()),
                token_len: tokens.last().len(),
                fragment: unquoted(tokens.last()),
            }
        } else {
            Outcome::Echo(Seq::empty())
        }
    }

    /// What a key event does.
    pub open spec fn handle(self, event: KeyEvent) -> (EditorState, Outcome) {
        match event {
            KeyEvent::Printable(byte) => (
                self.with_line(self.line.insert(seq![byte])),
                Outcome::Echo(self.line.insert_echo(seq![byte])),
            ),
            KeyEvent::Submit => self.submit(),
            KeyEvent::Backspace => (
                self.with_line(self.line.backspace()),
                Outcome::Echo(self.line.backspace_echo()),
            ),
            KeyEvent::Tab => (self, self.tab()),
            KeyEvent::EscapeSequence(Some(key)) => (
                self.press(key).0,
                Outcome::Echo(self.press(key).1),
            ),
            KeyEvent::EscapeSequence(None) => (self, Outcome::Echo(Seq::empty())),
            KeyEvent::OtherControl => (self, Outcome::Echo(Seq::empty())),
        }
    }

    /// The editor's step: the byte goes through the decoder, and the event
    /// that it completes, if any, is handled.
    pub open spec fn step(self, byte: u8) -> (EditorState, Outcome) {
        let (decoder, event) = decode_step(self.decoder, byte);
        let decoded = EditorState { decoder, ..self };
        match event {
            Some(event) => decoded.handle(event),
            None => (decoded, Outcome::Echo(Seq::empty())),
        }
    }

    /// One candidate in place of the token before the cursor.
    pub open spec fn replace_token(self, token_len: nat, text: Seq<u8>) -> EditorState {
        self.with_line(self.line.left(token_len).delete(token_len).insert(text))
    }

    /// The echo of `replace_token`.
    pub open spec fn replace_token_echo(self, token_len: nat, text: Seq<u8>) -> Seq<u8> {
        self.line.left_echo(token_len) + self.line.left(token_len).delete_echo(token_len)
            + self.line.left(token_len).delete(token_len).insert_echo(text)
    }
}

/// Every line that the editor holds is text: the line being edited, the
/// line in progress that the sentinel keeps, and every entry of the history.
pub open spec fn displayable(state: EditorState) -> bool {
    &&& all_text(state.line.text)
    &&& all_text(state.draft)
    &&& forall|i: int| 0 <= i < state.committed.len() ==> all_text(#[trigger] state.committed[i])
}

/// The echo of a step keeps the terminal in step with the line: where the
/// editor holds text and the key inserts text, a terminal that showed the
/// line before the step shows, after the echo, the line after the step,
/// with its cursor where the line's cursor is. And the editor still holds
/// text.
pub proof fn lemma_step_renders(state: EditorState, byte: u8)
    requires
        state.wf(),
        displayable(state),
        decode_step(state.decoder, byte).1 matches Some(KeyEvent::Printable(typed)) ==> is_text(
            typed,
        ),
    ensures
        state.step(byte).1 matches Outcome::Echo(echo) ==> renders(
            state.line,
            echo,
            state.step(byte).0.line,
        ) && displayable(state.step(byte).0),
{
    let line = state.line;
    lemma_left_renders(line, 0);
    assert(line.left_echo(0) =~= Seq::<u8>::empty());
    assert(renders(line, Seq::<u8>::empty(), line));
    match decode_step(state.decoder, byte).1 {
        Some(KeyEvent::Printable(typed)) => {
            lemma_insert_renders(line, seq![typed]);
            lemma_edits_keep_text(line, seq![typed], 0);
        },
        Some(KeyEvent::Backspace) => {
            lemma_backspace_renders(line);
            lemma_edits_keep_text(line, Seq::empty(), 0);
        },
        Some(KeyEvent::EscapeSequence(Some(key))) => {
            lemma_press_renders(state, key);
        },
        _ => {},
    }
}

/// The echo of a function key keeps the terminal in step with the line.
pub proof fn lemma_press_renders(state: EditorState, key: FunctionKey)
    requires
        state.line.wf(),
        state.index <= state.committed.len(),
        displayable(state),
    ensures
        renders(state.line, state.press(key).1, state.press(key).0.line),
        displayable(state.press(key).0),
{
    let line = state.line;
    match key {
        FunctionKey::Left => {
            lemma_left_renders(line, 1);
        },
        FunctionKey::Right => {
            lemma_right_renders(line, 1);
        },
        FunctionKey::Home => {
            lemma_left_renders(line, line.cursor);
        },
        FunctionKey::End => {
            lemma_right_renders(line, line.after_cursor().len());
        },
        FunctionKey::Delete => {
            lemma_delete_renders(line, 1);
            lemma_edits_keep_text(line, Seq::empty(), 1);
        },
        _ => {
            let direction = if key == FunctionKey::Up {
                Direction::Older
            } else {
                Direction::Newer
            };
            let reached = navigated(state.committed.len() + 1, direction, state.index);
            if reached == state.index {
                lemma_left_renders(line, 0);
                assert(line.left_echo(0) =~= Seq::<u8>::empty());
            } else {
                lemma_replace_renders(line, state.recall(reached).line.text);
            }
        },
    }
}

/// The echo of a single candidate's way into the line keeps the terminal in
/// step with the line.
pub proof fn lemma_replace_token_renders(state: EditorState, token_len: nat, text: Seq<u8>)
    requires
        state.line.wf(),
        all_text(state.line.text),
        all_text(text),
    ensures
        renders(
            state.line,
            state.replace_token_echo(token_len, text),
            state.replace_token(token_len, text).line,
        ),
        all_text(state.replace_token(token_len, text).line.text),
{
    let line = state.line;
    let moved = line.left(token_len);
    let cut = moved.delete(token_len);
    lemma_left_renders(line, token_len);
    lemma_delete_renders(moved, token_len);
    lemma_edits_keep_text(moved, text, token_len);
    lemma_insert_renders(cut, text);
    lemma_edits_keep_text(cut, text, 0);
    lemma_renders_chain(line, line.left_echo(token_len), moved, moved.delete_echo(token_len), cut);
    lemma_renders_chain(
        line,
        line.left_echo(token_len) + moved.delete_echo(token_len),
        cut,
        cut.insert_echo(text),
        cut.insert(text),
    );
}

/// Editing and browsing leave the history as it is: its entries change only
/// when a line is submitted, and then by `recorded`.
pub proof fn lemma_history_changes_on_submit_only(state: EditorState, byte: u8)
    ensures
        match state.step(byte).1 {
            Outcome::Submit { line, record, execute } => state.step(byte).0.committed == recorded(
                state.committed,
                line,
            ) && line == state.line.text,
            _ => state.step(byte).0.committed == state.committed,
        },
{
}

/// Every step leads from a well-formed editor to a well-formed editor: the
/// cursor stays in the line and browsing stays in the history.
pub proof fn lemma_step_keeps_wf(state: EditorState, byte: u8)
    requires
        state.wf(),
    ensures
        state.step(byte).0.wf(),
{
    crate::keycode::lemma_step_keeps_state(state.decoder, byte);
}

/// A submitted line and what is to be done with it.
#[derive(Debug, PartialEq, Eq)]
pub struct Submission {
    /// The line.
    pub line: Vec<u8>,
    /// The bytes to append to the history file, where the line is recorded.
    pub record: Option<Vec<u8>>,
    /// Whether the line is to be parsed and run.
    pub execute: bool,
}

/// What the editor hands back for one byte.
#[derive(Debug, PartialEq, Eq)]
pub enum Step {
    /// Bytes for the terminal; none where nothing changed on the screen.
    Echo(Vec<u8>),
    /// The line is complete, and the editor is ready for the next one.
    Submit(Submission),
    /// Candidates are wanted: find them and call `apply_completion`.
    Complete(CompletionRequest),
}

impl View for Step {
    type V = Outcome;

    open spec fn view(&self) -> Outcome {
        match *self {
            Step::Echo(echo) => Outcome::Echo(echo@),
            Step::Submit(submission) => Outcome::Submit {
                line: submission.line@,
                record: match submission.record {
                    Some(record) => Some(record@),
                    None => None,
                },
                execute: submission.execute,
            },
            Step::Complete(asked) => Outcome::Complete {
                namespace: asked.namespace,
                token_len: asked.token_len as nat,
                fragment: encode_utf8(asked.fragment@),
            },
        }
    }
}

/// What became of a completion.
#[derive(Debug, PartialEq, Eq)]
pub enum Completed {
    /// No candidate: nothing changed.
    Nothing,
    /// One candidate: it stands in the line in place of the token, and these
    /// bytes are the echo.
    Replaced(Vec<u8>),
    /// Several candidates: the cursor went to the end of the line.
    Listed {
        /// The echo of the cursor's move.
        echo: Vec<u8>,
        /// The candidates, to be shown on a line of their own.
        listing: String,
        /// The line's text, to be shown again behind a new prompt.
        line: Vec<u8>,
    },
}

/// Whether `text` is nothing but spaces.
pub fn all_spaces(text: &[u8]) -> (blank: bool)
    ensures
        blank == is_blank(text@),
{
    let mut i: usize = 0;
    while i < text.len()
        invariant
            i <= text@.len(),
            forall|j: int| 0 <= j < i ==> text@[j] == SPACE,
        decreases text@.len() - i,
    {
        if text[i] != SPACE {
            return false;
        }
        i += 1;
    }
    true
}

/// The line editor.
pub struct Editor {
    line: LineBuffer,
    history: HistoryStore,
    index: usize,
    decoder: KeyDecoder,
}

impl View for Editor {
    type V = EditorState;

    closed spec fn view(&self) -> EditorState {
        EditorState {
            line: self.line@,
            committed: self.history@.drop_last(),
            draft: self.history@.last(),
            index: self.index as nat,
            decoder: self.decoder@,
        }
    }
}

impl Editor {
    #[verifier::type_invariant]
    spec fn well_formed(self) -> bool {
        &&& self.history@.len() > 0
        &&& self.index < self.history@.len()
        &&& self.line@.wf()
        &&& is_decoder_state(self.decoder@)
    }

    /// An editor at the beginning of a line, over the history so far.
    pub fn new(history: HistoryStore) -> (editor: Editor)
        ensures
            editor@ == EditorState::fresh(history@),
            editor@.wf(),
    {
        let ghost committed = history@;
        let mut store = history;
        let index: usize = store.push_sentinel();
        let editor = Editor {
            line: LineBuffer::new(),
            history: store,
            index,
            decoder: KeyDecoder::new(),
        };
        assert(editor.history@.drop_last() =~= committed);
        editor
    }

    /// A copy of the line's text.
    pub fn text(&self) -> (text: Vec<u8>)
        ensures
            text@ == self@.line.text,
    {
        self.line.to_vec()
    }

    /// The cursor: the number of bytes of the line before it.
    pub fn cursor(&self) -> (cursor: usize)
        ensures
            cursor == self@.line.cursor,
            self@.wf(),
    {
        proof {
            use_type_invariant(self);
        }
        self.line.cursor()
    }

    /// The number of entries in the history.
    pub fn history_len(&self) -> (len: usize)
        ensures
            len == self@.committed.len(),
    {
        proof {
            use_type_invariant(self);
        }
        self.history.len() - 1
    }

    /// A copy of the history's entry at `index`, `None` where it has none.
    pub fn history_entry(&self, index: usize) -> (entry: Option<Vec<u8>>)
        ensures
            index < self@.committed.len() ==> entry is Some && entry->0@
                == self@.committed[index as int],
            index >= self@.committed.len() ==> entry is None,
    {
        proof {
            use_type_invariant(self);
        }
        if index < self.history.len() - 1 {
            self.history.get(index)
        } else {
            None
        }
    }

    /// Takes one byte from the terminal. Returns the editor after it and
    /// what the caller is to do.
    pub fn feed(self, byte: u8) -> (next: (Editor, Step))
        ensures
            (next.0@, next.1@) == self@.step(byte),
            next.0@.wf(),
    {
        proof {
            use_type_invariant(&self);
        }
        let Editor { line, history, index, decoder } = self;
        let mut decoder = decoder;
        let event = decoder.feed(byte);
        let decoded = Editor { line, history, index, decoder };
        match event {
            Some(event) => decoded.handle(event),
            None => {
                proof {
                    use_type_invariant(&decoded);
                }
                let step = Step::Echo(Vec::new());
                assert(step->Echo_0@ =~= Seq::<u8>::empty());
                (decoded, step)
            },
        }
    }

    /// Handles one key event.
    pub fn handle(self, event: KeyEvent) -> (next: (Editor, Step))
        ensures
            (next.0@, next.1@) == self@.handle(event),
            next.0@.wf(),
    {
        proof {
            use_type_invariant(&self);
        }
        match event {
            KeyEvent::Printable(byte) => {
                let mut one: Vec<u8> = Vec::new();
                one.push(byte);
                assert(one@ =~= seq![byte]);
                let Editor { line, history, index, decoder } = self;
                let mut line = line;
                let echo = line.insert(one.as_slice());
                (Editor { line, history, index, decoder }, Step::Echo(echo))
            },
            KeyEvent::Submit => self.submit(),
            KeyEvent::Backspace => {
                let Editor { line, history, index, decoder } = self;
                let mut line = line;
                let echo = line.backspace();
                (Editor { line, history, index, decoder }, Step::Echo(echo))
            },
            KeyEvent::Tab => {
                let step = self.tab();
                (self, step)
            },
            KeyEvent::EscapeSequence(Some(key)) => {
                let (editor, echo) = self.press(key);
                (editor, Step::Echo(echo))
            },
            KeyEvent::EscapeSequence(None) => {
                let step = Step::Echo(Vec::new());
                assert(step->Echo_0@ =~= Seq::<u8>::empty());
                (self, step)
            },
            KeyEvent::OtherControl => {
                let step = Step::Echo(Vec::new());
                assert(step->Echo_0@ =~= Seq::<u8>::empty());
                (self, step)
            },
        }
    }

    /// Handles a function key. Returns the editor after it and the echo.
    pub fn press(self, key: FunctionKey) -> (next: (Editor, Vec<u8>))
        ensures
            (next.0@, next.1@) == self@.press(key),
            next.0@.wf(),
    {
        proof {
            use_type_invariant(&self);
        }
        match key {
            FunctionKey::Up => self.browse(Direction::Older),
            FunctionKey::Down => self.browse(Direction::Newer),
            _ => {
                let Editor { line, history, index, decoder } = self;
                let mut line = line;
                let echo = match key {
                    FunctionKey::Left => line.cursor_left(1),
                    FunctionKey::Right => line.cursor_right(1),
                    FunctionKey::Home => line.home(),
                    FunctionKey::End => line.end(),
                    _ => line.delete(1),
                };
                (Editor { line, history, index, decoder }, echo)
            },
        }
    }

    /// Browses one step through the history. Returns the editor after it
    /// and the echo.
    pub fn browse(self, direction: Direction) -> (next: (Editor, Vec<u8>))
        ensures
            (next.0@, next.1@) == self@.browse(direction),
            next.0@.wf(),
    {
        proof {
            use_type_invariant(&self);
        }
        let len: usize = self.history.len();
        let reached: usize = self.history.navigate(direction, self.index);
        if reached == self.index {
            let echo: Vec<u8> = Vec::new();
            assert(echo@ =~= Seq::<u8>::empty());
            return (self, echo);
        }
        let ghost before = self@;
        let Editor { line, history, index, decoder } = self;
        let mut line = line;
        let mut history = history;
        if index == len - 1 {
            let kept = line.to_vec();
            history.keep_in_sentinel(kept);
        }
        let shown = match history.get(reached) {
            Some(entry) => entry,
            None => Vec::new(),
        };
        let echo = line.change_line(shown);
        let editor = Editor { line, history, index: reached, decoder };
        proof {
            assert(editor.history@.drop_last() =~= before.committed);
            assert(editor@ == before.recall(reached as nat));
        }
        (editor, echo)
    }

    /// Submits the line: it goes into the history where it is recorded, and
    /// the editor that is returned is at the beginning of the next line.
    pub fn submit(self) -> (next: (Editor, Step))
        ensures
            (next.0@, next.1@) == self@.submit(),
            next.0@.wf(),
    {
        proof {
            use_type_invariant(&self);
        }
        let ghost before = self@;
        let Editor { line, history, index, decoder } = self;
        let mut history = history;
        let text = line.to_vec();
        let execute = !all_spaces(text.as_slice());
        let record = history.submit(text.as_slice());
        let index: usize = history.len() - 1;
        let editor = Editor { line: LineBuffer::new(), history, index, decoder: KeyDecoder::new() };
        proof {
            assert(editor.history@.drop_last() =~= recorded(before.committed, before.line.text));
            assert(editor@ == EditorState::fresh(recorded(before.committed, before.line.text)));
        }
        (editor, Step::Submit(Submission { line: text, record, execute }))
    }

    /// Handles the tab key: asks for candidates where the text before the
    /// cursor ends in something to complete, and does nothing else.
    pub fn tab(&self) -> (step: Step)
        ensures
            step@ == self@.tab(),
    {
        proof {
            use_type_invariant(self);
        }
        let text = self.line.as_slice();
        let mut before: Vec<u8> = Vec::new();
        let cursor: usize = self.line.cursor();
        let mut i: usize = 0;
        while i < cursor
            invariant
                i <= cursor <= text@.len(),
                before@ == text@.take(i as int),
            decreases cursor - i,
        {
            before.push(text[i]);
            i += 1;
            assert(before@ =~= text@.take(i as int));
        }
        match request(before.as_slice()) {
            Some(asked) => Step::Complete(asked),
            None => {
                let step = Step::Echo(Vec::new());
                assert(step->Echo_0@ =~= Seq::<u8>::empty());
                step
            },
        }
    }

    /// Answers a request for completion with the candidates that were found.
    /// With none, nothing happens. With one, the token under completion
    /// gives way to `prefix` and the candidate. With more, the cursor goes to
    /// the end of the line, and the candidates are listed.
    pub fn apply_completion(
        self,
        asked: &CompletionRequest,
        prefix: &str,
        candidates: &Vec<String>,
    ) -> (next: (Editor, Completed))
        ensures
            next.0@.wf(),
            candidates@.len() == 0 ==> next.1 is Nothing && next.0@ == self@,
            candidates@.len() == 1 ==> {
                let text = encode_utf8(prefix@) + encode_utf8(candidates@[0]@);
                &&& next.0@ == self@.replace_token(asked.token_len as nat, text)
                &&& next.1 matches Completed::Replaced(echo)
                &&& echo@ == self@.replace_token_echo(asked.token_len as nat, text)
            },
            candidates@.len() >= 2 ==> {
                &&& next.0@ == self@.with_line(self@.line.end())
                &&& next.1 matches Completed::Listed { echo, listing, line }
                &&& echo@ == self@.line.right_echo(self@.line.after_cursor().len())
                &&& lists(listing@, candidates.deep_view())
                &&& line@ == self@.line.text
            },
    {
        proof {
            use_type_invariant(&self);
        }
        if candidates.len() == 0 {
            (self, Completed::Nothing)
        } else if candidates.len() == 1 {
            let mut text: Vec<u8> = Vec::new();
            text.extend_from_slice(prefix.as_bytes());
            text.extend_from_slice(candidates[0].as_str().as_bytes());
            assert(text@ =~= encode_utf8(prefix@) + encode_utf8(candidates@[0]@));
            let Editor { line, history, index, decoder } = self;
            let mut line = line;
            let mut echo = line.cursor_left(asked.token_len);
            let mut second = line.delete(asked.token_len);
            let mut third = line.insert(text.as_slice());
            echo.append(&mut second);
            echo.append(&mut third);
            (Editor { line, history, index, decoder }, Completed::Replaced(echo))
        } else {
            let Editor { line, history, index, decoder } = self;
            let mut line = line;
            let echo = line.end();
            let listing = candidate_listing(candidates);
            let text = line.to_vec();
            (Editor { line, history, index, decoder }, Completed::Listed { echo, listing, line: text })
        }
    }
}

} // verus!
