//! The history: the lines submitted so far, oldest first.
//!
//! The store is kept in memory and mirrored in a file of one line per
//! command. This module reads such a file's bytes into entries, decides
//! whether a submitted line is recorded, and says which bytes the file gains
//! when it is; reading and appending the file itself is the caller's part.
//!
//! While a line is being typed the store holds one entry more, the sentinel:
//! it stands for the line in progress, so that browsing down past the newest
//! command comes back to it. The editor recalls by copy: an entry that comes
//! up is copied into the editor's buffer, and edits to that copy never touch
//! the store. Only the sentinel is written to, when browsing leaves it.

use vstd::prelude::*;
use vstd::utf8::valid_utf8;
use crate::keycode::{CR, LF};
use crate::screen::SPACE;
use crate::text::{bytes_equal, copy_bytes, is_utf8};

verus! {

/// Which way browsing goes.
#[derive(Clone, Copy, Debug, PartialEq, Eq, Structural)]
pub enum Direction {
    /// Towards the oldest entry.
    Older,
    /// Towards the newest entry.
    Newer,
}

/// A line as it is kept: without the carriage return that a file written
/// elsewhere may have put before the line feed.
pub open spec fn without_cr(line: Seq<u8>) -> Seq<u8> {
    if line.len() > 0 && line.last() == CR {
        line.drop_last()
    } else {
        line
    }
}

/// The lines that end inside `bytes`, and the beginning of the line that
/// does not: every line feed ends a line.
pub open spec fn scan_lines(bytes: Seq<u8>) -> (Seq<Seq<u8>>, Seq<u8>)
    decreases bytes.len(),
{
    if bytes.len() == 0 {
        (Seq::empty(), Seq::empty())
    } else {
        let (done, open) = scan_lines(bytes.drop_last());
        if bytes.last() == LF {
            (done.push(without_cr(open)), Seq::empty())
        } else {
            (done, open.push(bytes.last()))
        }
    }
}

/// The lines of a file, in file order. A last line without a line feed
/// counts if it is not empty.
pub open spec fn lines_of(bytes: Seq<u8>) -> Seq<Seq<u8>> {
    let (done, open) = scan_lines(bytes);
    if open.len() > 0 {
        done.push(open)
    } else {
        done
    }
}

/// The lines up to the first that is not valid UTF-8: reading a history
/// file ends there.
pub open spec fn readable(lines: Seq<Seq<u8>>) -> Seq<Seq<u8>>
    decreases lines.len(),
{
    if lines.len() == 0 {
        lines
    } else {
        let front = readable(lines.drop_last());
        if front.len() + 1 == lines.len() && valid_utf8(lines.last()) {
            front.push(lines.last())
        } else {
            front
        }
    }
}

/// The entries that a history file holds.
pub open spec fn entries_of(bytes: Seq<u8>) -> Seq<Seq<u8>> {
    readable(lines_of(bytes))
}

/// What can be read of some lines is a beginning of them, all of it valid,
/// and it ends at the end or before a line that is not valid.
pub proof fn lemma_readable(lines: Seq<Seq<u8>>)
    ensures
        readable(lines).len() <= lines.len(),
        readable(lines) == lines.take(readable(lines).len() as int),
        forall|i: int| 0 <= i < readable(lines).len() ==> valid_utf8(#[trigger] lines[i]),
        readable(lines).len() < lines.len() ==> !valid_utf8(lines[readable(lines).len() as int]),
    decreases lines.len(),
{
    if lines.len() > 0 {
        let shorter = lines.drop_last();
        lemma_readable(shorter);
        let front = readable(shorter);
        if front.len() + 1 == lines.len() && valid_utf8(lines.last()) {
            assert(front.push(lines.last()) =~= lines.take(lines.len() as int));
        } else {
            assert(front =~= lines.take(front.len() as int));
            if front.len() < shorter.len() {
                assert(shorter[front.len() as int] == lines[front.len() as int]);
            }
        }
        assert forall|i: int| 0 <= i < readable(lines).len() implies valid_utf8(
            #[trigger] lines[i],
        ) by {
            if i < shorter.len() {
                assert(shorter[i] == lines[i]);
            }
        }
    } else {
        assert(lines =~= lines.take(0));
    }
}

/// Whether a submitted line is recorded: it is not empty, it does not begin
/// with a space, and it is not the newest entry over again.
pub open spec fn records(history: Seq<Seq<u8>>, line: Seq<u8>) -> bool {
    &&& line.len() > 0
    &&& line[0] != SPACE
    &&& (history.len() == 0 || history.last() != line)
}

/// The history after `line` has been submitted.
pub open spec fn recorded(history: Seq<Seq<u8>>, line: Seq<u8>) -> Seq<Seq<u8>> {
    if records(history, line) {
        history.push(line)
    } else {
        history
    }
}

/// What the history file gains when `line` is recorded: the line and a line
/// feed.
pub open spec fn file_record(line: Seq<u8>) -> Seq<u8> {
    line.push(LF)
}

/// The index that browsing reaches from `index` in a store of `len`
/// entries: one step in the direction, kept inside `0 ..= len - 1`.
pub open spec fn navigated(len: nat, direction: Direction, index: nat) -> nat {
    if len == 0 {
        0
    } else {
        match direction {
            Direction::Older => if index == 0 {
                0
            } else if index - 1 <= len - 1 {
                (index - 1) as nat
            } else {
                (len - 1) as nat
            },
            Direction::Newer => if index + 1 <= len - 1 {
                index + 1
            } else {
                (len - 1) as nat
            },
        }
    }
}

/// The lines that end inside a beginning of a file are the first lines of
/// the file.
proof fn lemma_scan_extends(bytes: Seq<u8>, k: int)
    requires
        0 <= k <= bytes.len(),
    ensures
        scan_lines(bytes.take(k)).0.is_prefix_of(scan_lines(bytes).0),
        scan_lines(bytes.take(k)).0.is_prefix_of(lines_of(bytes)),
    decreases bytes.len(),
{
    if k == bytes.len() {
        assert(bytes.take(k) =~= bytes);
    } else {
        let shorter = bytes.drop_last();
        assert(shorter.take(k) =~= bytes.take(k));
        lemma_scan_extends(shorter, k);
    }
}

/// Reading ends before a line that is not valid: where the lines begin with
/// valid lines and one that is not, those valid lines are all that is read.
proof fn lemma_reading_ends(lines: Seq<Seq<u8>>, valid: Seq<Seq<u8>>, bad: Seq<u8>)
    requires
        valid.push(bad).is_prefix_of(lines),
        readable(valid).len() == valid.len(),
        !valid_utf8(bad),
    ensures
        readable(lines) == readable(valid),
{
    lemma_readable(lines);
    lemma_readable(valid);
    let end = readable(lines).len();
    assert(lines[valid.len() as int] == valid.push(bad)[valid.len() as int]);
    if end < valid.len() {
        assert(lines[end as int] == valid.push(bad)[end as int]);
        assert(valid_utf8(valid[end as int]));
    }
    assert(readable(lines) =~= valid) by {
        assert forall|i: int| 0 <= i < valid.len() implies lines[i] == valid[i] by {
            assert(lines[i] == valid.push(bad)[i]);
        }
    }
    assert(readable(valid) =~= valid);
}

/// The entries without the sentinel, which is the newest of them.
pub open spec fn without_sentinel(entries: Seq<Seq<u8>>) -> Seq<Seq<u8>> {
    if entries.len() > 0 {
        entries.drop_last()
    } else {
        entries
    }
}

/// Submitting the same line twice in a row stores it once: the second
/// submission changes nothing, and where the first one recorded the line,
/// the history has gained exactly that one entry.
pub proof fn lemma_submitted_twice(history: Seq<Seq<u8>>, line: Seq<u8>)
    ensures
        recorded(recorded(history, line), line) == recorded(history, line),
        records(history, line) ==> recorded(recorded(history, line), line) == history.push(line),
{
}

/// A line that begins with a space is never recorded.
pub proof fn lemma_blank_prefix_excluded(history: Seq<Seq<u8>>, line: Seq<u8>)
    requires
        line.len() > 0,
        line[0] == SPACE,
    ensures
        !records(history, line),
        recorded(history, line) == history,
{
}

/// A file of complete lines, followed by text without a line feed, scans
/// into the lines of the file and that text as the open line.
proof fn lemma_scan_open_line(contents: Seq<u8>, line: Seq<u8>)
    requires
        scan_lines(contents).1.len() == 0,
        !line.contains(LF),
    ensures
        scan_lines(contents + line) == (scan_lines(contents).0, line),
    decreases line.len(),
{
    if line.len() == 0 {
        assert(contents + line =~= contents);
        assert(scan_lines(contents).1 =~= line);
    } else {
        let shorter = line.drop_last();
        assert((contents + line).drop_last() =~= contents + shorter);
        assert(line.last() == line[line.len() - 1]);
        assert(line.contains(line.last()));
        assert forall|i: int| 0 <= i < shorter.len() implies shorter[i] != LF by {
            assert(line.contains(line[i]));
        }
        lemma_scan_open_line(contents, shorter);
        assert(shorter.push(line.last()) =~= line);
    }
}

/// What is recorded reads back: a history file that is empty or ends in a
/// line feed, with the record of a line appended, holds the lines that it
/// held and that line behind them; and where all of the file could be read
/// and the line is valid UTF-8, so do the entries. This is so for every line
/// without a line feed in it and without a carriage return at its end.
pub proof fn lemma_record_reads_back(contents: Seq<u8>, line: Seq<u8>)
    requires
        contents.len() == 0 || contents.last() == LF,
        !line.contains(LF),
        line.len() == 0 || line.last() != CR,
    ensures
        lines_of(contents + file_record(line)) == lines_of(contents).push(line),
        entries_of(contents) == lines_of(contents) && valid_utf8(line) ==> entries_of(
            contents + file_record(line),
        ) == entries_of(contents).push(line),
{
    assert(lines_of(contents).push(line).drop_last() =~= lines_of(contents));
    assert(scan_lines(contents).1.len() == 0);
    lemma_scan_open_line(contents, line);
    let whole = contents + file_record(line);
    assert(whole.drop_last() =~= contents + line);
    assert(whole.last() == LF);
}

/// Browsing never leaves the store.
pub proof fn lemma_navigated_in_range(len: nat, direction: Direction, index: nat)
    requires
        len > 0,
    ensures
        navigated(len, direction, index) < len,
        index < len ==> {
            let reached = navigated(len, direction, index);
            reached == index || reached + 1 == index || reached == index + 1
        },
{
}

/// The entries, oldest first.
pub struct HistoryStore {
    entries: Vec<Vec<u8>>,
}

impl View for HistoryStore {
    type V = Seq<Seq<u8>>;

    closed spec fn view(&self) -> Seq<Seq<u8>> {
        Seq::new(self.entries@.len(), |i: int| self.entries@[i]@)
    }
}

impl HistoryStore {
    /// A store without entries.
    pub fn new() -> (store: HistoryStore)
        ensures
            store@ == Seq::<Seq<u8>>::empty(),
    {
        let store = HistoryStore { entries: Vec::new() };
        assert(store@ =~= Seq::<Seq<u8>>::empty());
        store
    }

    /// The store that a history file's contents give: one entry for each
    /// line, in file order, up to the first line that is not valid UTF-8. An
    /// empty file gives an empty store.
    pub fn load(contents: &[u8]) -> (store: HistoryStore)
        ensures
            store@ == entries_of(contents@),
    {
        let mut store = HistoryStore { entries: Vec::new() };
        let mut open: Vec<u8> = Vec::new();
        let mut i: usize = 0;
        let ghost mut done = Seq::<Seq<u8>>::empty();
        assert(store@ =~= Seq::<Seq<u8>>::empty());
        while i < contents.len()
            invariant
                i <= contents@.len(),
                (done, open@) == scan_lines(contents@.take(i as int)),
                store@ == readable(done),
                store@.len() == done.len(),
            decreases contents@.len() - i,
        {
            let ghost before = store@;
            let ghost seen = contents@.take(i as int);
            let byte: u8 = contents[i];
            if byte == LF {
                let len: usize = open.len();
                if len > 0 && open[len - 1] == CR {
                    open.pop();
                }
                assert(open@ =~= without_cr(scan_lines(seen).1));
                if !is_utf8(open.as_slice()) {
                    proof {
                        assert(contents@.take(i + 1).drop_last() =~= seen);
                        lemma_scan_extends(contents@, i + 1);
                        lemma_reading_ends(lines_of(contents@), done, open@);
                    }
                    return store;
                }
                proof {
                    assert(done.push(open@).drop_last() =~= done);
                    done = done.push(open@);
                }
                store.entries.push(open);
                open = Vec::new();
                assert(store@ =~= before.push(done.last()));
            } else {
                open.push(byte);
            }
            i += 1;
            assert(contents@.take(i as int).drop_last() =~= seen);
        }
        assert(contents@.take(i as int) =~= contents@);
        if open.len() > 0 {
            let ghost before = store@;
            proof {
                assert(done.push(open@).drop_last() =~= done);
            }
            if is_utf8(open.as_slice()) {
                store.entries.push(open);
                assert(store@ =~= before.push(scan_lines(contents@).1));
            }
        }
        store
    }

    /// The number of entries.
    pub fn len(&self) -> (len: usize)
        ensures
            len == self@.len(),
    {
        self.entries.len()
    }

    /// Whether the store has no entry.
    pub fn is_empty(&self) -> (empty: bool)
        ensures
            empty == (self@.len() == 0),
    {
        self.entries.len() == 0
    }

    /// A copy of the entry at `index`, `None` where there is none.
    pub fn get(&self, index: usize) -> (entry: Option<Vec<u8>>)
        ensures
            index < self@.len() ==> entry is Some && entry->0@ == self@[index as int],
            index >= self@.len() ==> entry is None,
    {
        if index < self.entries.len() {
            Some(copy_bytes(self.entries[index].as_slice()))
        } else {
            None
        }
    }

    /// Whether `line`, once submitted, is recorded.
    pub fn should_record(&self, line: &[u8]) -> (yes: bool)
        ensures
            yes == records(self@, line@),
    {
        if line.len() == 0 || line[0] == SPACE {
            return false;
        }
        let len: usize = self.entries.len();
        if len == 0 {
            return true;
        }
        assert(self@.last() == self.entries@[len - 1]@);
        !bytes_equal(self.entries[len - 1].as_slice(), line)
    }

    /// Submits `line`. Where it is recorded, it becomes the newest entry and
    /// the result is what the history file gains; else the store stays as it
    /// is and the result is `None`.
    pub fn append(&mut self, line: &[u8]) -> (record: Option<Vec<u8>>)
        ensures
            final(self)@ == recorded(old(self)@, line@),
            record is Some <==> records(old(self)@, line@),
            record is Some ==> record->0@ == file_record(line@),
    {
        if !self.should_record(line) {
            return None;
        }
        let mut record = copy_bytes(line);
        self.entries.push(copy_bytes(line));
        record.push(LF);
        assert(self@ =~= old(self)@.push(line@));
        Some(record)
    }

    /// Adds the sentinel: an empty entry that stands for the line about to
    /// be typed. Returns its index, where browsing starts.
    pub fn push_sentinel(&mut self) -> (index: usize)
        ensures
            final(self)@ == old(self)@.push(Seq::<u8>::empty()),
            index == old(self)@.len(),
    {
        let index: usize = self.entries.len();
        self.entries.push(Vec::new());
        assert(self@ =~= old(self)@.push(Seq::<u8>::empty()));
        index
    }

    /// Ends the reading of one line and begins the next: the sentinel goes,
    /// `line` is submitted as by `append`, and a new, empty sentinel follows.
    /// On a store without any entry, and so without a sentinel, the line is
    /// submitted and the sentinel added.
    pub fn submit(&mut self, line: &[u8]) -> (record: Option<Vec<u8>>)
        ensures
            final(self)@ == recorded(without_sentinel(old(self)@), line@).push(Seq::<u8>::empty()),
            record is Some <==> records(without_sentinel(old(self)@), line@),
            record is Some ==> record->0@ == file_record(line@),
    {
        self.pop_sentinel();
        let record = self.append(line);
        self.push_sentinel();
        record
    }

    /// Removes the newest entry, which is the sentinel when a line has just
    /// been submitted. An empty store stays empty.
    pub fn pop_sentinel(&mut self)
        ensures
            old(self)@.len() > 0 ==> final(self)@ == old(self)@.drop_last(),
            old(self)@.len() == 0 ==> final(self)@ == old(self)@,
    {
        self.entries.pop();
        assert(old(self)@.len() > 0 ==> self@ =~= old(self)@.drop_last());
        assert(old(self)@.len() == 0 ==> self@ =~= old(self)@);
    }

    /// Writes `text` into the newest entry: this is how the sentinel keeps
    /// the line in progress when browsing leaves it. An empty store stays
    /// empty.
    pub fn keep_in_sentinel(&mut self, text: Vec<u8>)
        ensures
            old(self)@.len() > 0 ==> final(self)@ == old(self)@.drop_last().push(text@),
            old(self)@.len() == 0 ==> final(self)@ == old(self)@,
    {
        if self.entries.len() > 0 {
            self.entries.pop();
            self.entries.push(text);
            assert(self@ =~= old(self)@.drop_last().push(text@));
        } else {
            assert(self@ =~= old(self)@);
        }
    }

    /// The index that browsing reaches from `index`.
    pub fn navigate(&self, direction: Direction, index: usize) -> (reached: usize)
        ensures
            reached == navigated(self@.len(), direction, index as nat),
    {
        let len: usize = self.entries.len();
        if len == 0 {
            return 0;
        }
        match direction {
            Direction::Older => {
                if index == 0 {
                    0
                } else if index - 1 <= len - 1 {
                    index - 1
                } else {
                    len - 1
                }
            },
            Direction::Newer => {
                if index < len - 1 {
                    index + 1
                } else {
                    len - 1
                }
            },
        }
    }
}


} // verus!
