//! Completion: from the text before the cursor to a fragment, and from the
//! fragment to the candidates that could stand in its place.
//!
//! The text is cut into tokens at spaces, except inside quotes. The last
//! token is the fragment. Where it is the only token it names a command and
//! is matched against the command names; else it names a path and is matched
//! against the entries of the directory that it points into. Both matches
//! are by prefix and case-sensitive.
//!
//! The command names and the directory's entries are handed in as plain
//! values: looking them up is the caller's part.

use vstd::prelude::*;
use vstd::string::{StrSliceExecFns, StringExecFns};
use vstd::utf8::{encode_utf8, valid_utf8};
use crate::screen::SPACE;
use crate::text::string_from_utf8;

verus! {

/// The single quote.
pub const SINGLE_QUOTE: u8 = 0x27;

/// The double quote.
pub const DOUBLE_QUOTE: u8 = 0x22;

/// Whether a byte is one of the two quotes.
pub open spec fn is_quote(byte: u8) -> bool {
    byte == SINGLE_QUOTE || byte == DOUBLE_QUOTE
}

/// The tokenizer between two bytes: the tokens that are complete, the bytes
/// of the token that is not, and the quote that is open, if one is.
pub struct Scan {
    pub tokens: Seq<Seq<u8>>,
    pub pending: Seq<u8>,
    pub quote: Option<u8>,
}

/// The tokenizer's step. Inside quotes every byte joins the pending token,
/// and the quote that opened them closes them. Outside, a quote opens, a
/// space ends the pending token if there is one, and any other byte joins
/// it. Quotes stay in the token.
pub open spec fn scan_step(state: Scan, byte: u8) -> Scan {
    match state.quote {
        Some(open) => Scan {
            tokens: state.tokens,
            pending: state.pending.push(byte),
            quote: if byte == open {
                None
            } else {
                Some(open)
            },
        },
        None => if is_quote(byte) {
            Scan { tokens: state.tokens, pending: state.pending.push(byte), quote: Some(byte) }
        } else if byte == SPACE {
            if state.pending.len() > 0 {
                Scan { tokens: state.tokens.push(state.pending), pending: Seq::empty(), quote: None }
            } else {
                state
            }
        } else {
            Scan { tokens: state.tokens, pending: state.pending.push(byte), quote: None }
        },
    }
}

/// The tokenizer after all of `text`.
pub open spec fn scan(text: Seq<u8>) -> Scan
    decreases text.len(),
{
    if text.len() == 0 {
        Scan { tokens: Seq::empty(), pending: Seq::empty(), quote: None }
    } else {
        scan_step(scan(text.drop_last()), text.last())
    }
}

/// The tokens of `text`, the last of them being the one under completion.
/// `None` where nothing is pending at the end of the text: it is empty, or
/// it ends in a space that separates.
pub open spec fn fragments_of(text: Seq<u8>) -> Option<Seq<Seq<u8>>> {
    let end = scan(text);
    if end.pending.len() > 0 {
        Some(end.tokens.push(end.pending))
    } else {
        None
    }
}

/// A token without its quotes.
pub open spec fn unquoted(token: Seq<u8>) -> Seq<u8> {
    token.filter(|byte: u8| !is_quote(byte))
}

/// The bytes of each token.
pub open spec fn token_bytes(tokens: Seq<Vec<u8>>) -> Seq<Seq<u8>> {
    Seq::new(tokens.len(), |i: int| tokens[i]@)
}

/// Cuts the text before the cursor into tokens.
pub fn fragments(text: &[u8]) -> (tokens: Option<Vec<Vec<u8>>>)
    ensures
        tokens is Some <==> fragments_of(text@) is Some,
        tokens is Some ==> token_bytes(tokens->0@) == fragments_of(text@)->0,
{
    let mut tokens: Vec<Vec<u8>> = Vec::new();
    let mut pending: Vec<u8> = Vec::new();
    let mut quote: Option<u8> = None;
    let mut i: usize = 0;
    assert(token_bytes(tokens@) =~= Seq::<Seq<u8>>::empty());
    while i < text.len()
        invariant
            i <= text@.len(),
            scan(text@.take(i as int)) == (Scan {
                tokens: token_bytes(tokens@),
                pending: pending@,
                quote,
            }),
        decreases text@.len() - i,
    {
        let ghost before = token_bytes(tokens@);
        let byte: u8 = text[i];
        match quote {
            Some(open) => {
                pending.push(byte);
                if byte == open {
                    quote = None;
                }
            },
            None => {
                if byte == SINGLE_QUOTE || byte == DOUBLE_QUOTE {
                    pending.push(byte);
                    quote = Some(byte);
                } else if byte == SPACE {
                    if pending.len() > 0 {
                        let ghost token = pending@;
                        tokens.push(pending);
                        pending = Vec::new();
                        assert(token_bytes(tokens@) =~= before.push(token));
                    }
                } else {
                    pending.push(byte);
                }
            },
        }
        i += 1;
        assert(text@.take(i as int).drop_last() =~= text@.take(i - 1));
    }
    assert(text@.take(i as int) =~= text@);
    if pending.len() > 0 {
        let ghost before = token_bytes(tokens@);
        let ghost token = pending@;
        tokens.push(pending);
        assert(token_bytes(tokens@) =~= before.push(token));
        Some(tokens)
    } else {
        None
    }
}

/// Takes the quotes out of a token.
pub fn strip_quotes(token: &[u8]) -> (plain: Vec<u8>)
    ensures
        plain@ == unquoted(token@),
{
    let mut plain: Vec<u8> = Vec::new();
    let mut i: usize = 0;
    proof {
        reveal(Seq::filter);
    }
    while i < token.len()
        invariant
            i <= token@.len(),
            plain@ == unquoted(token@.take(i as int)),
        decreases token@.len() - i,
    {
        let byte: u8 = token[i];
        proof {
            let keep = |byte: u8| !is_quote(byte);
            assert(token@.take(i + 1) =~= token@.take(i as int).push(byte));
            token@.take(i as int).lemma_filter_push(byte, keep);
        }
        if byte != SINGLE_QUOTE && byte != DOUBLE_QUOTE {
            plain.push(byte);
        }
        i += 1;
    }
    assert(token@.take(i as int) =~= token@);
    plain
}

/// The characters of `text`.
pub fn chars_of(text: &str) -> (chars: Vec<char>)
    ensures
        chars@ == text@,
{
    broadcast use vstd::string::group_string_axioms;

    let mut chars: Vec<char> = Vec::new();
    for c in it: text.chars()
        invariant
            it.seq() == text@,
            chars@ == it.seq().take(it.index() as int),
    {
        chars.push(c);
        assert(chars@ =~= it.seq().take(it.index() + 1));
    }
    assert(chars@ =~= text@);
    chars
}


/// Whether `name` begins with `fragment`.
pub fn has_prefix(name: &[char], fragment: &[char]) -> (yes: bool)
    ensures
        yes == fragment@.is_prefix_of(name@),
{
    if fragment.len() > name.len() {
        return false;
    }
    let mut i: usize = 0;
    while i < fragment.len()
        invariant
            i <= fragment@.len() <= name@.len(),
            fragment@.take(i as int) == name@.take(i as int),
        decreases fragment@.len() - i,
    {
        if fragment[i] != name[i] {
            assert(fragment@[i as int] != name@.subrange(0, fragment@.len() as int)[i as int]);
            return false;
        }
        i += 1;
        assert(fragment@.take(i as int) =~= fragment@.take(i - 1).push(fragment@[i - 1]));
        assert(name@.take(i as int) =~= name@.take(i - 1).push(name@[i - 1]));
    }
    assert(fragment@ =~= fragment@.take(i as int));
    true
}

/// The command names that begin with `fragment`, in the order of `names`.
pub open spec fn command_candidates(fragment: Seq<char>, names: Seq<Seq<char>>) -> Seq<Seq<char>> {
    names.filter(|name: Seq<char>| fragment.is_prefix_of(name))
}

/// Completes a command name: the candidates are the names in `names` that
/// begin with `command`, in their order there. A command has no directory
/// before it, so the prefix that goes with the candidates is empty.
pub fn complete_command(command: &str, names: &Vec<String>) -> (completion: (&'static str, Vec<String>))
    ensures
        completion.0@ == Seq::<char>::empty(),
        completion.1.deep_view() == command_candidates(command@, names.deep_view()),
{
    let fragment = chars_of(command);
    let mut candidates: Vec<String> = Vec::new();
    let mut i: usize = 0;
    let ghost matches = |name: Seq<char>| command@.is_prefix_of(name);
    proof {
        reveal(Seq::filter);
        assert(names.deep_view().take(0) =~= Seq::<Seq<char>>::empty());
        assert(candidates.deep_view() =~= Seq::<Seq<char>>::empty());
    }
    while i < names.len()
        invariant
            i <= names@.len(),
            fragment@ == command@,
            matches == |name: Seq<char>| command@.is_prefix_of(name),
            candidates.deep_view() == names.deep_view().take(i as int).filter(matches),
        decreases names@.len() - i,
    {
        let ghost before = candidates.deep_view();
        let name = chars_of(names[i].as_str());
        proof {
            assert(names.deep_view().take(i + 1) =~= names.deep_view().take(i as int).push(name@));
            names.deep_view().take(i as int).lemma_filter_push(name@, matches);
        }
        if has_prefix(name.as_slice(), fragment.as_slice()) {
            candidates.push(names[i].clone());
            assert(candidates.deep_view() =~= before.push(name@));
        }
        i += 1;
    }
    proof {
        assert(names.deep_view().take(i as int) =~= names.deep_view());
        reveal_strlit("");
    }
    ("", candidates)
}


/// An entry of a directory, as the caller found it.
#[derive(Debug, PartialEq, Eq)]
pub struct DirEntry {
    /// The entry's name, without any directory before it.
    pub name: String,
    /// Whether the entry is itself a directory.
    pub is_dir: bool,
}

/// A directory entry as a mathematical value.
pub struct Entry {
    pub name: Seq<char>,
    pub is_dir: bool,
}

impl View for DirEntry {
    type V = Entry;

    open spec fn view(&self) -> Entry {
        Entry { name: self.name@, is_dir: self.is_dir }
    }
}

impl DeepView for DirEntry {
    type V = Entry;

    open spec fn deep_view(&self) -> Entry {
        self@
    }
}

/// The length of a path's directory part: everything up to and including
/// its last slash, nothing where it has no slash.
pub open spec fn directory_len(path: Seq<char>) -> nat
    decreases path.len(),
{
    if path.len() == 0 {
        0
    } else if path.last() == '/' {
        path.len()
    } else {
        directory_len(path.drop_last())
    }
}

/// The directory that a path points into; empty for the current one.
pub open spec fn directory_prefix(path: Seq<char>) -> Seq<char> {
    path.take(directory_len(path) as int)
}

/// What a path says of the name looked for: the text behind its last slash.
pub open spec fn name_fragment(path: Seq<char>) -> Seq<char> {
    path.skip(directory_len(path) as int)
}

/// An entry as a candidate: in single quotes where its name holds a space,
/// and with a slash behind it where it is a directory.
pub open spec fn decorated(entry: Entry) -> Seq<char> {
    let quoted = if entry.name.contains(' ') {
        seq!['\''] + entry.name + seq!['\'']
    } else {
        entry.name
    };
    if entry.is_dir {
        quoted.push('/')
    } else {
        quoted
    }
}

/// The candidates for a path: the entries whose names begin with the path's
/// name fragment, decorated, in the order of `entries`.
pub open spec fn path_candidates(path: Seq<char>, entries: Seq<Entry>) -> Seq<Seq<char>> {
    entries.filter(|entry: Entry| name_fragment(path).is_prefix_of(entry.name)).map_values(
        |entry: Entry| decorated(entry),
    )
}

/// Completion is a function of the path and the listing alone: two results
/// for the same path over the same entries name the same directory and hold
/// the same candidates in the same order.
pub proof fn lemma_completion_is_determined(
    path: Seq<char>,
    entries: Seq<Entry>,
    first: (Seq<char>, Seq<Seq<char>>),
    second: (Seq<char>, Seq<Seq<char>>),
)
    requires
        first.0 == directory_prefix(path),
        first.1 == path_candidates(path, entries),
        second.0 == directory_prefix(path),
        second.1 == path_candidates(path, entries),
    ensures
        first == second,
{
}

/// The directory part has its place inside the path.
pub proof fn lemma_directory_len_bounded(path: Seq<char>)
    ensures
        directory_len(path) <= path.len(),
        directory_len(path) > 0 ==> path[directory_len(path) - 1] == '/',
        forall|i: int| directory_len(path) <= i < path.len() ==> path[i] != '/',
    decreases path.len(),
{
    if path.len() > 0 && path.last() != '/' {
        let shorter = path.drop_last();
        lemma_directory_len_bounded(shorter);
        assert forall|i: int| directory_len(path) <= i < path.len() implies path[i] != '/' by {
            if i < shorter.len() {
                assert(shorter[i] == path[i]);
            }
        }
    }
}

/// Splits a path into the directory it points into and the fragment of a
/// name. The directory keeps its slash; it is empty where the path has none.
pub fn split_path(path: &str) -> (parts: (&str, &str))
    ensures
        parts.0@ == directory_prefix(path@),
        parts.1@ == name_fragment(path@),
{
    let chars = chars_of(path);
    let mut cut: usize = 0;
    let mut i: usize = 0;
    while i < chars.len()
        invariant
            i <= chars@.len(),
            cut == directory_len(chars@.take(i as int)),
            cut <= i,
        decreases chars@.len() - i,
    {
        assert(chars@.take(i + 1).drop_last() =~= chars@.take(i as int));
        if chars[i] == '/' {
            cut = i + 1;
        }
        i += 1;
    }
    assert(chars@.take(i as int) =~= chars@);
    (path.substring_char(0, cut), path.substring_char(cut, chars.len()))
}

/// The directory whose entries a path is completed against: the one that
/// the path points into, or the current directory where it names none.
pub open spec fn listed_directory(path: Seq<char>) -> Seq<char> {
    if directory_len(path) == 0 {
        seq!['.']
    } else {
        directory_prefix(path)
    }
}

/// The directory to list for a path.
pub fn directory_to_list(path: &str) -> (directory: &str)
    ensures
        directory@ == listed_directory(path@),
{
    let (directory, _) = split_path(path);
    proof {
        lemma_directory_len_bounded(path@);
    }
    if directory.unicode_len() == 0 {
        proof {
            reveal_strlit(".");
            assert("."@ =~= seq!['.']);
        }
        "."
    } else {
        directory
    }
}

/// Whether `name` holds the character `wanted`.
pub fn holds_char(name: &[char], wanted: char) -> (yes: bool)
    ensures
        yes == name@.contains(wanted),
{
    let mut i: usize = 0;
    while i < name.len()
        invariant
            i <= name@.len(),
            forall|j: int| 0 <= j < i ==> name@[j] != wanted,
        decreases name@.len() - i,
    {
        if name[i] == wanted {
            return true;
        }
        i += 1;
    }
    false
}

/// The candidate that an entry makes.
pub fn decorate(entry: &DirEntry) -> (candidate: String)
    ensures
        candidate@ == decorated(entry@),
{
    let name = chars_of(entry.name.as_str());
    proof {
        reveal_strlit("'");
        reveal_strlit("/");
        assert("'"@ =~= seq!['\'']);
        assert("/"@ =~= seq!['/']);
    }
    let mut candidate = if holds_char(name.as_slice(), ' ') {
        let mut quoted = String::from_str("'");
        quoted.append(entry.name.as_str());
        quoted.append("'");
        quoted
    } else {
        entry.name.clone()
    };
    if entry.is_dir {
        candidate.append("/");
        assert(candidate@ =~= decorated(entry@));
    }
    candidate
}

/// Completes a path against the entries of the directory that it points
/// into. Returns that directory as the path names it, and the candidates:
/// the entries whose names begin with what stands behind the path's last
/// slash, each decorated, in the order of `entries`. The result depends on
/// the path and the entries alone: the same listing gives the same
/// candidates in the same order.
pub fn complete_path<'a>(incomplete_path: &'a str, entries: &Vec<DirEntry>) -> (completion: (
    &'a str,
    Vec<String>,
))
    ensures
        completion.0@ == directory_prefix(incomplete_path@),
        completion.1.deep_view() == path_candidates(incomplete_path@, entries.deep_view()),
{
    let (dir, name) = split_path(incomplete_path);
    let fragment = chars_of(name);
    let mut candidates: Vec<String> = Vec::new();
    let mut i: usize = 0;
    let ghost matches = |entry: Entry| name_fragment(incomplete_path@).is_prefix_of(entry.name);
    let ghost shown = |entry: Entry| decorated(entry);
    proof {
        reveal(Seq::filter);
        assert(entries.deep_view().take(0) =~= Seq::<Entry>::empty());
        assert(candidates.deep_view() =~= Seq::<Entry>::empty().filter(matches).map_values(shown));
    }
    while i < entries.len()
        invariant
            i <= entries@.len(),
            fragment@ == name_fragment(incomplete_path@),
            matches == |entry: Entry| name_fragment(incomplete_path@).is_prefix_of(entry.name),
            shown == |entry: Entry| decorated(entry),
            candidates.deep_view() == entries.deep_view().take(i as int).filter(matches).map_values(
                shown,
            ),
        decreases entries@.len() - i,
    {
        let ghost before = candidates.deep_view();
        let ghost seen = entries.deep_view().take(i as int);
        let entry = &entries[i];
        let entry_name = chars_of(entry.name.as_str());
        proof {
            assert(entries.deep_view().take(i + 1) =~= seen.push(entry@));
            seen.lemma_filter_push(entry@, matches);
        }
        if has_prefix(entry_name.as_slice(), fragment.as_slice()) {
            let candidate = decorate(entry);
            candidates.push(candidate);
            assert(candidates.deep_view() =~= before.push(decorated(entry@)));
            assert(seen.filter(matches).push(entry@).map_values(shown) =~= seen.filter(
                matches,
            ).map_values(shown).push(decorated(entry@)));
        }
        i += 1;
    }
    assert(entries.deep_view().take(i as int) =~= entries.deep_view());
    (dir, candidates)
}


/// Which names a fragment is matched against.
#[derive(Clone, Copy, Debug, PartialEq, Eq, Structural)]
pub enum Namespace {
    /// The command names: the fragment is the first token of the line.
    Command,
    /// The entries of a directory: the fragment is a later token.
    Path,
}

/// What a press of the tab key asks for.
#[derive(Debug, PartialEq, Eq)]
pub struct CompletionRequest {
    /// Where to look for candidates.
    pub namespace: Namespace,
    /// The length in bytes of the token under completion as it stands in the
    /// line, quotes included: so much is replaced when one candidate is found.
    pub token_len: usize,
    /// The token without its quotes: this is what candidates must begin with.
    pub fragment: String,
}

/// The namespace for the last of `count` tokens.
pub open spec fn namespace_of(count: nat) -> Namespace {
    if count < 2 {
        Namespace::Command
    } else {
        Namespace::Path
    }
}

/// Whether the text before the cursor asks for a completion: something is
/// pending at its end, and that token without its quotes is valid UTF-8.
pub open spec fn asks_completion(text: Seq<u8>) -> bool {
    fragments_of(text) is Some && valid_utf8(unquoted(fragments_of(text)->0.last()))
}

/// Finds what to complete in the text before the cursor. There is nothing to
/// complete where that text is empty or ends in a separating space, nor
/// where the token is not text at all.
pub fn request(text: &[u8]) -> (asked: Option<CompletionRequest>)
    ensures
        asked is Some <==> asks_completion(text@),
        asked is Some ==> {
            let tokens = fragments_of(text@)->0;
            &&& asked->0.namespace == namespace_of(tokens.len())
            &&& asked->0.token_len == tokens.last().len()
            &&& encode_utf8(asked->0.fragment@) == unquoted(tokens.last())
        },
{
    match fragments(text) {
        None => None,
        Some(tokens) => {
            let count: usize = tokens.len();
            assert(token_bytes(tokens@).len() == count);
            let token = &tokens[count - 1];
            assert(token@ == token_bytes(tokens@).last());
            let namespace = if count < 2 {
                Namespace::Command
            } else {
                Namespace::Path
            };
            match string_from_utf8(strip_quotes(token.as_slice())) {
                None => None,
                Some(fragment) => Some(
                    CompletionRequest { namespace, token_len: token.len(), fragment },
                ),
            }
        },
    }
}


} // verus!
