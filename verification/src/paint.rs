//! The listing of candidates: each candidate painted, a tab behind each.
//!
//! Directories are told from files by colour. The colours come from the
//! `colored` crate, which decides by the process's environment whether it
//! colours at all, so a painted candidate is either the bare candidate or
//! the candidate between a style sequence and the reset sequence.

use vstd::prelude::*;
use vstd::string::StringExecFns;
use colored::Colorize;
use crate::completion::chars_of;

verus! {

/// The red part of the colour of directories.
pub const DIRECTORY_RED: u8 = 0x00;

/// The green part of the colour of directories.
pub const DIRECTORY_GREEN: u8 = 0x88;

/// The blue part of the colour of directories.
pub const DIRECTORY_BLUE: u8 = 0xff;

/// The escape character, which begins every style sequence.
pub open spec fn escape() -> char {
    '\x1b'
}

/// The sequence that ends a style.
pub open spec fn reset_sequence() -> Seq<char> {
    seq!['\x1b', '[', '0', 'm']
}

/// The sequence that begins text in white.
pub open spec fn white_sequence() -> Seq<char> {
    seq!['\x1b', '[', '3', '7', 'm']
}

/// `painted` is `text` as it is, or `text` between some style sequence and
/// the reset sequence.
pub open spec fn is_painted(painted: Seq<char>, text: Seq<char>) -> bool {
    painted == text || exists|style: Seq<char>| painted == style + text + reset_sequence()
}

/// `Colorize::white` of the `colored` crate, formatted into a string.
///
/// Trusted: for text without an escape character the result is the text
/// itself, where the crate does not colour, and else the text between the
/// sequence for white and the reset sequence. Of text that holds an escape
/// character nothing is claimed.
#[verifier::external_body]
fn white(text: &str) -> (painted: String)
    ensures
        !text@.contains(escape()) ==> painted@ == text@ || painted@ == white_sequence() + text@
            + reset_sequence(),
{
    text.white().to_string()
}

/// `Colorize::truecolor` of the `colored` crate, formatted into a string.
///
/// Trusted: for text without an escape character the result is the text
/// itself, where the crate does not colour, and else the text between a
/// style sequence and the reset sequence. Which style sequence it is
/// depends on what the terminal is said to support, so it is left open. Of
/// text that holds an escape character nothing is claimed.
#[verifier::external_body]
fn truecolor(text: &str, red: u8, green: u8, blue: u8) -> (painted: String)
    ensures
        !text@.contains(escape()) ==> is_painted(painted@, text@),
{
    text.truecolor(red, green, blue).to_string()
}

/// Whether a candidate stands for a directory: it ends in a slash.
pub open spec fn is_directory(candidate: Seq<char>) -> bool {
    candidate.len() > 0 && candidate.last() == '/'
}

/// Paints one candidate: a directory in its colour, anything else in white.
pub fn paint_candidate(candidate: &str) -> (painted: String)
    ensures
        !candidate@.contains(escape()) ==> is_painted(painted@, candidate@),
        !candidate@.contains(escape()) && !is_directory(candidate@) ==> painted@ == candidate@
            || painted@ == white_sequence() + candidate@ + reset_sequence(),
{
    let chars = chars_of(candidate);
    let len: usize = chars.len();
    if len > 0 && chars[len - 1] == '/' {
        truecolor(candidate, DIRECTORY_RED, DIRECTORY_GREEN, DIRECTORY_BLUE)
    } else {
        white(candidate)
    }
}

/// The listing of painted candidates: each with a tab behind it.
pub open spec fn joined(painted: Seq<Seq<char>>) -> Seq<char>
    decreases painted.len(),
{
    if painted.len() == 0 {
        Seq::empty()
    } else {
        joined(painted.drop_last()) + painted.last().push('\t')
    }
}

/// Joins painted candidates into one listing.
pub fn join_listing(painted: &Vec<String>) -> (listing: String)
    ensures
        listing@ == joined(painted.deep_view()),
{
    let mut listing = String::new();
    let mut i: usize = 0;
    proof {
        reveal_strlit("\t");
        assert("\t"@ =~= seq!['\t']);
        assert(painted.deep_view().take(0) =~= Seq::<Seq<char>>::empty());
    }
    while i < painted.len()
        invariant
            i <= painted@.len(),
            "\t"@ == seq!['\t'],
            listing@ == joined(painted.deep_view().take(i as int)),
        decreases painted@.len() - i,
    {
        let ghost seen = painted.deep_view().take(i as int);
        listing.append(painted[i].as_str());
        listing.append("\t");
        i += 1;
        proof {
            let now = painted.deep_view().take(i as int);
            assert(now.drop_last() =~= seen);
            assert(now.last() == painted@[i - 1]@);
            assert(listing@ =~= joined(seen) + now.last().push('\t'));
        }
    }
    assert(painted.deep_view().take(i as int) =~= painted.deep_view());
    listing
}

/// Paints every candidate, in order.
pub fn paint_candidates(candidates: &Vec<String>) -> (painted: Vec<String>)
    ensures
        painted@.len() == candidates@.len(),
        forall|i: int|
            0 <= i < candidates@.len() && !(#[trigger] candidates@[i])@.contains(escape())
                ==> is_painted(painted@[i]@, candidates@[i]@),
{
    let mut painted: Vec<String> = Vec::new();
    let mut i: usize = 0;
    while i < candidates.len()
        invariant
            i <= candidates@.len(),
            painted@.len() == i,
            forall|j: int|
                0 <= j < i && !(#[trigger] candidates@[j])@.contains(escape()) ==> is_painted(
                    painted@[j]@,
                    candidates@[j]@,
                ),
        decreases candidates@.len() - i,
    {
        painted.push(paint_candidate(candidates[i].as_str()));
        i += 1;
    }
    painted
}

/// What holds of a listing whatever the environment: it is the joining of
/// as many painted texts as there are candidates, each of them its
/// candidate, painted.
pub open spec fn lists(listing: Seq<char>, candidates: Seq<Seq<char>>) -> bool {
    exists|painted: Seq<Seq<char>>|
        {
            &&& painted.len() == candidates.len()
            &&& forall|i: int|
                0 <= i < candidates.len() && !(#[trigger] candidates[i]).contains(escape())
                    ==> is_painted(painted[i], candidates[i])
            &&& #[trigger] joined(painted) == listing
        }
}

/// The listing that is shown when several candidates fit: every candidate
/// painted, a tab behind each, in the order of `candidates`.
pub fn candidate_listing(candidates: &Vec<String>) -> (listing: String)
    ensures
        lists(listing@, candidates.deep_view()),
{
    let painted = paint_candidates(candidates);
    let listing = join_listing(&painted);
    proof {
        let texts = painted.deep_view();
        let names = candidates.deep_view();
        assert forall|i: int|
            0 <= i < names.len() && !(#[trigger] names[i]).contains(escape()) implies is_painted(
            texts[i],
            names[i],
        ) by {
            assert(names[i] == candidates@[i]@);
        }
        assert(joined(texts) == listing@);
    }
    listing
}

} // verus!
