//! The rules for the header lines of a score.
use crate::chars::{at, lemma_run_within, run_len, CharClass};
use crate::grammar::Outcome;
use crate::header::Entry;
use crate::input::ErrorKind;
use vstd::prelude::*;

verus! {

/// One header line, without its line feed: a key of letters and digits,
/// optional blanks, `:`, optional blanks, and a value, which is what
/// stands up to the end of the line and is not empty.
#[verifier::opaque]
pub open spec fn header_line(s: Seq<char>, i: int) -> Outcome<Entry> {
    let key = run_len(s, i, CharClass::Alphanumeric);
    let lead = run_len(s, i + key, CharClass::Space);
    let colon = i + key + lead;
    let trail = run_len(s, colon + 1, CharClass::Space);
    let start = colon + 1 + trail;
    let value = run_len(s, start, CharClass::LineText);
    if key == 0 {
        Outcome::Fail { kind: ErrorKind::MetadataSyntax, at: i }
    } else if !at(s, colon, ':') {
        Outcome::Fail { kind: ErrorKind::MetadataSyntax, at: colon }
    } else if value == 0 {
        Outcome::Fail { kind: ErrorKind::MetadataSyntax, at: start }
    } else {
        Outcome::Match {
            value: (s.subrange(i, i + key), s.subrange(start, start + value)),
            len: key + lead + 1 + trail + value,
        }
    }
}

/// A header line that matches lies within the text.
pub proof fn lemma_header_line_within(s: Seq<char>, i: int)
    ensures
        header_line(s, i) is Match ==> 0 <= i && i + header_line(s, i)->len <= s.len(),
{
    reveal(header_line);
    let key = run_len(s, i, CharClass::Alphanumeric);
    let lead = run_len(s, i + key, CharClass::Space);
    let trail = run_len(s, i + key + lead + 1, CharClass::Space);
    if header_line(s, i) is Match {
        lemma_run_within(s, i + key + lead + 1, CharClass::Space);
        lemma_run_within(s, i + key + lead + 1 + trail, CharClass::LineText);
    }
}

/// The header lines that follow one at index `i`, each behind a single
/// line feed, and the number of characters they take. A line feed that no
/// header line follows is left unread.
pub open spec fn more_lines(s: Seq<char>, i: int) -> (Seq<Entry>, nat)
    decreases s.len() - i,
{
    if at(s, i, '\n') {
        proof {
            lemma_header_line_within(s, i + 1);
        }
        match header_line(s, i + 1) {
            Outcome::Match { value, len } => {
                let (rest, more) = more_lines(s, i + 1 + len);
                (seq![value] + rest, 1 + len + more)
            },
            Outcome::Fail { .. } => (Seq::empty(), 0),
        }
    } else {
        (Seq::empty(), 0)
    }
}

/// Whether the line `---` that closes the header starts at index `i`.
pub open spec fn separator_at(s: Seq<char>, i: int) -> bool {
    at(s, i, '-') && at(s, i + 1, '-') && at(s, i + 2, '-')
}

/// `header`: the header block of a score: zero or more header lines with a
/// single line feed between each two.
///
/// The block ends before the line feed that no header line follows. Behind
/// it, and behind any blanks and line breaks, the text has to end or the
/// separator `---` has to stand. What else stands there is a line that
/// does not belong to a header, and the rule fails at its first character.
/// The rule takes the header lines only, not the blanks behind them.
#[verifier::opaque]
pub open spec fn header_lines(s: Seq<char>, i: int) -> Outcome<Seq<Entry>> {
    let (lines, taken): (Seq<Entry>, nat) = match header_line(s, i) {
        Outcome::Match { value, len } => {
            let (rest, more) = more_lines(s, i + len);
            (seq![value] + rest, len + more)
        },
        Outcome::Fail { .. } => (Seq::empty(), 0),
    };
    let next = i + taken + run_len(s, i + taken, CharClass::Multispace);
    if next >= s.len() || separator_at(s, next) {
        Outcome::Match { value: lines, len: taken }
    } else {
        Outcome::Fail { kind: ErrorKind::MetadataSyntax, at: next }
    }
}

} // verus!
