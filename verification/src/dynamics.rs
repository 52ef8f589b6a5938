//! The rules for the line of expression marks above a staff.
use crate::ast::{Dynamic, DynamicLevel};
use crate::chars::{at, decimal, lemma_run_within, run_len, CharClass};
use crate::grammar::Outcome;
use crate::input::ErrorKind;
use crate::voice::closing_bar;
use vstd::prelude::*;

verus! {

/// `{n}`: a run of digits between braces, with optional spaces and tabs
/// inside the braces. The number must fit sixteen bits; where it does not,
/// the failure is found at the opening brace.
#[verifier::opaque]
pub open spec fn position(s: Seq<char>, i: int) -> Outcome<u16> {
    let lead = run_len(s, i + 1, CharClass::Space);
    let digits = run_len(s, i + 1 + lead, CharClass::Digit);
    let trail = run_len(s, i + 1 + lead + digits, CharClass::Space);
    if !at(s, i, '{') {
        Outcome::Fail { kind: ErrorKind::DynamicsSyntax, at: i }
    } else if digits == 0 {
        Outcome::Fail { kind: ErrorKind::DynamicsSyntax, at: i + 1 + lead }
    } else if !at(s, i + 1 + lead + digits + trail, '}') {
        Outcome::Fail { kind: ErrorKind::DynamicsSyntax, at: i + 1 + lead + digits + trail }
    } else if decimal(s, i + 1 + lead, digits) > u16::MAX {
        Outcome::Fail { kind: ErrorKind::NumberTooLarge, at: i }
    } else {
        Outcome::Match {
            value: decimal(s, i + 1 + lead, digits) as u16,
            len: 1 + lead + digits + trail + 1,
        }
    }
}

/// `{n,m}`: two runs of digits with a comma between them, between braces.
/// Spaces and tabs may stand behind the opening and before the closing
/// brace, not around the comma. Both numbers must fit sixteen bits; where
/// one does not, the failure is found at the opening brace.
#[verifier::opaque]
pub open spec fn range(s: Seq<char>, i: int) -> Outcome<(u16, u16)> {
    let lead = run_len(s, i + 1, CharClass::Space);
    let first = i + 1 + lead;
    let digits = run_len(s, first, CharClass::Digit);
    let second = first + digits + 1;
    let more = run_len(s, second, CharClass::Digit);
    let trail = run_len(s, second + more, CharClass::Space);
    if !at(s, i, '{') {
        Outcome::Fail { kind: ErrorKind::DynamicsSyntax, at: i }
    } else if digits == 0 {
        Outcome::Fail { kind: ErrorKind::DynamicsSyntax, at: first }
    } else if !at(s, first + digits, ',') {
        Outcome::Fail { kind: ErrorKind::DynamicsSyntax, at: first + digits }
    } else if more == 0 {
        Outcome::Fail { kind: ErrorKind::DynamicsSyntax, at: second }
    } else if !at(s, second + more + trail, '}') {
        Outcome::Fail { kind: ErrorKind::DynamicsSyntax, at: second + more + trail }
    } else if decimal(s, first, digits) > u16::MAX || decimal(s, second, more) > u16::MAX {
        Outcome::Fail { kind: ErrorKind::NumberTooLarge, at: i }
    } else {
        Outcome::Match {
            value: (decimal(s, first, digits) as u16, decimal(s, second, more) as u16),
            len: 1 + lead + digits + 1 + more + trail + 1,
        }
    }
}

/// The level named at index `i`, and the length of its name. Of the names
/// that match there the longest counts: `fff` before `ff` before `f`, and
/// `ppp` before `pp` before `p`.
pub open spec fn level_name(s: Seq<char>, i: int) -> Option<(DynamicLevel, nat)> {
    if at(s, i, 'f') && at(s, i + 1, 'f') && at(s, i + 2, 'f') {
        Some((DynamicLevel::FFF, 3))
    } else if at(s, i, 'f') && at(s, i + 1, 'f') {
        Some((DynamicLevel::FF, 2))
    } else if at(s, i, 'f') {
        Some((DynamicLevel::F, 1))
    } else if at(s, i, 'm') && at(s, i + 1, 'f') {
        Some((DynamicLevel::MF, 2))
    } else if at(s, i, 'm') && at(s, i + 1, 'p') {
        Some((DynamicLevel::MP, 2))
    } else if at(s, i, 'p') && at(s, i + 1, 'p') && at(s, i + 2, 'p') {
        Some((DynamicLevel::PPP, 3))
    } else if at(s, i, 'p') && at(s, i + 1, 'p') {
        Some((DynamicLevel::PP, 2))
    } else if at(s, i, 'p') {
        Some((DynamicLevel::P, 1))
    } else {
        None
    }
}

/// A level mark: a level name, optional spaces and tabs, and a position.
pub open spec fn level_mark(s: Seq<char>, i: int) -> Outcome<Dynamic> {
    match level_name(s, i) {
        Some((kind, name)) => {
            let gap = run_len(s, i + name, CharClass::Space);
            match position(s, i + name + gap) {
                Outcome::Match { value, len } => Outcome::Match {
                    value: Dynamic::Level { pos: value, kind },
                    len: name + gap + len,
                },
                Outcome::Fail { kind, at } => Outcome::Fail { kind, at },
            }
        },
        None => Outcome::Fail { kind: ErrorKind::DynamicsSyntax, at: i },
    }
}

/// `DC`, optional spaces and tabs, and a position.
pub open spec fn da_capo_mark(s: Seq<char>, i: int) -> Outcome<Dynamic> {
    if at(s, i, 'D') && at(s, i + 1, 'C') {
        let gap = run_len(s, i + 2, CharClass::Space);
        match position(s, i + 2 + gap) {
            Outcome::Match { value, len } => Outcome::Match {
                value: Dynamic::DC { pos: value },
                len: 2 + gap + len,
            },
            Outcome::Fail { kind, at } => Outcome::Fail { kind, at },
        }
    } else {
        Outcome::Fail { kind: ErrorKind::DynamicsSyntax, at: i }
    }
}

/// `^`, optional spaces and tabs, and a position.
pub open spec fn accent_mark(s: Seq<char>, i: int) -> Outcome<Dynamic> {
    if at(s, i, '^') {
        let gap = run_len(s, i + 1, CharClass::Space);
        match position(s, i + 1 + gap) {
            Outcome::Match { value, len } => Outcome::Match {
                value: Dynamic::Accent { pos: value },
                len: 1 + gap + len,
            },
            Outcome::Fail { kind, at } => Outcome::Fail { kind, at },
        }
    } else {
        Outcome::Fail { kind: ErrorKind::DynamicsSyntax, at: i }
    }
}

/// `<` (growing) or `>` (fading), optional spaces and tabs, and a range.
pub open spec fn hairpin_mark(s: Seq<char>, i: int, growing: bool) -> Outcome<Dynamic> {
    if at(s, i, if growing { '<' } else { '>' }) {
        let gap = run_len(s, i + 1, CharClass::Space);
        match range(s, i + 1 + gap) {
            Outcome::Match { value, len } => Outcome::Match {
                value: if growing {
                    Dynamic::Crescendo { start: value.0, end: value.1 }
                } else {
                    Dynamic::Decrescendo { start: value.0, end: value.1 }
                },
                len: 1 + gap + len,
            },
            Outcome::Fail { kind, at } => Outcome::Fail { kind, at },
        }
    } else {
        Outcome::Fail { kind: ErrorKind::DynamicsSyntax, at: i }
    }
}

/// `dynMark`, by ordered choice: a level mark, `DC`, an accent, a
/// crescendo or a decrescendo. Where none matches, the failure is that of
/// the last, the decrescendo.
#[verifier::opaque]
pub open spec fn mark(s: Seq<char>, i: int) -> Outcome<Dynamic> {
    if level_mark(s, i) is Match {
        level_mark(s, i)
    } else if da_capo_mark(s, i) is Match {
        da_capo_mark(s, i)
    } else if accent_mark(s, i) is Match {
        accent_mark(s, i)
    } else if hairpin_mark(s, i, true) is Match {
        hairpin_mark(s, i, true)
    } else {
        hairpin_mark(s, i, false)
    }
}

/// A position that matches lies within the text.
pub proof fn lemma_position_within(s: Seq<char>, i: int)
    ensures
        position(s, i) is Match ==> 0 <= i && i + position(s, i)->len <= s.len(),
{
    reveal(position);
}

/// A range that matches lies within the text.
pub proof fn lemma_range_within(s: Seq<char>, i: int)
    ensures
        range(s, i) is Match ==> 0 <= i && i + range(s, i)->len <= s.len(),
{
    reveal(range);
}

/// A mark that matches lies within the text.
pub proof fn lemma_mark_within(s: Seq<char>, i: int)
    ensures
        mark(s, i) is Match ==> 0 <= i && i + mark(s, i)->len <= s.len(),
{
    reveal(mark);
    if let Some((_, name)) = level_name(s, i) {
        lemma_position_within(s, i + name + run_len(s, i + name, CharClass::Space));
    }
    lemma_position_within(s, i + 2 + run_len(s, i + 2, CharClass::Space));
    lemma_position_within(s, i + 1 + run_len(s, i + 1, CharClass::Space));
    lemma_range_within(s, i + 1 + run_len(s, i + 1, CharClass::Space));
}

/// The marks that follow one at index `i`, each behind one or more spaces
/// or tabs, and the number of characters they take. Blanks that no mark
/// follows are left unread.
pub open spec fn more_marks(s: Seq<char>, i: int) -> (Seq<Dynamic>, nat)
    decreases s.len() - i,
{
    let gap = run_len(s, i, CharClass::Space);
    if gap >= 1 {
        proof {
            lemma_mark_within(s, i + gap);
        }
        match mark(s, i + gap) {
            Outcome::Match { value, len } => {
                let (rest, more) = more_marks(s, i + gap + len);
                (seq![value] + rest, gap + len + more)
            },
            Outcome::Fail { .. } => (Seq::empty(), 0),
        }
    } else {
        (Seq::empty(), 0)
    }
}

/// Zero or more marks with blanks between each two, and the number of
/// characters they take.
pub open spec fn marks(s: Seq<char>, i: int) -> (Seq<Dynamic>, nat) {
    match mark(s, i) {
        Outcome::Match { value, len } => {
            let (rest, more) = more_marks(s, i + len);
            (seq![value] + rest, len + more)
        },
        Outcome::Fail { .. } => (Seq::empty(), 0),
    }
}

/// `dynamicsLine`: an optional `|:`, optional blanks, zero or more marks,
/// optional blanks, an optional closing bar `||` or `|`, and an optional
/// line feed. The rule always matches. Only behind `|:` does it yield the
/// marks it read: without it the marks are read and dropped.
#[verifier::opaque]
pub open spec fn dynamics_line(s: Seq<char>, i: int) -> Outcome<Seq<Dynamic>> {
    let flagged = at(s, i, '|') && at(s, i + 1, ':');
    let flag: nat = if flagged {
        2
    } else {
        0
    };
    let lead = run_len(s, i + flag, CharClass::Space);
    let (list, taken) = marks(s, i + flag + lead);
    let trail = run_len(s, i + flag + lead + taken, CharClass::Space);
    let bar = closing_bar(s, i + flag + lead + taken + trail);
    let feed: nat = if at(s, i + flag + lead + taken + trail + bar, '\n') {
        1
    } else {
        0
    };
    Outcome::Match {
        value: if flagged {
            list
        } else {
            Seq::empty()
        },
        len: flag + lead + taken + trail + bar + feed,
    }
}

/// The line of dynamics matches at every index of every text.
pub proof fn lemma_dynamics_line_matches(s: Seq<char>, i: int)
    ensures
        dynamics_line(s, i) is Match,
{
    reveal(dynamics_line);
}

} // verus!
