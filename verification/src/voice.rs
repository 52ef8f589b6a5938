//! The rules for pitches, rhythm and a voice's line of bars.
use crate::ast::{BaseNote, BeatDivision, BeatDivisionKind, Measure, Note, NoteVariant, Octave};
use crate::chars::{at, decimal, lemma_run_within, run_len, CharClass};
use crate::grammar::Outcome;
use crate::input::ErrorKind;
use vstd::prelude::*;

verus! {

/// The degree that a letter names, if it names one.
pub open spec fn degree_of(c: char) -> Option<BaseNote> {
    if c == 'd' {
        Some(BaseNote::D)
    } else if c == 'r' {
        Some(BaseNote::R)
    } else if c == 'm' {
        Some(BaseNote::M)
    } else if c == 'f' {
        Some(BaseNote::F)
    } else if c == 's' {
        Some(BaseNote::S)
    } else if c == 'l' {
        Some(BaseNote::L)
    } else if c == 't' {
        Some(BaseNote::T)
    } else {
        None
    }
}

/// `baseDegree`: one of the letters `d r m f s l t`.
pub open spec fn base_note(s: Seq<char>, i: int) -> Outcome<BaseNote> {
    if 0 <= i < s.len() && degree_of(s[i]) is Some {
        Outcome::Match { value: degree_of(s[i])->0, len: 1 }
    } else {
        Outcome::Fail { kind: ErrorKind::VoiceSyntax, at: i }
    }
}

/// The inflection written at index `i`, and the number of characters it
/// takes: `a` lowers, `i` raises, anything else is no inflection.
pub open spec fn variant_at(s: Seq<char>, i: int) -> (NoteVariant, nat) {
    if at(s, i, 'a') {
        (NoteVariant::Lowered, 1)
    } else if at(s, i, 'i') {
        (NoteVariant::Raised, 1)
    } else {
        (NoteVariant::Base, 0)
    }
}

/// Whether `sign` stands at index `i`, followed by digits that spell a
/// number of at most eight bits.
pub open spec fn signed_steps(s: Seq<char>, i: int, sign: char) -> bool {
    &&& at(s, i, sign)
    &&& run_len(s, i + 1, CharClass::Digit) >= 1
    &&& decimal(s, i + 1, run_len(s, i + 1, CharClass::Digit)) <= u8::MAX
}

/// The character that joins the two operands of a division of the level
/// `kind`.
pub open spec fn separator(kind: BeatDivisionKind) -> char {
    match kind {
        BeatDivisionKind::Normal => ':',
        BeatDivisionKind::Half => '.',
        BeatDivisionKind::Quarter => ',',
    }
}

/// Orders the rules that may call each other without consuming anything.
pub open spec fn rank(kind: BeatDivisionKind) -> nat {
    match kind {
        BeatDivisionKind::Normal => 6,
        BeatDivisionKind::Half => 5,
        BeatDivisionKind::Quarter => 4,
    }
}

/// `octave`: by ordered choice, `+` and digits (up), `-` and digits (down),
/// a run of commas that no division follows (down by their number), or a
/// run of apostrophes (up by their number). The number must fit eight bits.
/// Where none of them matches, the failure is found at `i`.
pub open spec fn octave(s: Seq<char>, i: int) -> Outcome<Octave>
    decreases s.len() - i, 0nat,
{
    let digits = run_len(s, i + 1, CharClass::Digit);
    let commas = run_len(s, i, CharClass::Comma);
    let ticks = run_len(s, i, CharClass::Apostrophe);
    if signed_steps(s, i, '+') {
        Outcome::Match { value: Octave::Up(decimal(s, i + 1, digits) as u8), len: 1 + digits }
    } else if signed_steps(s, i, '-') {
        Outcome::Match { value: Octave::Down(decimal(s, i + 1, digits) as u8), len: 1 + digits }
    } else if 1 <= commas <= u8::MAX && ({
        proof {
            lemma_run_within(s, i, CharClass::Comma);
        }
        division(s, i + commas, BeatDivisionKind::Normal) is Fail
    }) {
        Outcome::Match { value: Octave::Down(commas as u8), len: commas }
    } else if 1 <= ticks <= u8::MAX {
        Outcome::Match { value: Octave::Up(ticks as u8), len: ticks }
    } else {
        Outcome::Fail { kind: ErrorKind::VoiceSyntax, at: i }
    }
}

/// `note`: a degree, an optional inflection and an optional octave.
pub open spec fn note(s: Seq<char>, i: int) -> Outcome<Note>
    decreases s.len() - i, 1nat,
{
    if 0 <= i < s.len() && degree_of(s[i]) is Some {
        let (variant, vlen) = variant_at(s, i + 1);
        let base = degree_of(s[i])->0;
        match octave(s, i + 1 + vlen) {
            Outcome::Match { value, len } => Outcome::Match {
                value: Note { base, variant, octave: value },
                len: 1 + vlen + len,
            },
            Outcome::Fail { .. } => Outcome::Match {
                value: Note { base, variant, octave: Octave::Base },
                len: 1 + vlen,
            },
        }
    } else {
        Outcome::Fail { kind: ErrorKind::VoiceSyntax, at: i }
    }
}

/// What stands between the blanks of a `baseBeat`: a rest `-`, a note, or a
/// division between two underscores.
pub open spec fn beat_core(s: Seq<char>, i: int) -> Outcome<Measure>
    decreases s.len() - i, 2nat,
{
    if at(s, i, '-') {
        Outcome::Match { value: Measure::EmptyNote, len: 1 }
    } else if note(s, i) is Match {
        Outcome::Match { value: Measure::Note(note(s, i)->value), len: note(s, i)->len }
    } else if at(s, i, '_') {
        match division(s, i + 1, BeatDivisionKind::Normal) {
            Outcome::Match { value, len } => if at(s, i + 1 + len, '_') {
                Outcome::Match { value: Measure::UnderlinedMeasure(Box::new(value)), len: len + 2 }
            } else {
                Outcome::Fail { kind: ErrorKind::VoiceSyntax, at: i + 1 + len }
            },
            Outcome::Fail { kind, at } => Outcome::Fail { kind, at },
        }
    } else {
        Outcome::Fail { kind: ErrorKind::VoiceSyntax, at: i }
    }
}

/// `baseBeat`: a rest, a note or an underline group, with optional spaces
/// and tabs on both sides.
pub open spec fn base_beat(s: Seq<char>, i: int) -> Outcome<Measure>
    decreases s.len() - i, 3nat,
{
    let lead = run_len(s, i, CharClass::Space);
    proof {
        if lead > 0 {
            lemma_run_within(s, i, CharClass::Space);
        }
    }
    match beat_core(s, i + lead) {
        Outcome::Match { value, len } => Outcome::Match {
            value,
            len: lead + len + run_len(s, i + lead + len, CharClass::Space),
        },
        Outcome::Fail { kind, at } => Outcome::Fail { kind, at },
    }
}

/// `quarterDiv`, `halfDiv` and `normalDiv`, by the level `kind`: an operand
/// of the next tighter level, then optionally the level's separator and
/// another division of the same level. A division node is built only where
/// the right operand is there; a separator that none follows is left
/// unread.
pub open spec fn division(s: Seq<char>, i: int, kind: BeatDivisionKind) -> Outcome<Measure>
    decreases s.len() - i, rank(kind),
{
    let first = match kind {
        BeatDivisionKind::Normal => division(s, i, BeatDivisionKind::Half),
        BeatDivisionKind::Half => division(s, i, BeatDivisionKind::Quarter),
        BeatDivisionKind::Quarter => base_beat(s, i),
    };
    match first {
        Outcome::Match { value: lhs, len } => if at(s, i + len, separator(kind)) {
            match division(s, i + len + 1, kind) {
                Outcome::Match { value: rhs, len: more } => Outcome::Match {
                    value: Measure::BeatDivision(
                        BeatDivision { lhs: Box::new(lhs), rhs: Box::new(rhs), kind },
                    ),
                    len: len + 1 + more,
                },
                Outcome::Fail { .. } => first,
            }
        } else {
            first
        },
        Outcome::Fail { .. } => first,
    }
}

/// An octave marker that matches lies within the text.
pub proof fn lemma_octave_within(s: Seq<char>, i: int)
    ensures
        octave(s, i) is Match ==> 0 <= i && i + octave(s, i)->len <= s.len(),
{
    if 0 <= i <= s.len() {
        lemma_run_within(s, i, CharClass::Comma);
        lemma_run_within(s, i, CharClass::Apostrophe);
        if i < s.len() {
            lemma_run_within(s, i + 1, CharClass::Digit);
        }
    }
}

/// A note that matches lies within the text.
pub proof fn lemma_note_within(s: Seq<char>, i: int)
    ensures
        note(s, i) is Match ==> 0 <= i && i + note(s, i)->len <= s.len(),
{
    if 0 <= i < s.len() {
        lemma_octave_within(s, i + 1 + variant_at(s, i + 1).1);
    }
}

/// What stands between the blanks of a beat, where it matches, lies within
/// the text.
pub proof fn lemma_beat_core_within(s: Seq<char>, i: int)
    ensures
        beat_core(s, i) is Match ==> 0 <= i && i + beat_core(s, i)->len <= s.len(),
    decreases s.len() - i, 2nat,
{
    lemma_note_within(s, i);
    if at(s, i, '_') {
        lemma_division_within(s, i + 1, BeatDivisionKind::Normal);
    }
}

/// A beat that matches lies within the text.
pub proof fn lemma_base_beat_within(s: Seq<char>, i: int)
    ensures
        base_beat(s, i) is Match ==> 0 <= i && i + base_beat(s, i)->len <= s.len(),
    decreases s.len() - i, 3nat,
{
    let lead = run_len(s, i, CharClass::Space);
    if lead > 0 {
        lemma_run_within(s, i, CharClass::Space);
    }
    lemma_beat_core_within(s, i + lead);
    if beat_core(s, i + lead) is Match {
        lemma_run_within(s, i + lead + beat_core(s, i + lead)->len, CharClass::Space);
    }
}

/// A division that matches lies within the text.
pub proof fn lemma_division_within(s: Seq<char>, i: int, kind: BeatDivisionKind)
    ensures
        division(s, i, kind) is Match ==> 0 <= i && i + division(s, i, kind)->len <= s.len(),
    decreases s.len() - i, rank(kind),
{
    let first = match kind {
        BeatDivisionKind::Normal => division(s, i, BeatDivisionKind::Half),
        BeatDivisionKind::Half => division(s, i, BeatDivisionKind::Quarter),
        BeatDivisionKind::Quarter => base_beat(s, i),
    };
    match kind {
        BeatDivisionKind::Normal => lemma_division_within(s, i, BeatDivisionKind::Half),
        BeatDivisionKind::Half => lemma_division_within(s, i, BeatDivisionKind::Quarter),
        BeatDivisionKind::Quarter => lemma_base_beat_within(s, i),
    }
    if first is Match && at(s, i + first->len, separator(kind)) {
        lemma_division_within(s, i + first->len + 1, kind);
    }
}

/// The divisions that follow the first one of a line, each behind a single
/// bar `|`, and the number of characters they take. A bar that no division
/// follows is left unread.
pub open spec fn more_divisions(s: Seq<char>, i: int) -> (Seq<Measure>, nat)
    decreases s.len() - i,
{
    if at(s, i, '|') {
        proof {
            lemma_division_within(s, i + 1, BeatDivisionKind::Normal);
        }
        match division(s, i + 1, BeatDivisionKind::Normal) {
            Outcome::Match { value, len } => {
                let (rest, more) = more_divisions(s, i + 1 + len);
                (seq![value] + rest, 1 + len + more)
            },
            Outcome::Fail { .. } => (Seq::empty(), 0),
        }
    } else {
        (Seq::empty(), 0)
    }
}

/// The number of characters of the bar that closes a line at index `i`:
/// 2 for `||`, 1 for `|`, 0 where there is no bar.
pub open spec fn closing_bar(s: Seq<char>, i: int) -> nat {
    if at(s, i, '|') && at(s, i + 1, '|') {
        2
    } else if at(s, i, '|') {
        1
    } else {
        0
    }
}

/// `measure`: optional blanks and line breaks, an optional bar, one or more
/// normal divisions with a single bar between each two, and a closing bar
/// `||` or `|`.
#[verifier::opaque]
pub open spec fn voice_line(s: Seq<char>, i: int) -> Outcome<Seq<Measure>> {
    let lead = run_len(s, i, CharClass::Multispace);
    let bar: nat = if at(s, i + lead, '|') {
        1
    } else {
        0
    };
    match division(s, i + lead + bar, BeatDivisionKind::Normal) {
        Outcome::Match { value, len } => {
            let (rest, more) = more_divisions(s, i + lead + bar + len);
            let end = i + lead + bar + len + more;
            if closing_bar(s, end) == 0 {
                Outcome::Fail { kind: ErrorKind::VoiceSyntax, at: end }
            } else {
                Outcome::Match {
                    value: seq![value] + rest,
                    len: lead + bar + len + more + closing_bar(s, end),
                }
            }
        },
        Outcome::Fail { kind, at } => Outcome::Fail { kind, at },
    }
}

/// The divisions that follow one inside the text end inside it.
pub proof fn lemma_more_divisions_within(s: Seq<char>, i: int)
    requires
        0 <= i <= s.len(),
    ensures
        i + more_divisions(s, i).1 <= s.len(),
    decreases s.len() - i,
{
    if at(s, i, '|') {
        lemma_division_within(s, i + 1, BeatDivisionKind::Normal);
        if let Outcome::Match { value, len } = division(s, i + 1, BeatDivisionKind::Normal) {
            lemma_more_divisions_within(s, i + 1 + len);
        }
    }
}

/// A line of bars that matches lies within the text.
pub proof fn lemma_voice_line_within(s: Seq<char>, i: int)
    ensures
        voice_line(s, i) is Match ==> 0 <= i && i + voice_line(s, i)->len <= s.len(),
{
    reveal(voice_line);
    let lead = run_len(s, i, CharClass::Multispace);
    let bar: nat = if at(s, i + lead, '|') {
        1
    } else {
        0
    };
    if lead > 0 {
        lemma_run_within(s, i, CharClass::Multispace);
    }
    lemma_division_within(s, i + lead + bar, BeatDivisionKind::Normal);
    if let Outcome::Match { value, len } = division(s, i + lead + bar, BeatDivisionKind::Normal) {
        lemma_more_divisions_within(s, i + lead + bar + len);
    }
}

} // verus!
