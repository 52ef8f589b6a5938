//! The rules for a staff and for a whole score.
use crate::ast::{
    assemble, LyricsTreeView, Measure, SolfaView, StaffPartialView, StaffView,
};
use crate::chars::{at, lemma_run_within, run_len, CharClass};
use crate::dynamics::dynamics_line;
use crate::grammar::Outcome;
use crate::header::header_of;
use crate::input::ErrorKind;
use crate::lyrics::{lemma_lyrics_block_within, lyrics_block};
use crate::metadata::{header_lines, separator_at};
use crate::voice::{closing_bar, lemma_voice_line_within, voice_line};
use vstd::prelude::*;

verus! {

/// `barRule`: a decorative line `|`, one or more `-`, `||` or `|`, and a
/// line feed.
#[verifier::opaque]
pub open spec fn bar_rule(s: Seq<char>, i: int) -> Outcome<()> {
    let dashes = run_len(s, i + 1, CharClass::Dash);
    let bar = closing_bar(s, i + 1 + dashes);
    if !at(s, i, '|') {
        Outcome::Fail { kind: ErrorKind::VoiceSyntax, at: i }
    } else if dashes == 0 {
        Outcome::Fail { kind: ErrorKind::VoiceSyntax, at: i + 1 }
    } else if bar == 0 {
        Outcome::Fail { kind: ErrorKind::VoiceSyntax, at: i + 1 + dashes }
    } else if !at(s, i + 1 + dashes + bar, '\n') {
        Outcome::Fail { kind: ErrorKind::VoiceSyntax, at: i + 1 + dashes + bar }
    } else {
        Outcome::Match { value: (), len: 1 + dashes + bar + 1 }
    }
}

/// The verses of one voice, if a `lyricsBlock` matches at index `i`, and
/// the number of characters they take.
pub open spec fn optional_lyrics(s: Seq<char>, i: int) -> (Option<Seq<LyricsTreeView>>, nat) {
    match lyrics_block(s, i) {
        Outcome::Match { value, len } => (Some(value), len),
        Outcome::Fail { .. } => (None, 0),
    }
}

/// `voiceBlock`: one voice's line of bars, followed by the voice's verses
/// where it has any.
#[verifier::opaque]
pub open spec fn voice_block(s: Seq<char>, i: int) -> Outcome<
    (Seq<Measure>, Option<Seq<LyricsTreeView>>),
> {
    match voice_line(s, i) {
        Outcome::Match { value, len } => {
            let (lyrics, more) = optional_lyrics(s, i + len);
            Outcome::Match { value: (value, lyrics), len: len + more }
        },
        Outcome::Fail { kind, at } => Outcome::Fail { kind, at },
    }
}

/// A staff as it is read: the line of dynamics, an optional bar rule, and
/// four voice blocks.
#[verifier::opaque]
pub open spec fn staff_partial(s: Seq<char>, i: int) -> Outcome<StaffPartialView> {
    let marks = dynamics_line(s, i);
    let rule: nat = match bar_rule(s, i + marks->len) {
        Outcome::Match { len, .. } => len,
        Outcome::Fail { .. } => 0,
    };
    let first = i + marks->len + rule;
    match voice_block(s, first) {
        Outcome::Match { value: one, len: len1 } => match voice_block(s, first + len1) {
            Outcome::Match { value: two, len: len2 } => match voice_block(
                s,
                first + len1 + len2,
            ) {
                Outcome::Match { value: three, len: len3 } => match voice_block(
                    s,
                    first + len1 + len2 + len3,
                ) {
                    Outcome::Match { value: four, len: len4 } => Outcome::Match {
                        value: StaffPartialView {
                            dynamics: marks->value,
                            voice1: one.0,
                            lyrics1: one.1,
                            voice2: two.0,
                            lyrics2: two.1,
                            voice3: three.0,
                            lyrics3: three.1,
                            voice4: four.0,
                            lyrics4: four.1,
                        },
                        len: marks->len + rule + len1 + len2 + len3 + len4,
                    },
                    Outcome::Fail { kind, at } => Outcome::Fail { kind, at },
                },
                Outcome::Fail { kind, at } => Outcome::Fail { kind, at },
            },
            Outcome::Fail { kind, at } => Outcome::Fail { kind, at },
        },
        Outcome::Fail { kind, at } => Outcome::Fail { kind, at },
    }
}

/// `staff`: what is read voice by voice, put together into a staff.
#[verifier::opaque]
pub open spec fn staff(s: Seq<char>, i: int) -> Outcome<StaffView> {
    match staff_partial(s, i) {
        Outcome::Match { value, len } => Outcome::Match { value: assemble(value), len },
        Outcome::Fail { kind, at } => Outcome::Fail { kind, at },
    }
}

/// A staff that matches from inside the text lies within it.
pub proof fn lemma_staff_within(s: Seq<char>, i: int)
    requires
        0 <= i <= s.len(),
    ensures
        staff(s, i) is Match ==> i + staff(s, i)->len <= s.len(),
{
    reveal(staff);
    reveal(staff_partial);
    let marks = dynamics_line(s, i);
    let rule: nat = match bar_rule(s, i + marks->len) {
        Outcome::Match { len, .. } => len,
        Outcome::Fail { .. } => 0,
    };
    let first = i + marks->len + rule;
    if let Outcome::Match { value: one, len: len1 } = voice_block(s, first) {
        if let Outcome::Match { value: two, len: len2 } = voice_block(s, first + len1) {
            if let Outcome::Match { value: three, len: len3 } = voice_block(
                s,
                first + len1 + len2,
            ) {
                lemma_voice_block_within(s, first + len1 + len2 + len3);
            }
        }
    }
}

/// A voice block that matches lies within the text.
pub proof fn lemma_voice_block_within(s: Seq<char>, i: int)
    ensures
        voice_block(s, i) is Match ==> 0 <= i && i + voice_block(s, i)->len <= s.len(),
{
    reveal(voice_block);
    lemma_voice_line_within(s, i);
    if let Outcome::Match { value, len } = voice_line(s, i) {
        lemma_lyrics_block_within(s, i + len);
    }
}

/// The staves that follow one at index `i`, each behind one or more blanks
/// or line breaks, and the number of characters they take. Blanks that no
/// staff follows are left unread.
pub open spec fn more_staves(s: Seq<char>, i: int) -> (Seq<StaffView>, nat)
    decreases s.len() - i,
{
    let gap = run_len(s, i, CharClass::Multispace);
    if gap >= 1 {
        proof {
            lemma_run_within(s, i, CharClass::Multispace);
            lemma_staff_within(s, i + gap);
        }
        match staff(s, i + gap) {
            Outcome::Match { value, len } => {
                let (rest, more) = more_staves(s, i + gap + len);
                (seq![value] + rest, gap + len + more)
            },
            Outcome::Fail { .. } => (Seq::empty(), 0),
        }
    } else {
        (Seq::empty(), 0)
    }
}

/// `document`: optional blanks and line breaks, the header block, optional
/// blanks and line breaks, the separator `---`, blanks or line breaks, one
/// or more staves with blanks or line breaks between each two, and
/// optional blanks and line breaks.
///
/// Where the text ends behind the header block, or no blanks or line
/// breaks follow the separator, the separator line is missing. The header
/// maps each key to the value of the last line that has the key.
pub open spec fn document(s: Seq<char>, i: int) -> Outcome<SolfaView> {
    let lead = run_len(s, i, CharClass::Multispace);
    match header_lines(s, i + lead) {
        Outcome::Match { value: lines, len: taken } => {
            let gap = run_len(s, i + lead + taken, CharClass::Multispace);
            let rule = i + lead + taken + gap;
            let space = run_len(s, rule + 3, CharClass::Multispace);
            let first = rule + 3 + space;
            if !separator_at(s, rule) {
                Outcome::Fail { kind: ErrorKind::MissingSeparator, at: rule }
            } else if space == 0 {
                Outcome::Fail { kind: ErrorKind::MissingSeparator, at: rule + 3 }
            } else {
                match staff(s, first) {
                    Outcome::Match { value, len } => {
                        let (rest, more) = more_staves(s, first + len);
                        Outcome::Match {
                            value: SolfaView {
                                header: header_of(lines),
                                staffs: seq![value] + rest,
                            },
                            len: lead + taken + gap + 3 + space + len + more + run_len(
                                s,
                                first + len + more,
                                CharClass::Multispace,
                            ),
                        }
                    },
                    Outcome::Fail { kind, at } => Outcome::Fail { kind, at },
                }
            }
        },
        Outcome::Fail { kind, at } => Outcome::Fail { kind, at },
    }
}

} // verus!
