//! The parsers. Each reads from a cursor and is proved to do exactly what
//! its rule says.
use crate::ast::{
    BaseNote, BeatDivision, BeatDivisionKind, Dynamic, DynamicLevel, LyricsChunk, LyricsMeasure,
    LyricsTree, LyricsTreeView, Measure, Note, NoteVariant, Octave, Solfa, Staff, StaffPartial,
    StaffView,
};
use crate::chars::CharClass;
use crate::dynamics;
use crate::grammar::{parsed, Outcome};
use crate::header::{header_of, Entry, Header};
use crate::input::{ErrorKind, Input, ParseError};
use crate::lyrics;
use crate::metadata;
use crate::score;
use crate::voice;
use vstd::prelude::*;

verus! {

/// The degree that the letter `c` names, if it names one.
fn degree(c: char) -> (base: Option<BaseNote>)
    ensures
        base == voice::degree_of(c),
{
    match c {
        'd' => Some(BaseNote::D),
        'r' => Some(BaseNote::R),
        'm' => Some(BaseNote::M),
        'f' => Some(BaseNote::F),
        's' => Some(BaseNote::S),
        'l' => Some(BaseNote::L),
        't' => Some(BaseNote::T),
        _ => None,
    }
}

/// Reads `+` or `-` and the digits behind it as a number of octave steps.
/// Where that cannot be done the cursor stays.
fn signed_steps(input: &mut Input, sign: char) -> (steps: Option<u8>)
    ensures
        final(input).text() == old(input).text(),
        steps is Some <==> voice::signed_steps(old(input).text(), old(input).pos(), sign),
        steps is Some ==> steps->0 == crate::chars::decimal(
            old(input).text(),
            old(input).pos() + 1,
            crate::chars::run_len(old(input).text(), old(input).pos() + 1, CharClass::Digit),
        ) && final(input).pos() == old(input).pos() + 1 + crate::chars::run_len(
            old(input).text(),
            old(input).pos() + 1,
            CharClass::Digit,
        ),
        steps is None ==> final(input).pos() == old(input).pos(),
{
    if !input.sees(0, sign) {
        return None;
    }
    let start = input.position();
    let digits = input.run_from(start + 1, CharClass::Digit);
    if digits == 0 {
        return None;
    }
    match input.number(start + 1, digits, 255) {
        Some(value) => {
            input.seek(start + 1 + digits);
            Some(value as u8)
        },
        None => None,
    }
}

/// Parses an octave marker: `+` or `-` and a number, a run of commas that
/// no division follows, or a run of apostrophes.
pub fn octave_parser(input: &mut Input) -> (result: Result<Octave, ParseError>)
    ensures
        parsed(
            *old(input),
            *final(input),
            result,
            voice::octave(old(input).text(), old(input).pos()),
        ),
    decreases old(input).text().len() - old(input).pos(), 0nat,
{
    let start = input.position();
    if let Some(steps) = signed_steps(input, '+') {
        return Ok(Octave::Up(steps));
    }
    if let Some(steps) = signed_steps(input, '-') {
        return Ok(Octave::Down(steps));
    }
    let commas = input.run_from(start, CharClass::Comma);
    if 1 <= commas && commas <= 255 {
        input.seek(start + commas);
        let follows = normal_div_parser(input);
        if follows.is_err() {
            input.seek(start + commas);
            return Ok(Octave::Down(commas as u8));
        }
    }
    let ticks = input.run_from(start, CharClass::Apostrophe);
    if 1 <= ticks && ticks <= 255 {
        input.seek(start + ticks);
        return Ok(Octave::Up(ticks as u8));
    }
    input.seek(start);
    Err(ParseError { kind: ErrorKind::VoiceSyntax, pos: start })
}

/// Parses one of the degree letters `d r m f s l t`.
pub fn base_note_parser(input: &mut Input) -> (result: Result<BaseNote, ParseError>)
    ensures
        parsed(
            *old(input),
            *final(input),
            result,
            voice::base_note(old(input).text(), old(input).pos()),
        ),
{
    let start = input.position();
    if let Some(c) = input.peek() {
        if let Some(base) = degree(c) {
            input.skip(1);
            return Ok(base);
        }
    }
    Err(ParseError { kind: ErrorKind::VoiceSyntax, pos: start })
}

/// Parses a note: a degree, an optional inflection `a` or `i`, and an
/// optional octave marker.
pub fn note_parser(input: &mut Input) -> (result: Result<Note, ParseError>)
    ensures
        parsed(
            *old(input),
            *final(input),
            result,
            voice::note(old(input).text(), old(input).pos()),
        ),
    decreases old(input).text().len() - old(input).pos(), 1nat,
{
    let base = base_note_parser(input)?;
    let variant = if input.sees(0, 'a') {
        input.skip(1);
        NoteVariant::Lowered
    } else if input.sees(0, 'i') {
        input.skip(1);
        NoteVariant::Raised
    } else {
        NoteVariant::Base
    };
    let mark = input.position();
    let octave = match octave_parser(input) {
        Ok(octave) => octave,
        Err(_) => {
            input.seek(mark);
            Octave::Base
        },
    };
    Ok(Note { base, variant, octave })
}

/// Parses a rest, a note or an underline group, without the blanks around
/// it.
fn beat_core(input: &mut Input) -> (result: Result<Measure, ParseError>)
    ensures
        parsed(
            *old(input),
            *final(input),
            result,
            voice::beat_core(old(input).text(), old(input).pos()),
        ),
    decreases old(input).text().len() - old(input).pos(), 2nat,
{
    let start = input.position();
    if input.sees(0, '-') {
        input.skip(1);
        return Ok(Measure::EmptyNote);
    }
    if let Ok(note) = note_parser(input) {
        return Ok(Measure::Note(note));
    }
    input.seek(start);
    if !input.sees(0, '_') {
        return Err(ParseError { kind: ErrorKind::VoiceSyntax, pos: start });
    }
    input.skip(1);
    let inner = normal_div_parser(input)?;
    if !input.sees(0, '_') {
        return Err(ParseError { kind: ErrorKind::VoiceSyntax, pos: input.position() });
    }
    input.skip(1);
    Ok(Measure::UnderlinedMeasure(Box::new(inner)))
}

/// Parses a rest `-`, a note, or a division between two underscores, with
/// optional spaces and tabs on both sides.
pub fn base_beat_parser(input: &mut Input) -> (result: Result<Measure, ParseError>)
    ensures
        parsed(
            *old(input),
            *final(input),
            result,
            voice::base_beat(old(input).text(), old(input).pos()),
        ),
    decreases old(input).text().len() - old(input).pos(), 3nat,
{
    input.skip_run(CharClass::Space);
    let beat = beat_core(input)?;
    input.skip_run(CharClass::Space);
    Ok(beat)
}

/// The separator of a division level.
fn separator(kind: BeatDivisionKind) -> (c: char)
    ensures
        c == voice::separator(kind),
{
    match kind {
        BeatDivisionKind::Normal => ':',
        BeatDivisionKind::Half => '.',
        BeatDivisionKind::Quarter => ',',
    }
}

/// Parses a division of the level `kind`.
fn division(input: &mut Input, kind: BeatDivisionKind) -> (result: Result<Measure, ParseError>)
    ensures
        parsed(
            *old(input),
            *final(input),
            result,
            voice::division(old(input).text(), old(input).pos(), kind),
        ),
    decreases old(input).text().len() - old(input).pos(), voice::rank(kind),
{
    let lhs = match kind {
        BeatDivisionKind::Normal => division(input, BeatDivisionKind::Half),
        BeatDivisionKind::Half => division(input, BeatDivisionKind::Quarter),
        BeatDivisionKind::Quarter => base_beat_parser(input),
    }?;
    if !input.sees(0, separator(kind)) {
        return Ok(lhs);
    }
    let mark = input.position();
    input.skip(1);
    match division(input, kind) {
        Ok(rhs) => Ok(Measure::BeatDivision(BeatDivision::new(kind, lhs, rhs))),
        Err(_) => {
            input.seek(mark);
            Ok(lhs)
        },
    }
}

/// Parses a quarter-level division: a beat, then optionally `,` and another
/// quarter-level division.
pub fn quarter_div_parser(input: &mut Input) -> (result: Result<Measure, ParseError>)
    ensures
        parsed(
            *old(input),
            *final(input),
            result,
            voice::division(
                old(input).text(),
                old(input).pos(),
                BeatDivisionKind::Quarter,
            ),
        ),
    decreases old(input).text().len() - old(input).pos(), 7nat,
{
    division(input, BeatDivisionKind::Quarter)
}

/// Parses a half-level division: a quarter-level division, then optionally
/// `.` and another half-level division.
pub fn half_div_parser(input: &mut Input) -> (result: Result<Measure, ParseError>)
    ensures
        parsed(
            *old(input),
            *final(input),
            result,
            voice::division(old(input).text(), old(input).pos(), BeatDivisionKind::Half),
        ),
    decreases old(input).text().len() - old(input).pos(), 7nat,
{
    division(input, BeatDivisionKind::Half)
}

/// Parses a normal-level division: a half-level division, then optionally
/// `:` and another normal-level division.
pub fn normal_div_parser(input: &mut Input) -> (result: Result<Measure, ParseError>)
    ensures
        parsed(
            *old(input),
            *final(input),
            result,
            voice::division(
                old(input).text(),
                old(input).pos(),
                BeatDivisionKind::Normal,
            ),
        ),
    decreases old(input).text().len() - old(input).pos(), 7nat,
{
    division(input, BeatDivisionKind::Normal)
}

/// Reads the bar that closes a line, `||` or `|`, if one stands at the
/// cursor, and returns the number of characters read.
fn closing_bar(input: &mut Input) -> (n: usize)
    ensures
        final(input).text() == old(input).text(),
        n == voice::closing_bar(old(input).text(), old(input).pos()),
        final(input).pos() == old(input).pos() + n,
{
    if input.sees(0, '|') && input.sees(1, '|') {
        input.skip(2);
        2
    } else if input.sees(0, '|') {
        input.skip(1);
        1
    } else {
        0
    }
}

/// Parses one voice's line of bars: optional blanks and line breaks, an
/// optional bar, one or more normal divisions with a single bar between
/// each two, and a closing `||` or `|`.
pub fn measure_parser(input: &mut Input) -> (result: Result<Vec<Measure>, ParseError>)
    ensures
        parsed(
            *old(input),
            *final(input),
            result,
            voice::voice_line(old(input).text(), old(input).pos()),
        ),
{
    proof {
        reveal(voice::voice_line);
    }
    let ghost text = input.text();
    input.skip_run(CharClass::Multispace);
    if input.sees(0, '|') {
        input.skip(1);
    }
    let first = normal_div_parser(input)?;
    let ghost head = first;
    let ghost from = input.pos();
    proof {
        use_type_invariant(&*input);
    }
    let mut bars: Vec<Measure> = Vec::new();
    bars.push(first);
    assert(bars.deep_view() =~= seq![head]);
    loop
        invariant
            input.text() == text,
            from <= input.pos() <= text.len(),
            seq![head] + voice::more_divisions(text, from).0 =~= bars.deep_view()
                + voice::more_divisions(text, input.pos()).0,
            from + voice::more_divisions(text, from).1 == input.pos() + voice::more_divisions(
                text,
                input.pos(),
            ).1,
        ensures
            voice::more_divisions(text, input.pos()) == (Seq::<Measure>::empty(), 0nat),
        decreases text.len() - input.pos(),
    {
        if !input.sees(0, '|') {
            break ;
        }
        let mark = input.position();
        input.skip(1);
        match normal_div_parser(input) {
            Ok(next) => {
                let ghost before = bars.deep_view();
                bars.push(next);
                assert(bars.deep_view() =~= before.push(next));
                proof {
                    voice::lemma_division_within(text, mark + 1, BeatDivisionKind::Normal);
                }
            },
            Err(_) => {
                input.seek(mark);
                break ;
            },
        }
    }
    let end = input.position();
    if closing_bar(input) == 0 {
        return Err(ParseError { kind: ErrorKind::VoiceSyntax, pos: end });
    }
    Ok(bars)
}

/// Parses a position `{n}`: digits between braces, with optional blanks
/// inside the braces.
pub fn pos_parser(input: &mut Input) -> (result: Result<u16, ParseError>)
    ensures
        parsed(
            *old(input),
            *final(input),
            result,
            dynamics::position(old(input).text(), old(input).pos()),
        ),
{
    proof {
        reveal(dynamics::position);
    }
    let start = input.position();
    if !input.sees(0, '{') {
        return Err(ParseError { kind: ErrorKind::DynamicsSyntax, pos: start });
    }
    input.skip(1);
    input.skip_run(CharClass::Space);
    let first = input.position();
    let digits = input.skip_run(CharClass::Digit);
    if digits == 0 {
        return Err(ParseError { kind: ErrorKind::DynamicsSyntax, pos: first });
    }
    input.skip_run(CharClass::Space);
    if !input.sees(0, '}') {
        return Err(ParseError { kind: ErrorKind::DynamicsSyntax, pos: input.position() });
    }
    input.skip(1);
    match input.number(first, digits, 0xffff) {
        Some(value) => Ok(value as u16),
        None => {
            input.seek(start);
            Err(ParseError { kind: ErrorKind::NumberTooLarge, pos: start })
        },
    }
}

/// Parses a range `{n,m}`: two runs of digits with a comma between them,
/// between braces, with optional blanks behind the opening and before the
/// closing brace.
pub fn range_parser(input: &mut Input) -> (result: Result<(u16, u16), ParseError>)
    ensures
        parsed(
            *old(input),
            *final(input),
            result,
            dynamics::range(old(input).text(), old(input).pos()),
        ),
{
    proof {
        reveal(dynamics::range);
    }
    let start = input.position();
    if !input.sees(0, '{') {
        return Err(ParseError { kind: ErrorKind::DynamicsSyntax, pos: start });
    }
    input.skip(1);
    input.skip_run(CharClass::Space);
    let first = input.position();
    let digits = input.skip_run(CharClass::Digit);
    if digits == 0 {
        return Err(ParseError { kind: ErrorKind::DynamicsSyntax, pos: first });
    }
    if !input.sees(0, ',') {
        return Err(ParseError { kind: ErrorKind::DynamicsSyntax, pos: input.position() });
    }
    input.skip(1);
    let second = input.position();
    let more = input.skip_run(CharClass::Digit);
    if more == 0 {
        return Err(ParseError { kind: ErrorKind::DynamicsSyntax, pos: second });
    }
    input.skip_run(CharClass::Space);
    if !input.sees(0, '}') {
        return Err(ParseError { kind: ErrorKind::DynamicsSyntax, pos: input.position() });
    }
    input.skip(1);
    match (input.number(first, digits, 0xffff), input.number(second, more, 0xffff)) {
        (Some(from), Some(to)) => Ok((from as u16, to as u16)),
        _ => {
            input.seek(start);
            Err(ParseError { kind: ErrorKind::NumberTooLarge, pos: start })
        },
    }
}

/// Reads the longest level name that stands at the cursor, if any does.
fn level_name(input: &mut Input) -> (level: Option<DynamicLevel>)
    ensures
        final(input).text() == old(input).text(),
        match dynamics::level_name(old(input).text(), old(input).pos()) {
            Some((kind, len)) => level == Some(kind) && final(input).pos() == old(input).pos()
                + len,
            None => level is None && final(input).pos() == old(input).pos(),
        },
{
    if input.sees(0, 'f') {
        if input.sees(1, 'f') {
            if input.sees(2, 'f') {
                input.skip(3);
                Some(DynamicLevel::FFF)
            } else {
                input.skip(2);
                Some(DynamicLevel::FF)
            }
        } else {
            input.skip(1);
            Some(DynamicLevel::F)
        }
    } else if input.sees(0, 'm') && input.sees(1, 'f') {
        input.skip(2);
        Some(DynamicLevel::MF)
    } else if input.sees(0, 'm') && input.sees(1, 'p') {
        input.skip(2);
        Some(DynamicLevel::MP)
    } else if input.sees(0, 'p') {
        if input.sees(1, 'p') {
            if input.sees(2, 'p') {
                input.skip(3);
                Some(DynamicLevel::PPP)
            } else {
                input.skip(2);
                Some(DynamicLevel::PP)
            }
        } else {
            input.skip(1);
            Some(DynamicLevel::P)
        }
    } else {
        None
    }
}

/// Parses a level mark: one of the names `fff ff f mf mp ppp pp p`, the
/// longest that matches, then optional blanks and a position.
pub fn dynamic_level_parser(input: &mut Input) -> (result: Result<Dynamic, ParseError>)
    ensures
        parsed(
            *old(input),
            *final(input),
            result,
            dynamics::level_mark(old(input).text(), old(input).pos()),
        ),
{
    let start = input.position();
    let kind = match level_name(input) {
        Some(kind) => kind,
        None => {
            return Err(ParseError { kind: ErrorKind::DynamicsSyntax, pos: start });
        },
    };
    input.skip_run(CharClass::Space);
    let pos = pos_parser(input)?;
    Ok(Dynamic::Level { pos, kind })
}

/// Parses `DC`, optional blanks and a position.
fn da_capo_mark(input: &mut Input) -> (result: Result<Dynamic, ParseError>)
    ensures
        parsed(
            *old(input),
            *final(input),
            result,
            dynamics::da_capo_mark(old(input).text(), old(input).pos()),
        ),
{
    if !(input.sees(0, 'D') && input.sees(1, 'C')) {
        return Err(ParseError { kind: ErrorKind::DynamicsSyntax, pos: input.position() });
    }
    input.skip(2);
    input.skip_run(CharClass::Space);
    let pos = pos_parser(input)?;
    Ok(Dynamic::DC { pos })
}

/// Parses `^`, optional blanks and a position.
fn accent_mark(input: &mut Input) -> (result: Result<Dynamic, ParseError>)
    ensures
        parsed(
            *old(input),
            *final(input),
            result,
            dynamics::accent_mark(old(input).text(), old(input).pos()),
        ),
{
    if !input.sees(0, '^') {
        return Err(ParseError { kind: ErrorKind::DynamicsSyntax, pos: input.position() });
    }
    input.skip(1);
    input.skip_run(CharClass::Space);
    let pos = pos_parser(input)?;
    Ok(Dynamic::Accent { pos })
}

/// Parses `<` (where `growing`) or `>`, optional blanks and a range.
fn hairpin_mark(input: &mut Input, growing: bool) -> (result: Result<Dynamic, ParseError>)
    ensures
        parsed(
            *old(input),
            *final(input),
            result,
            dynamics::hairpin_mark(old(input).text(), old(input).pos(), growing),
        ),
{
    let sign = if growing {
        '<'
    } else {
        '>'
    };
    if !input.sees(0, sign) {
        return Err(ParseError { kind: ErrorKind::DynamicsSyntax, pos: input.position() });
    }
    input.skip(1);
    input.skip_run(CharClass::Space);
    let (start, end) = range_parser(input)?;
    if growing {
        Ok(Dynamic::Crescendo { start, end })
    } else {
        Ok(Dynamic::Decrescendo { start, end })
    }
}

/// Parses one dynamics mark: a level mark, `DC{n}`, an accent `^{n}`, a
/// crescendo `<{n,m}` or a decrescendo `>{n,m}`, tried in this order.
pub fn dynamic_base_parser(input: &mut Input) -> (result: Result<Dynamic, ParseError>)
    ensures
        parsed(
            *old(input),
            *final(input),
            result,
            dynamics::mark(old(input).text(), old(input).pos()),
        ),
{
    proof {
        reveal(dynamics::mark);
    }
    let start = input.position();
    if let Ok(mark) = dynamic_level_parser(input) {
        return Ok(mark);
    }
    input.seek(start);
    if let Ok(mark) = da_capo_mark(input) {
        return Ok(mark);
    }
    input.seek(start);
    if let Ok(mark) = accent_mark(input) {
        return Ok(mark);
    }
    input.seek(start);
    if let Ok(mark) = hairpin_mark(input, true) {
        return Ok(mark);
    }
    input.seek(start);
    hairpin_mark(input, false)
}

/// Reads zero or more dynamics marks with blanks between each two. Blanks
/// that no mark follows are left unread.
fn mark_list(input: &mut Input) -> (list: Vec<Dynamic>)
    ensures
        final(input).text() == old(input).text(),
        list.deep_view() == dynamics::marks(old(input).text(), old(input).pos()).0,
        final(input).pos() == old(input).pos() + dynamics::marks(
            old(input).text(),
            old(input).pos(),
        ).1,
{
    let ghost text = input.text();
    let mut list: Vec<Dynamic> = Vec::new();
    assert(list.deep_view() =~= Seq::<Dynamic>::empty());
    let begin = input.position();
    let first = match dynamic_base_parser(input) {
        Ok(first) => first,
        Err(_) => {
            input.seek(begin);
            return list;
        },
    };
    list.push(first);
    assert(list.deep_view() =~= seq![first]);
    let ghost after = input.pos();
    proof {
        use_type_invariant(&*input);
    }
    loop
        invariant
            input.text() == text,
            after <= input.pos() <= text.len(),
            seq![first] + dynamics::more_marks(text, after).0 =~= list.deep_view()
                + dynamics::more_marks(text, input.pos()).0,
            after + dynamics::more_marks(text, after).1 == input.pos() + dynamics::more_marks(
                text,
                input.pos(),
            ).1,
        ensures
            dynamics::more_marks(text, input.pos()) == (Seq::<Dynamic>::empty(), 0nat),
        decreases text.len() - input.pos(),
    {
        let mark = input.position();
        let gap = input.skip_run(CharClass::Space);
        if gap == 0 {
            break ;
        }
        match dynamic_base_parser(input) {
            Ok(next) => {
                let ghost before = list.deep_view();
                list.push(next);
                assert(list.deep_view() =~= before.push(next));
                proof {
                    dynamics::lemma_mark_within(text, mark + gap);
                }
            },
            Err(_) => {
                input.seek(mark);
                break ;
            },
        }
    }
    list
}

/// Parses the line of dynamics of a staff: an optional `|:`, marks with
/// blanks between them, an optional closing bar and an optional line feed.
/// It never fails. Without the leading `|:` the marks are read and dropped.
pub fn dynamics_parser(input: &mut Input) -> (result: Result<Vec<Dynamic>, ParseError>)
    ensures
        parsed(
            *old(input),
            *final(input),
            result,
            dynamics::dynamics_line(old(input).text(), old(input).pos()),
        ),
{
    proof {
        reveal(dynamics::dynamics_line);
    }
    let flagged = input.sees(0, '|') && input.sees(1, ':');
    if flagged {
        input.skip(2);
    }
    input.skip_run(CharClass::Space);
    let list = mark_list(input);
    input.skip_run(CharClass::Space);
    closing_bar(input);
    if input.sees(0, '\n') {
        input.skip(1);
    }
    if flagged {
        Ok(list)
    } else {
        let none: Vec<Dynamic> = Vec::new();
        assert(none.deep_view() =~= Seq::<Dynamic>::empty());
        Ok(none)
    }
}

/// Parses the smallest unit of lyrics: the placeholder `%`, or a run of
/// syllable characters, which `$` and the rest of the word may follow;
/// either may be followed by `\\` for a line break.
pub fn base_lyrics_parser(input: &mut Input) -> (result: Result<LyricsChunk, ParseError>)
    ensures
        parsed(
            *old(input),
            *final(input),
            result,
            lyrics::base_lyric(old(input).text(), old(input).pos()),
        ),
    decreases old(input).text().len() - old(input).pos(),
{
    proof {
        reveal_with_fuel(crate::ast::chunk_view, 3);
    }
    let start = input.position();
    let plain = if input.sees(0, '%') {
        input.skip(1);
        LyricsChunk::Placeholder
    } else {
        let run = input.skip_run(CharClass::Syllable);
        if run == 0 {
            return Err(ParseError { kind: ErrorKind::LyricsSyntax, pos: start });
        }
        let text = LyricsChunk::String(input.text_between(start, start + run));
        if input.sees(0, '$') {
            input.skip(1);
            match base_lyrics_parser(input) {
                Ok(rest) => LyricsChunk::Split(Box::new(text), Box::new(rest)),
                Err(_) => {
                    input.seek(start + run);
                    text
                },
            }
        } else {
            text
        }
    };
    if input.sees(0, '\\') {
        input.skip(1);
        Ok(LyricsChunk::NewLineSuffixed(Box::new(plain)))
    } else {
        Ok(plain)
    }
}

/// Parses the lyrics of one bar: optional blanks, a syllable, optionally a
/// space or an underscore and more of the same, and optional blanks.
pub fn lyrics_chunk_parser(input: &mut Input) -> (result: Result<LyricsChunk, ParseError>)
    ensures
        parsed(
            *old(input),
            *final(input),
            result,
            lyrics::lyrics_chunk(old(input).text(), old(input).pos()),
        ),
    decreases old(input).text().len() - old(input).pos(),
{
    input.skip_run(CharClass::Space);
    let lhs = base_lyrics_parser(input)?;
    let mark = input.position();
    let tie = input.sees(0, '_');
    let chunk = if tie || input.sees(0, ' ') {
        input.skip(1);
        match lyrics_chunk_parser(input) {
            Ok(rhs) => if tie {
                LyricsChunk::Concat(Box::new(lhs), Box::new(rhs))
            } else {
                LyricsChunk::Space(Box::new(lhs), Box::new(rhs))
            },
            Err(_) => {
                input.seek(mark);
                lhs
            },
        }
    } else {
        lhs
    };
    input.skip_run(CharClass::Space);
    Ok(chunk)
}

/// Reads the mark that joins two bars of lyrics, `|` or `<|>`, if one
/// stands at the cursor, and returns the number of characters read.
fn bar_join(input: &mut Input) -> (n: usize)
    ensures
        final(input).text() == old(input).text(),
        n == lyrics::bar_join(old(input).text(), old(input).pos()),
        final(input).pos() == old(input).pos() + n,
{
    if input.sees(0, '|') {
        input.skip(1);
        1
    } else if input.sees(0, '<') && input.sees(1, '|') && input.sees(2, '>') {
        input.skip(3);
        3
    } else {
        0
    }
}

/// Parses the lyrics of a run of bars: a chunk, optionally `|` or `<|>`
/// and more of the same.
pub fn lyrics_measure_parser(input: &mut Input) -> (result: Result<LyricsMeasure, ParseError>)
    ensures
        parsed(
            *old(input),
            *final(input),
            result,
            lyrics::lyrics_measure(old(input).text(), old(input).pos()),
        ),
    decreases old(input).text().len() - old(input).pos(),
{
    proof {
        reveal_with_fuel(crate::ast::lyrics_measure_view, 2);
    }
    let lhs = LyricsMeasure::Chunk(lyrics_chunk_parser(input)?);
    let mark = input.position();
    let sep = bar_join(input);
    if sep == 0 {
        return Ok(lhs);
    }
    match lyrics_measure_parser(input) {
        Ok(rhs) => if sep == 1 {
            Ok(LyricsMeasure::Join(Box::new(lhs), Box::new(rhs)))
        } else {
            Ok(LyricsMeasure::Concat(Box::new(lhs), Box::new(rhs)))
        },
        Err(_) => {
            input.seek(mark);
            Ok(lhs)
        },
    }
}

/// Parses one verse: its marker, its lyrics and an optional closing bar.
pub fn lyrics_tree_parser(input: &mut Input) -> (result: Result<LyricsTree, ParseError>)
    ensures
        parsed(
            *old(input),
            *final(input),
            result,
            lyrics::lyrics_tree(old(input).text(), old(input).pos()),
        ),
{
    proof {
        reveal(lyrics::lyrics_tree);
    }
    let start = input.position();
    let marker = input.skip_run(CharClass::VerseMarker);
    if marker == 0 {
        return Err(ParseError { kind: ErrorKind::LyricsSyntax, pos: start });
    }
    let prefix = input.text_between(start, start + marker);
    let root = lyrics_measure_parser(input)?;
    closing_bar(input);
    Ok(LyricsTree { prefix, root })
}

/// Parses the verses of one voice: optional blanks and line breaks, then
/// one or more verses with blanks or line breaks between each two.
pub fn lyrics_parser(input: &mut Input) -> (result: Result<Vec<LyricsTree>, ParseError>)
    ensures
        parsed(
            *old(input),
            *final(input),
            result,
            lyrics::lyrics_block(old(input).text(), old(input).pos()),
        ),
{
    proof {
        reveal(lyrics::lyrics_block);
    }
    let ghost text = input.text();
    input.skip_run(CharClass::Multispace);
    let first = lyrics_tree_parser(input)?;
    let ghost head = first.deep_view();
    let ghost from = input.pos();
    proof {
        use_type_invariant(&*input);
    }
    let mut trees: Vec<LyricsTree> = Vec::new();
    trees.push(first);
    assert(trees.deep_view() =~= seq![head]);
    loop
        invariant
            input.text() == text,
            from <= input.pos() <= text.len(),
            seq![head] + lyrics::more_trees(text, from).0 =~= trees.deep_view()
                + lyrics::more_trees(text, input.pos()).0,
            from + lyrics::more_trees(text, from).1 == input.pos() + lyrics::more_trees(
                text,
                input.pos(),
            ).1,
        ensures
            lyrics::more_trees(text, input.pos()) == (Seq::<LyricsTreeView>::empty(), 0nat),
        decreases text.len() - input.pos(),
    {
        let mark = input.position();
        let gap = input.skip_run(CharClass::Multispace);
        if gap == 0 {
            break ;
        }
        match lyrics_tree_parser(input) {
            Ok(next) => {
                let ghost before = trees.deep_view();
                let ghost added = next.deep_view();
                trees.push(next);
                assert(trees.deep_view() =~= before.push(added));
                proof {
                    lyrics::lemma_lyrics_tree_within(text, mark + gap);
                }
            },
            Err(_) => {
                input.seek(mark);
                break ;
            },
        }
    }
    Ok(trees)
}

/// Parses one header line, without its line feed: `key: value`.
fn header_line(input: &mut Input) -> (result: Result<(String, String), ParseError>)
    ensures
        parsed(
            *old(input),
            *final(input),
            result,
            metadata::header_line(old(input).text(), old(input).pos()),
        ),
{
    proof {
        reveal(metadata::header_line);
    }
    let start = input.position();
    let key = input.skip_run(CharClass::Alphanumeric);
    if key == 0 {
        return Err(ParseError { kind: ErrorKind::MetadataSyntax, pos: start });
    }
    input.skip_run(CharClass::Space);
    if !input.sees(0, ':') {
        return Err(ParseError { kind: ErrorKind::MetadataSyntax, pos: input.position() });
    }
    input.skip(1);
    input.skip_run(CharClass::Space);
    let from = input.position();
    let value = input.skip_run(CharClass::LineText);
    if value == 0 {
        return Err(ParseError { kind: ErrorKind::MetadataSyntax, pos: from });
    }
    Ok((input.text_between(start, start + key), input.text_between(from, from + value)))
}

/// Reads zero or more header lines with a single line feed between each
/// two. A line feed that no header line follows is left unread.
fn header_line_list(input: &mut Input) -> (lines: Vec<(String, String)>)
    ensures
        final(input).text() == old(input).text(),
        match metadata::header_line(old(input).text(), old(input).pos()) {
            Outcome::Match { value, len } => {
                &&& lines.deep_view() == seq![value] + metadata::more_lines(
                    old(input).text(),
                    old(input).pos() + len,
                ).0
                &&& final(input).pos() == old(input).pos() + len + metadata::more_lines(
                    old(input).text(),
                    old(input).pos() + len,
                ).1
            },
            Outcome::Fail { .. } => {
                &&& lines.deep_view() == Seq::<Entry>::empty()
                &&& final(input).pos() == old(input).pos()
            },
        },
{
    let ghost text = input.text();
    let mut lines: Vec<(String, String)> = Vec::new();
    assert(lines.deep_view() =~= Seq::<Entry>::empty());
    let begin = input.position();
    let first = match header_line(input) {
        Ok(first) => first,
        Err(_) => {
            input.seek(begin);
            return lines;
        },
    };
    let ghost head = first.deep_view();
    lines.push(first);
    assert(lines.deep_view() =~= seq![head]);
    let ghost from = input.pos();
    proof {
        use_type_invariant(&*input);
    }
    loop
        invariant
            input.text() == text,
            from <= input.pos() <= text.len(),
            seq![head] + metadata::more_lines(text, from).0 =~= lines.deep_view()
                + metadata::more_lines(text, input.pos()).0,
            from + metadata::more_lines(text, from).1 == input.pos() + metadata::more_lines(
                text,
                input.pos(),
            ).1,
        ensures
            metadata::more_lines(text, input.pos()) == (Seq::<Entry>::empty(), 0nat),
        decreases text.len() - input.pos(),
    {
        if !input.sees(0, '\n') {
            break ;
        }
        let mark = input.position();
        input.skip(1);
        match header_line(input) {
            Ok(next) => {
                let ghost before = lines.deep_view();
                let ghost added = next.deep_view();
                lines.push(next);
                assert(lines.deep_view() =~= before.push(added));
                proof {
                    metadata::lemma_header_line_within(text, mark + 1);
                }
            },
            Err(_) => {
                input.seek(mark);
                break ;
            },
        }
    }
    lines
}

/// Parses the header block of a score: zero or more lines `key: value`
/// with a single line feed between each two. Behind the lines, and behind
/// any blanks and line breaks, the text has to end or the separator `---`
/// has to stand; what else stands there is a line that does not belong to
/// a header, and the error is reported at its first character.
pub fn metadata_parser(input: &mut Input) -> (result: Result<Vec<(String, String)>, ParseError>)
    ensures
        parsed(
            *old(input),
            *final(input),
            result,
            metadata::header_lines(old(input).text(), old(input).pos()),
        ),
{
    proof {
        reveal(metadata::header_lines);
    }
    let lines = header_line_list(input);
    let stop = input.position();
    input.skip_run(CharClass::Multispace);
    if input.is_at_end() || separator_line(input) {
        input.seek(stop);
        Ok(lines)
    } else {
        Err(ParseError { kind: ErrorKind::MetadataSyntax, pos: input.position() })
    }
}

/// Whether the separator `---` stands at the cursor.
fn separator_line(input: &Input) -> (found: bool)
    ensures
        found == metadata::separator_at(input.text(), input.pos()),
{
    input.sees(0, '-') && input.sees(1, '-') && input.sees(2, '-')
}

/// Parses the decorative rule under the dynamics: `|`, one or more `-`,
/// `||` or `|`, and a line feed.
pub fn staff_bar_parser(input: &mut Input) -> (result: Result<(), ParseError>)
    ensures
        parsed(
            *old(input),
            *final(input),
            result,
            score::bar_rule(old(input).text(), old(input).pos()),
        ),
{
    proof {
        reveal(score::bar_rule);
    }
    if !input.sees(0, '|') {
        return Err(ParseError { kind: ErrorKind::VoiceSyntax, pos: input.position() });
    }
    input.skip(1);
    let mark = input.position();
    if input.skip_run(CharClass::Dash) == 0 {
        return Err(ParseError { kind: ErrorKind::VoiceSyntax, pos: mark });
    }
    let mark = input.position();
    if closing_bar(input) == 0 {
        return Err(ParseError { kind: ErrorKind::VoiceSyntax, pos: mark });
    }
    if !input.sees(0, '\n') {
        return Err(ParseError { kind: ErrorKind::VoiceSyntax, pos: input.position() });
    }
    input.skip(1);
    Ok(())
}

/// Parses one voice's line of bars and, where they follow, its verses.
fn voice_block(input: &mut Input) -> (result: Result<
    (Vec<Measure>, Option<Vec<LyricsTree>>),
    ParseError,
>)
    ensures
        parsed(
            *old(input),
            *final(input),
            result,
            score::voice_block(old(input).text(), old(input).pos()),
        ),
{
    proof {
        reveal(score::voice_block);
    }
    let bars = measure_parser(input)?;
    let mark = input.position();
    let verses = match lyrics_parser(input) {
        Ok(trees) => Some(trees),
        Err(_) => {
            input.seek(mark);
            None
        },
    };
    Ok((bars, verses))
}

/// Parses a staff voice by voice: the line of dynamics, an optional bar
/// rule, and four voice blocks.
fn staff_partial(input: &mut Input) -> (result: Result<StaffPartial, ParseError>)
    ensures
        parsed(
            *old(input),
            *final(input),
            result,
            score::staff_partial(old(input).text(), old(input).pos()),
        ),
{
    proof {
        reveal(score::staff_partial);
        dynamics::lemma_dynamics_line_matches(input.text(), input.pos());
    }
    let dynamics = dynamics_parser(input)?;
    let mark = input.position();
    if staff_bar_parser(input).is_err() {
        input.seek(mark);
    }
    let (voice1, lyrics1) = voice_block(input)?;
    let (voice2, lyrics2) = voice_block(input)?;
    let (voice3, lyrics3) = voice_block(input)?;
    let (voice4, lyrics4) = voice_block(input)?;
    Ok(
        StaffPartial {
            dynamics,
            voice1,
            lyrics1,
            voice2,
            lyrics2,
            voice3,
            lyrics3,
            voice4,
            lyrics4,
        },
    )
}

/// Parses one staff: the line of dynamics, an optional bar rule, and four
/// voices, each a line of bars that its verses may follow. The bars of the
/// voices are put side by side, as many as the shortest voice has.
pub fn staff_parser(input: &mut Input) -> (result: Result<Staff, ParseError>)
    ensures
        parsed(
            *old(input),
            *final(input),
            result,
            score::staff(old(input).text(), old(input).pos()),
        ),
{
    proof {
        reveal(score::staff);
    }
    let partial = staff_partial(input)?;
    Ok(Staff::from(partial))
}

/// Reads one or more staves with blanks or line breaks between each two.
fn staves(input: &mut Input) -> (result: Result<Vec<Staff>, ParseError>)
    ensures
        final(input).text() == old(input).text(),
        match score::staff(old(input).text(), old(input).pos()) {
            Outcome::Match { value, len } => {
                &&& result is Ok
                &&& result->Ok_0.deep_view() == seq![value] + score::more_staves(
                    old(input).text(),
                    old(input).pos() + len,
                ).0
                &&& final(input).pos() == old(input).pos() + len + score::more_staves(
                    old(input).text(),
                    old(input).pos() + len,
                ).1
            },
            Outcome::Fail { kind, at } => {
                &&& result == Err::<Vec<Staff>, ParseError>(ParseError { kind, pos: at as usize })
                &&& final(input).pos() == at
            },
        },
{
    let ghost text = input.text();
    let first = staff_parser(input)?;
    let ghost head = first.deep_view();
    let ghost from = input.pos();
    proof {
        use_type_invariant(&*input);
    }
    let mut list: Vec<Staff> = Vec::new();
    list.push(first);
    assert(list.deep_view() =~= seq![head]);
    loop
        invariant
            input.text() == text,
            from <= input.pos() <= text.len(),
            seq![head] + score::more_staves(text, from).0 =~= list.deep_view()
                + score::more_staves(text, input.pos()).0,
            from + score::more_staves(text, from).1 == input.pos() + score::more_staves(
                text,
                input.pos(),
            ).1,
        ensures
            score::more_staves(text, input.pos()) == (Seq::<StaffView>::empty(), 0nat),
        decreases text.len() - input.pos(),
    {
        let mark = input.position();
        let gap = input.skip_run(CharClass::Multispace);
        if gap == 0 {
            break ;
        }
        match staff_parser(input) {
            Ok(next) => {
                let ghost before = list.deep_view();
                let ghost added = next.deep_view();
                list.push(next);
                assert(list.deep_view() =~= before.push(added));
                proof {
                    score::lemma_staff_within(text, mark + gap);
                }
            },
            Err(_) => {
                input.seek(mark);
                break ;
            },
        }
    }
    Ok(list)
}

/// Builds the header that the lines `lines`, read in order, give: each
/// key with the value of the last line that has it.
fn header_from(lines: Vec<(String, String)>) -> (header: Header)
    ensures
        header.deep_view() == header_of(lines.deep_view()),
{
    let ghost all = lines.deep_view();
    let mut header = Header::new();
    assert(all.take(0) =~= Seq::<Entry>::empty());
    for line in it: lines
        invariant
            it.seq().len() == all.len(),
            forall|k: int| 0 <= k < all.len() ==> (#[trigger] it.seq()[k]).deep_view() == all[k],
            header.deep_view() == header_of(all.take(it.index() as int)),
    {
        let ghost done = all.take(it.index() as int);
        let ghost more = all.take(it.index() + 1);
        assert(more.drop_last() =~= done);
        assert(more.last() == line.deep_view());
        header.insert(line.0, line.1);
    }
    assert(all.take(all.len() as int) =~= all);
    header
}

/// Parses a whole score: the header block, the separator line `---`, and
/// one or more staves, with blanks and line breaks around each part.
pub fn solfa_parser(input: &mut Input) -> (result: Result<Solfa, ParseError>)
    ensures
        parsed(
            *old(input),
            *final(input),
            result,
            score::document(old(input).text(), old(input).pos()),
        ),
{
    input.skip_run(CharClass::Multispace);
    let lines = metadata_parser(input)?;
    input.skip_run(CharClass::Multispace);
    if !separator_line(input) {
        return Err(ParseError { kind: ErrorKind::MissingSeparator, pos: input.position() });
    }
    input.skip(3);
    if input.skip_run(CharClass::Multispace) == 0 {
        return Err(ParseError { kind: ErrorKind::MissingSeparator, pos: input.position() });
    }
    let staffs = staves(input)?;
    input.skip_run(CharClass::Multispace);
    Ok(Solfa { header: header_from(lines), staffs })
}

} // verus!
