//! Laws of the notation, proved from the rules.
use crate::ast::{
    BaseNote, BeatDivisionKind, Dynamic, DynamicLevel, Measure, Note, NoteVariant, Octave,
};
use crate::chars::{at, decimal, lemma_run_is, run_len, CharClass};
use crate::dynamics;
use crate::grammar::{parsed, Outcome};
use crate::header::{
    distinct_keys, header_of, index_of_key, lemma_header_of_distinct, lemma_index_of_key,
    lemma_with_entry, lookup, Entry,
};
use crate::input::{Input, ParseError};
use crate::voice;
use vstd::prelude::*;

verus! {

/// Each of the seven degree letters, standing alone, is the note of its
/// degree, without inflection, in the base octave.
pub proof fn law_letter_alone_is_plain_note(c: char)
    requires
        voice::degree_of(c) is Some,
    ensures
        voice::note(seq![c], 0) == (Outcome::Match {
            value: Note {
                base: voice::degree_of(c)->0,
                variant: NoteVariant::Base,
                octave: Octave::Base,
            },
            len: 1,
        }),
{
    let s = seq![c];
    assert(run_len(s, 1, CharClass::Comma) == 0);
    assert(run_len(s, 1, CharClass::Apostrophe) == 0);
    assert(voice::octave(s, 1) is Fail);
}

/// A text that does not start with a degree letter is no note, and the
/// failure is found at its first character.
pub proof fn law_no_letter_no_note(s: Seq<char>)
    requires
        s.len() == 0 || voice::degree_of(s[0]) is None,
    ensures
        voice::note(s, 0) is Fail,
        voice::note(s, 0)->at == 0,
{
}

/// Parsing is a function of the text and the position: two runs of the
/// parser of one rule from the same position of the same text stop at the
/// same place, and either both yield trees with the same view or both fail
/// with the same error. `outcome` is what the rule yields there.
pub proof fn law_parsing_is_deterministic<T: DeepView>(
    outcome: Outcome<T::V>,
    before1: Input,
    after1: Input,
    result1: Result<T, ParseError>,
    before2: Input,
    after2: Input,
    result2: Result<T, ParseError>,
)
    requires
        before1.text() == before2.text(),
        before1.pos() == before2.pos(),
        parsed(before1, after1, result1, outcome),
        parsed(before2, after2, result2, outcome),
    ensures
        after1.text() == after2.text(),
        after1.pos() == after2.pos(),
        match (result1, result2) {
            (Ok(tree1), Ok(tree2)) => tree1.deep_view() == tree2.deep_view(),
            (Err(error1), Err(error2)) => error1 == error2,
            _ => false,
        },
{
}

/// The letter that names a degree.
pub open spec fn letter_of(base: BaseNote) -> char {
    match base {
        BaseNote::D => 'd',
        BaseNote::R => 'r',
        BaseNote::M => 'm',
        BaseNote::F => 'f',
        BaseNote::S => 's',
        BaseNote::L => 'l',
        BaseNote::T => 't',
    }
}

/// The letter, if any, that writes an inflection.
pub open spec fn variant_text(variant: NoteVariant) -> Seq<char> {
    match variant {
        NoteVariant::Base => Seq::empty(),
        NoteVariant::Raised => seq!['i'],
        NoteVariant::Lowered => seq!['a'],
    }
}

/// An octave written with marks: an apostrophe for each step up, a comma
/// for each step down.
pub open spec fn octave_text(octave: Octave) -> Seq<char> {
    match octave {
        Octave::Base => Seq::empty(),
        Octave::Up(steps) => Seq::new(steps as nat, |k: int| '\''),
        Octave::Down(steps) => Seq::new(steps as nat, |k: int| ','),
    }
}

/// A note written out: its letter, its inflection and its octave marks.
pub open spec fn note_text(note: Note) -> Seq<char> {
    seq![letter_of(note.base)] + variant_text(note.variant) + octave_text(note.octave)
}

/// Writing a note out and parsing what was written gives the note back,
/// and the whole of the text is taken. Zero steps up or down cannot be
/// written with marks, so such notes are left out.
pub proof fn law_written_note_parses_back(note: Note)
    requires
        note.octave != Octave::Up(0),
        note.octave != Octave::Down(0),
    ensures
        voice::note(note_text(note), 0) == (Outcome::Match {
            value: note,
            len: note_text(note).len(),
        }),
{
    let s = note_text(note);
    let marks = octave_text(note.octave);
    let j = 1 + variant_text(note.variant).len();
    assert(s.len() == j + marks.len());
    assert(s[0] == letter_of(note.base));
    assert(voice::degree_of(letter_of(note.base)) == Some(note.base));
    assert(voice::variant_at(s, 1) == (note.variant, variant_text(note.variant).len())) by {
        if note.variant != NoteVariant::Base {
            assert(s[1] == variant_text(note.variant)[0]);
        } else if marks.len() > 0 {
            assert(s[1] == marks[0]);
        }
    }
    assert forall|k: int| j <= k < s.len() implies #[trigger] s[k] == marks[k - j] by {}
    match note.octave {
        Octave::Base => {
            assert(run_len(s, j as int, CharClass::Comma) == 0);
            assert(run_len(s, j as int, CharClass::Apostrophe) == 0);
        },
        Octave::Up(steps) => {
            assert(s[j as int] == '\'');
            crate::chars::lemma_run_is(s, j as int, CharClass::Apostrophe, steps as nat);
            assert(run_len(s, j as int, CharClass::Comma) == 0);
        },
        Octave::Down(steps) => {
            assert(s[j as int] == ',');
            crate::chars::lemma_run_is(s, j as int, CharClass::Comma, steps as nat);
            let end = s.len() as int;
            assert(run_len(s, end, CharClass::Space) == 0);
            assert(voice::note(s, end) is Fail);
            assert(voice::beat_core(s, end) is Fail);
            assert(voice::base_beat(s, end) is Fail);
            assert(voice::division(s, end, BeatDivisionKind::Quarter) is Fail);
            assert(voice::division(s, end, BeatDivisionKind::Half) is Fail);
            assert(voice::division(s, end, BeatDivisionKind::Normal) is Fail);
        },
    }
}

/// The character that writes the digit `d`.
pub open spec fn digit_char(d: nat) -> char {
    ('0' as nat + d) as char
}

/// A number written out in decimal digits, without leading zeros.
pub open spec fn digits_of(n: nat) -> Seq<char>
    decreases n,
{
    if n < 10 {
        seq![digit_char(n)]
    } else {
        digits_of(n / 10).push(digit_char(n % 10))
    }
}

/// A position written out: the number between braces.
pub open spec fn position_text(n: u16) -> Seq<char> {
    seq!['{'] + digits_of(n as nat) + seq!['}']
}

/// A range written out: the two numbers between braces, with a comma
/// between them.
pub open spec fn range_text(start: u16, end: u16) -> Seq<char> {
    seq!['{'] + digits_of(start as nat) + seq![','] + digits_of(end as nat) + seq!['}']
}

/// The name of a level.
pub open spec fn level_text(kind: DynamicLevel) -> Seq<char> {
    match kind {
        DynamicLevel::FFF => seq!['f', 'f', 'f'],
        DynamicLevel::FF => seq!['f', 'f'],
        DynamicLevel::F => seq!['f'],
        DynamicLevel::MF => seq!['m', 'f'],
        DynamicLevel::MP => seq!['m', 'p'],
        DynamicLevel::P => seq!['p'],
        DynamicLevel::PP => seq!['p', 'p'],
        DynamicLevel::PPP => seq!['p', 'p', 'p'],
    }
}

/// A dynamics mark written out, without blanks. The reserved marks cannot
/// be written.
pub open spec fn mark_text(mark: Dynamic) -> Seq<char> {
    match mark {
        Dynamic::Level { pos, kind } => level_text(kind) + position_text(pos),
        Dynamic::DC { pos } => seq!['D', 'C'] + position_text(pos),
        Dynamic::Accent { pos } => seq!['^'] + position_text(pos),
        Dynamic::Crescendo { start, end } => seq!['<'] + range_text(start, end),
        Dynamic::Decrescendo { start, end } => seq!['>'] + range_text(start, end),
        Dynamic::DS { .. } => Seq::empty(),
        Dynamic::Sign { .. } => Seq::empty(),
    }
}

/// Whether `piece` stands in `s` from the index `i` on.
pub open spec fn stands_at(s: Seq<char>, i: int, piece: Seq<char>) -> bool {
    &&& 0 <= i
    &&& i + piece.len() <= s.len()
    &&& forall|k: int| 0 <= k < piece.len() ==> s[i + k] == #[trigger] piece[k]
}

/// The digits of a number, where they stand in a text, are digits and
/// spell the number.
proof fn lemma_digits_spell(s: Seq<char>, i: int, n: nat)
    requires
        stands_at(s, i, digits_of(n)),
    ensures
        decimal(s, i, digits_of(n).len()) == n,
        digits_of(n).len() >= 1,
        forall|k: int|
            i <= k < i + digits_of(n).len() ==> CharClass::Digit.contains(#[trigger] s[k]),
    decreases n,
{
    let text = digits_of(n);
    if n < 10 {
        assert(s[i] == text[0]);
        assert(decimal(s, i, 0) == 0);
        assert(decimal(s, i, 1) == decimal(s, i, 0) * 10 + (s[i + 1 - 1] as nat - '0' as nat));
    } else {
        let front = digits_of(n / 10);
        assert forall|k: int| 0 <= k < front.len() implies s[i + k] == #[trigger] front[k] by {
            assert(text[k] == front[k]);
        }
        lemma_digits_spell(s, i, n / 10);
        assert(s[i + front.len()] == text[front.len() as int]);
        assert(text.len() == front.len() + 1);
        assert forall|k: int| i <= k < i + text.len() implies CharClass::Digit.contains(
            #[trigger] s[k],
        ) by {
            if k == i + front.len() {
                assert(s[k] == digit_char(n % 10));
            }
        }
    }
}

/// The digits of a number, behind which something else than a digit
/// stands, are a run of digits of their length.
proof fn lemma_digits_run(s: Seq<char>, i: int, n: nat)
    requires
        stands_at(s, i, digits_of(n)),
        i + digits_of(n).len() < s.len(),
        !CharClass::Digit.contains(s[i + digits_of(n).len()]),
    ensures
        run_len(s, i, CharClass::Digit) == digits_of(n).len(),
        decimal(s, i, digits_of(n).len()) == n,
        digits_of(n).len() >= 1,
{
    lemma_digits_spell(s, i, n);
    lemma_run_is(s, i, CharClass::Digit, digits_of(n).len());
}

/// A written position, where it stands in a text, is read as its number.
proof fn lemma_position_parses_back(s: Seq<char>, i: int, n: u16)
    requires
        stands_at(s, i, position_text(n)),
    ensures
        dynamics::position(s, i) == (Outcome::Match { value: n, len: position_text(n).len() }),
        run_len(s, i, CharClass::Space) == 0,
{
    reveal(dynamics::position);
    let text = position_text(n);
    let digits = digits_of(n as nat);
    assert(text.len() == digits.len() + 2);
    assert(s[i] == text[0]);
    assert(s[i + (1 + digits.len())] == text[1 + digits.len() as int]);
    assert forall|k: int| 0 <= k < digits.len() implies s[i + 1 + k] == #[trigger] digits[k] by {
        assert(s[i + (1 + k)] == text[1 + k]);
    }
    lemma_digits_spell(s, i + 1, n as nat);
    assert(CharClass::Digit.contains(s[i + 1]));
    assert(run_len(s, i + 1, CharClass::Space) == 0);
    lemma_digits_run(s, i + 1, n as nat);
    assert(run_len(s, i + 1 + digits.len(), CharClass::Space) == 0);
}

/// A written range, where it stands in a text, is read as its two numbers.
proof fn lemma_range_parses_back(s: Seq<char>, i: int, start: u16, end: u16)
    requires
        stands_at(s, i, range_text(start, end)),
    ensures
        dynamics::range(s, i) == (Outcome::Match {
            value: (start, end),
            len: range_text(start, end).len(),
        }),
        run_len(s, i, CharClass::Space) == 0,
{
    reveal(dynamics::range);
    let text = range_text(start, end);
    let first = digits_of(start as nat);
    let second = digits_of(end as nat);
    assert(text.len() == first.len() + second.len() + 3);
    assert(s[i] == text[0]);
    assert(s[i + (1 + first.len())] == text[1 + first.len() as int]);
    assert(s[i + (2 + first.len() + second.len())] == text[2 + first.len() as int + second.len() as int]);
    assert forall|k: int| 0 <= k < first.len() implies s[i + 1 + k] == #[trigger] first[k] by {
        assert(s[i + (1 + k)] == text[1 + k]);
    }
    assert forall|k: int| 0 <= k < second.len() implies s[i + 2 + first.len() + k]
        == #[trigger] second[k] by {
        assert(s[i + (2 + first.len() + k)] == text[2 + first.len() + k]);
    }
    lemma_digits_spell(s, i + 1, start as nat);
    assert(CharClass::Digit.contains(s[i + 1]));
    assert(run_len(s, i + 1, CharClass::Space) == 0);
    lemma_digits_run(s, i + 1, start as nat);
    lemma_digits_run(s, i + 2 + first.len(), end as nat);
    assert(run_len(s, i + 2 + first.len() + second.len(), CharClass::Space) == 0);
}

/// The name of a level, with a brace behind it, is read as that level.
proof fn lemma_level_name_reads_back(s: Seq<char>, kind: DynamicLevel)
    requires
        stands_at(s, 0, level_text(kind)),
        at(s, level_text(kind).len() as int, '{'),
    ensures
        dynamics::level_name(s, 0) == Some((kind, level_text(kind).len())),
        run_len(s, level_text(kind).len() as int, CharClass::Space) == 0,
{
    let name = level_text(kind);
    match kind {
        DynamicLevel::FFF => {
            assert(s[0int + 0] == name[0] && s[0int + 1] == name[1] && s[0int + 2] == name[2]);
        },
        DynamicLevel::FF => {
            assert(s[0int + 0] == name[0] && s[0int + 1] == name[1]);
        },
        DynamicLevel::F => {
            assert(s[0int + 0] == name[0]);
        },
        DynamicLevel::MF => {
            assert(s[0int + 0] == name[0] && s[0int + 1] == name[1]);
        },
        DynamicLevel::MP => {
            assert(s[0int + 0] == name[0] && s[0int + 1] == name[1]);
        },
        DynamicLevel::P => {
            assert(s[0int + 0] == name[0]);
        },
        DynamicLevel::PP => {
            assert(s[0int + 0] == name[0] && s[0int + 1] == name[1]);
        },
        DynamicLevel::PPP => {
            assert(s[0int + 0] == name[0] && s[0int + 1] == name[1] && s[0int + 2] == name[2]);
        },
    }
}

/// A written level mark is read back by the rule for level marks.
proof fn lemma_level_mark_parses_back(pos: u16, kind: DynamicLevel)
    ensures
        dynamics::level_mark(mark_text(Dynamic::Level { pos, kind }), 0) == (Outcome::Match {
            value: Dynamic::Level { pos, kind },
            len: mark_text(Dynamic::Level { pos, kind }).len(),
        }),
{
    let s = mark_text(Dynamic::Level { pos, kind });
    let name = level_text(kind);
    let rest = position_text(pos);
    assert(s == name + rest);
    assert(stands_at(s, 0, name) && at(s, name.len() as int, '{') && stands_at(
        s,
        name.len() as int,
        rest,
    )) by {
        assert(rest[0] == '{');
        assert(s[name.len() as int] == rest[0]);
    }
    lemma_level_name_reads_back(s, kind);
    lemma_position_parses_back(s, name.len() as int, pos);
}

/// A written mark of one sign and a position is read back by the rule for
/// its sign, and by no rule tried before it.
proof fn lemma_position_mark_parses_back(mark: Dynamic)
    requires
        mark is DC || mark is Accent,
    ensures
        dynamics::level_mark(mark_text(mark), 0) is Fail,
        mark is DC ==> dynamics::da_capo_mark(mark_text(mark), 0) == (Outcome::Match {
            value: mark,
            len: mark_text(mark).len(),
        }),
        mark is Accent ==> dynamics::da_capo_mark(mark_text(mark), 0) is Fail
            && dynamics::accent_mark(mark_text(mark), 0) == (Outcome::Match {
            value: mark,
            len: mark_text(mark).len(),
        }),
{
    let s = mark_text(mark);
    match mark {
        Dynamic::DC { pos } => {
            let rest = position_text(pos);
            assert(rest[0] == '{');
            assert(s[0] == 'D' && s[1] == 'C' && s[2] == rest[0]);
            assert(run_len(s, 2, CharClass::Space) == 0);
            assert(stands_at(s, 2, rest));
            lemma_position_parses_back(s, 2, pos);
        },
        Dynamic::Accent { pos } => {
            let rest = position_text(pos);
            assert(rest[0] == '{');
            assert(s[0] == '^' && s[1] == rest[0]);
            assert(run_len(s, 1, CharClass::Space) == 0);
            assert(stands_at(s, 1, rest));
            lemma_position_parses_back(s, 1, pos);
        },
        _ => {},
    }
}

/// A written crescendo or decrescendo is read back by the rule for its
/// sign, and by no rule tried before it.
proof fn lemma_hairpin_parses_back(mark: Dynamic)
    requires
        mark is Crescendo || mark is Decrescendo,
    ensures
        dynamics::level_mark(mark_text(mark), 0) is Fail,
        dynamics::da_capo_mark(mark_text(mark), 0) is Fail,
        dynamics::accent_mark(mark_text(mark), 0) is Fail,
        mark is Decrescendo ==> dynamics::hairpin_mark(mark_text(mark), 0, true) is Fail,
        dynamics::hairpin_mark(mark_text(mark), 0, mark is Crescendo) == (Outcome::Match {
            value: mark,
            len: mark_text(mark).len(),
        }),
{
    let s = mark_text(mark);
    match mark {
        Dynamic::Crescendo { start, end } => {
            let rest = range_text(start, end);
            assert(rest[0] == '{');
            assert(s[0] == '<' && s[1] == rest[0]);
            assert(run_len(s, 1, CharClass::Space) == 0);
            assert(stands_at(s, 1, rest));
            lemma_range_parses_back(s, 1, start, end);
        },
        Dynamic::Decrescendo { start, end } => {
            let rest = range_text(start, end);
            assert(rest[0] == '{');
            assert(s[0] == '>' && s[1] == rest[0]);
            assert(run_len(s, 1, CharClass::Space) == 0);
            assert(stands_at(s, 1, rest));
            lemma_range_parses_back(s, 1, start, end);
        },
        _ => {},
    }
}

/// Writing a dynamics mark out and parsing what was written gives the
/// mark back, and the whole of the text is taken. The reserved marks,
/// which cannot be written, are left out.
pub proof fn law_written_mark_parses_back(mark: Dynamic)
    requires
        !(mark is DS),
        !(mark is Sign),
    ensures
        dynamics::mark(mark_text(mark), 0) == (Outcome::Match {
            value: mark,
            len: mark_text(mark).len(),
        }),
{
    reveal(dynamics::mark);
    match mark {
        Dynamic::Level { pos, kind } => lemma_level_mark_parses_back(pos, kind),
        Dynamic::DC { .. } => lemma_position_mark_parses_back(mark),
        Dynamic::Accent { .. } => lemma_position_mark_parses_back(mark),
        Dynamic::Crescendo { .. } => lemma_hairpin_parses_back(mark),
        Dynamic::Decrescendo { .. } => lemma_hairpin_parses_back(mark),
        _ => {},
    }
}

/// The nesting level of a division kind: the tighter it binds, the lower.
pub open spec fn level_of(kind: BeatDivisionKind) -> nat {
    match kind {
        BeatDivisionKind::Quarter => 1,
        BeatDivisionKind::Half => 2,
        BeatDivisionKind::Normal => 3,
    }
}

/// Whether `measure` is nested by precedence below the level `limit`: it
/// is a rest, a note, an underline group whose content is nested below the
/// loosest level, or a division of a level of at most `limit` whose left
/// operand is nested below the next tighter level and whose right operand
/// is nested below the division's own level.
pub open spec fn nested_below(measure: Measure, limit: nat) -> bool
    decreases measure,
{
    match measure {
        Measure::EmptyNote => true,
        Measure::Note(_) => true,
        Measure::BeatDivision(division) => {
            &&& level_of(division.kind) <= limit
            &&& nested_below(*division.lhs, (level_of(division.kind) - 1) as nat)
            &&& nested_below(*division.rhs, level_of(division.kind))
        },
        Measure::UnderlinedMeasure(inner) => nested_below(*inner, 3),
        Measure::Repeated(_) => false,
        Measure::RepeatStart(_) => false,
        Measure::RepeatEnd(_) => false,
    }
}

/// What stands between the blanks of a beat is a rest, a note or an
/// underline group.
proof fn lemma_beat_core_nested(s: Seq<char>, i: int)
    ensures
        voice::beat_core(s, i) is Match ==> nested_below(voice::beat_core(s, i)->value, 0),
    decreases s.len() - i, 2nat,
{
    if voice::note(s, i) is Fail && at(s, i, '_') {
        lemma_division_nested(s, i + 1, BeatDivisionKind::Normal);
    }
}

/// A division is nested by precedence below its own level.
proof fn lemma_division_nested(s: Seq<char>, i: int, kind: BeatDivisionKind)
    ensures
        voice::division(s, i, kind) is Match ==> nested_below(
            voice::division(s, i, kind)->value,
            level_of(kind),
        ),
    decreases s.len() - i, voice::rank(kind),
{
    let first = match kind {
        BeatDivisionKind::Normal => voice::division(s, i, BeatDivisionKind::Half),
        BeatDivisionKind::Half => voice::division(s, i, BeatDivisionKind::Quarter),
        BeatDivisionKind::Quarter => voice::base_beat(s, i),
    };
    match kind {
        BeatDivisionKind::Normal => lemma_division_nested(s, i, BeatDivisionKind::Half),
        BeatDivisionKind::Half => lemma_division_nested(s, i, BeatDivisionKind::Quarter),
        BeatDivisionKind::Quarter => {
            let lead = run_len(s, i, CharClass::Space);
            if lead > 0 {
                crate::chars::lemma_run_within(s, i, CharClass::Space);
            }
            lemma_beat_core_nested(s, i + lead);
        },
    }
    if let Outcome::Match { value, len } = first {
        lemma_nested_below_grows(value, (level_of(kind) - 1) as nat, level_of(kind));
        if at(s, i + len, voice::separator(kind)) {
            lemma_division_nested(s, i + len + 1, kind);
        }
    }
}

/// What is nested below a level is nested below every looser level.
proof fn lemma_nested_below_grows(measure: Measure, limit: nat, looser: nat)
    requires
        nested_below(measure, limit),
        limit <= looser,
    ensures
        nested_below(measure, looser),
{
}

/// Nesting follows precedence: `:` binds loosest, `.` next, `,` tightest.
/// In every tree that a division rule yields, the left operand of a
/// division is of a tighter level than the division, the right operand of
/// no looser level, and only an underline group starts again from the
/// loosest level. No reserved variant is ever yielded.
pub proof fn law_nesting_follows_precedence(s: Seq<char>, i: int, kind: BeatDivisionKind)
    ensures
        voice::division(s, i, kind) is Match ==> nested_below(
            voice::division(s, i, kind)->value,
            level_of(kind),
        ),
{
    lemma_division_nested(s, i, kind);
}

/// A line of dynamics that does not start with `|:` yields no marks,
/// whatever marks are written on it.
pub proof fn law_unflagged_dynamics_are_dropped(s: Seq<char>, i: int)
    requires
        !(at(s, i, '|') && at(s, i + 1, ':')),
    ensures
        dynamics::dynamics_line(s, i) is Match,
        dynamics::dynamics_line(s, i)->value == Seq::<Dynamic>::empty(),
{
    reveal(dynamics::dynamics_line);
}

/// No rule yields one of the reserved marks `DS` and `Sign`.
pub proof fn law_reserved_marks_are_not_produced(s: Seq<char>, i: int)
    ensures
        dynamics::mark(s, i) is Match ==> !(dynamics::mark(s, i)->value is DS) && !(
        dynamics::mark(s, i)->value is Sign),
{
    reveal(dynamics::mark);
}

/// Header lines with distinct keys keep their order: the header is the
/// sequence of the lines.
pub proof fn law_header_keeps_insertion_order(pairs: Seq<Entry>)
    requires
        distinct_keys(pairs),
    ensures
        header_of(pairs) == pairs,
    decreases pairs.len(),
{
    if pairs.len() > 0 {
        let front = pairs.drop_last();
        assert(distinct_keys(front)) by {
            assert forall|a: int, b: int| 0 <= a < b < front.len() implies (#[trigger] front[a]).0
                != (#[trigger] front[b]).0 by {
                assert(front[a] == pairs[a] && front[b] == pairs[b]);
            }
        }
        law_header_keeps_insertion_order(front);
        lemma_index_of_key(front, pairs.last().0);
        if index_of_key(front, pairs.last().0) is Some {
            let k = index_of_key(front, pairs.last().0)->0;
            assert(pairs[k].0 == pairs[pairs.len() - 1].0);
        }
        assert(front.push(pairs.last()) =~= pairs);
    } else {
        assert(pairs =~= Seq::<Entry>::empty());
    }
}

/// The value of the last of the lines `pairs` that has the key `key`, if
/// any has it.
pub open spec fn last_value(pairs: Seq<Entry>, key: Seq<char>) -> Option<Seq<char>>
    decreases pairs.len(),
{
    if pairs.len() == 0 {
        None
    } else if pairs.last().0 == key {
        Some(pairs.last().1)
    } else {
        last_value(pairs.drop_last(), key)
    }
}

/// Looking a key up in the mapping built from lines finds the value of the
/// last line with that key: later lines overwrite earlier ones.
pub proof fn law_later_line_overwrites(pairs: Seq<Entry>, key: Seq<char>)
    ensures
        lookup(header_of(pairs), key) == last_value(pairs, key),
    decreases pairs.len(),
{
    if pairs.len() > 0 {
        lemma_header_of_distinct(pairs.drop_last());
        lemma_with_entry(header_of(pairs.drop_last()), pairs.last().0, pairs.last().1);
        law_later_line_overwrites(pairs.drop_last(), key);
    }
}

} // verus!
