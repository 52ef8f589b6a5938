use solfaml_parser::ast::{
    BaseNote, BeatDivision, BeatDivisionKind, Dynamic, DynamicLevel, IndexedLyricsSet,
    LyricsChunk, LyricsMeasure, LyricsTree, Measure, Note, NoteVariant, Octave, Solfa, Staff,
};
use solfaml_parser::ast::BaseNote::{D, F, L, M, R, S, T};
use solfaml_parser::ast::NoteVariant::{Base, Lowered, Raised};
use solfaml_parser::input::{Input, ParseError};
use solfaml_parser::parser::{
    dynamics_parser, lyrics_tree_parser, measure_parser, metadata_parser, note_parser,
    solfa_parser,
};

fn whole<T>(parser: fn(&mut Input) -> Result<T, ParseError>, source: &str) -> Result<T, ParseError> {
    let mut input = Input::new(source);
    let result = parser(&mut input);
    input.complete(result)
}

fn pitch(base: BaseNote, variant: NoteVariant, octave: Octave) -> Note {
    Note { base, variant, octave }
}

fn plain(base: BaseNote) -> Measure {
    Measure::Note(pitch(base, NoteVariant::Base, Octave::Base))
}

fn tone(base: BaseNote, variant: NoteVariant, octave: Octave) -> Measure {
    Measure::Note(pitch(base, variant, octave))
}

fn div(kind: BeatDivisionKind, lhs: Measure, rhs: Measure) -> Measure {
    Measure::BeatDivision(BeatDivision::new(kind, lhs, rhs))
}

fn normal(lhs: Measure, rhs: Measure) -> Measure {
    div(BeatDivisionKind::Normal, lhs, rhs)
}

fn half(lhs: Measure, rhs: Measure) -> Measure {
    div(BeatDivisionKind::Half, lhs, rhs)
}

fn quarter(lhs: Measure, rhs: Measure) -> Measure {
    div(BeatDivisionKind::Quarter, lhs, rhs)
}

fn underlined(inner: Measure) -> Measure {
    Measure::UnderlinedMeasure(Box::new(inner))
}

fn text(s: &str) -> LyricsChunk {
    LyricsChunk::String(s.to_string())
}

fn space(lhs: LyricsChunk, rhs: LyricsChunk) -> LyricsChunk {
    LyricsChunk::Space(Box::new(lhs), Box::new(rhs))
}

fn tie(lhs: LyricsChunk, rhs: LyricsChunk) -> LyricsChunk {
    LyricsChunk::Concat(Box::new(lhs), Box::new(rhs))
}

fn split(lhs: LyricsChunk, rhs: LyricsChunk) -> LyricsChunk {
    LyricsChunk::Split(Box::new(lhs), Box::new(rhs))
}

fn line_break(inner: LyricsChunk) -> LyricsChunk {
    LyricsChunk::NewLineSuffixed(Box::new(inner))
}

fn chunk(inner: LyricsChunk) -> LyricsMeasure {
    LyricsMeasure::Chunk(inner)
}

fn join(lhs: LyricsMeasure, rhs: LyricsMeasure) -> LyricsMeasure {
    LyricsMeasure::Join(Box::new(lhs), Box::new(rhs))
}

fn across(lhs: LyricsMeasure, rhs: LyricsMeasure) -> LyricsMeasure {
    LyricsMeasure::Concat(Box::new(lhs), Box::new(rhs))
}

fn verse(prefix: &str, root: LyricsMeasure) -> LyricsTree {
    LyricsTree { prefix: prefix.to_string(), root }
}

fn four(make: fn() -> Measure) -> [Measure; 4] {
    [make(), make(), make(), make()]
}

fn d_r() -> Measure {
    normal(plain(BaseNote::D), plain(BaseNote::R))
}

fn m_f() -> Measure {
    normal(plain(BaseNote::M), plain(BaseNote::F))
}

fn s_l() -> Measure {
    normal(plain(BaseNote::S), plain(BaseNote::L))
}

fn header_entries(solfa: &Solfa) -> Vec<(String, String)> {
    let mut entries = Vec::new();
    let mut i = 0;
    while i < solfa.header.len() {
        let (key, value) = solfa.header.entry(i);
        entries.push((key.clone(), value.clone()));
        i += 1;
    }
    entries
}

fn pair(key: &str, value: &str) -> (String, String) {
    (key.to_string(), value.to_string())
}

#[test]
fn test_metadata_parser() {
    let source = "title: foo
author: bar
time: 4/4
key: C
description: Hello World!";

    let metadata = whole(metadata_parser, source);

    assert_eq!(
        metadata,
        Ok(vec![
            pair("title", "foo"),
            pair("author", "bar"),
            pair("time", "4/4"),
            pair("key", "C"),
            pair("description", "Hello World!"),
        ])
    );
}

#[test]
fn test_dynamics_parsing() {
    let source = "|: f{1} <{3,7} ^{8} mp{10} ||";
    let dynamics = whole(dynamics_parser, source).unwrap();

    assert_eq!(
        dynamics,
        vec![
            Dynamic::Level { pos: 1, kind: DynamicLevel::F },
            Dynamic::Crescendo { start: 3, end: 7 },
            Dynamic::Accent { pos: 8 },
            Dynamic::Level { pos: 10, kind: DynamicLevel::MP },
        ]
    );
}

#[test]
fn test_note_parsing() {
    let source = [
        "d", "r", "m", "f", "s", "l", "t", "d'", "r,", "m+2", "f-2", "ti", "da", "ri'", "ma,",
        "si+1", "ra-3", "d,,", "r''",
    ];

    let notes = source
        .into_iter()
        .map(|s| whole(note_parser, s))
        .collect::<Vec<_>>();

    assert_eq!(
        notes,
        vec![
            Ok(pitch(D, Base, Octave::Base)),
            Ok(pitch(R, Base, Octave::Base)),
            Ok(pitch(M, Base, Octave::Base)),
            Ok(pitch(F, Base, Octave::Base)),
            Ok(pitch(S, Base, Octave::Base)),
            Ok(pitch(L, Base, Octave::Base)),
            Ok(pitch(T, Base, Octave::Base)),
            Ok(pitch(D, Base, Octave::Up(1))),
            Ok(pitch(R, Base, Octave::Down(1))),
            Ok(pitch(M, Base, Octave::Up(2))),
            Ok(pitch(F, Base, Octave::Down(2))),
            Ok(pitch(T, Raised, Octave::Base)),
            Ok(pitch(D, Lowered, Octave::Base)),
            Ok(pitch(R, Raised, Octave::Up(1))),
            Ok(pitch(M, Lowered, Octave::Down(1))),
            Ok(pitch(S, Raised, Octave::Up(1))),
            Ok(pitch(R, Lowered, Octave::Down(3))),
            Ok(pitch(D, Base, Octave::Down(2))),
            Ok(pitch(R, Base, Octave::Up(2))),
        ]
    );
}

#[test]
fn test_measure_parsing() {
    let source = "| d : r .  m , f  | s : _l . t_ , - ||";
    let measure = whole(measure_parser, source);

    assert_eq!(
        measure,
        Ok(vec![
            normal(
                plain(BaseNote::D),
                half(plain(BaseNote::R), quarter(plain(BaseNote::M), plain(BaseNote::F))),
            ),
            normal(
                plain(BaseNote::S),
                quarter(
                    underlined(half(plain(BaseNote::L), plain(BaseNote::T))),
                    Measure::EmptyNote,
                ),
            ),
        ])
    );
}

#[test]
fn test_lyrics_parsing() {
    let source = "1. do re_mi\\ | fasola ti$e <|> do % ||";
    let lyrics = whole(lyrics_tree_parser, source);

    assert_eq!(
        lyrics,
        Ok(verse(
            "1.",
            join(
                chunk(space(text("do"), tie(text("re"), line_break(text("mi"))))),
                across(
                    chunk(space(text("fasola"), split(text("ti"), text("e")))),
                    chunk(space(text("do"), LyricsChunk::Placeholder)),
                ),
            ),
        ))
    );
}

#[test]
fn test_simple_solfa_parsing() {
    let source = "
---
| d : r | m : f ||
| d : r | m : f ||
| d : r | m : f ||
| d : r | m : f ||
";

    let result = whole(solfa_parser, source);

    let solfa = result.unwrap();
    assert_eq!(header_entries(&solfa), vec![]);
    assert_eq!(
        solfa.staffs,
        vec![Staff { dynamics: vec![], measures: vec![four(d_r), four(m_f)], lyrics: vec![] }]
    );
}

#[test]
fn test_per_voice_lyrics_parsing() {
    let source = "
---
| d : r ||
| d : r ||
> do re
| d : r ||
| d : r ||
> doo ree
";

    let result = whole(solfa_parser, source);

    let solfa = result.unwrap();
    assert_eq!(header_entries(&solfa), vec![]);
    assert_eq!(
        solfa.staffs,
        vec![Staff {
            dynamics: vec![],
            measures: vec![four(d_r)],
            lyrics: vec![
                IndexedLyricsSet {
                    index: 1,
                    lyrics: vec![verse(">", chunk(space(text("do"), text("re"))))],
                },
                IndexedLyricsSet {
                    index: 3,
                    lyrics: vec![verse(">", chunk(space(text("doo"), text("ree"))))],
                },
            ],
        }]
    );
}

#[test]
fn test_multi_staff_parsing() {
    let source = "
---
| d : r | m : f ||
| d : r | m : f ||
| d : r | m : f ||
| d : r | m : f ||

> do re | mi fa

| s : l | t : d' ||
| s : l | t : d' ||

> so la | ti do

| s : l | t : - ||
| s : l | t : - ||

> so la | ti
";

    let result = whole(solfa_parser, source);

    let t_high_d = || {
        normal(plain(BaseNote::T), tone(BaseNote::D, NoteVariant::Base, Octave::Up(1)))
    };
    let t_rest = || normal(plain(BaseNote::T), Measure::EmptyNote);
    let solfa = result.unwrap();
    assert_eq!(header_entries(&solfa), vec![]);
    assert_eq!(
        solfa.staffs,
        vec![
            Staff {
                dynamics: vec![],
                measures: vec![four(d_r), four(m_f)],
                lyrics: vec![IndexedLyricsSet {
                    index: 3,
                    lyrics: vec![verse(
                        ">",
                        join(
                            chunk(space(text("do"), text("re"))),
                            chunk(space(text("mi"), text("fa"))),
                        ),
                    )],
                }],
            },
            Staff {
                dynamics: vec![],
                measures: vec![four(s_l), [t_high_d(), t_high_d(), t_rest(), t_rest()]],
                lyrics: vec![
                    IndexedLyricsSet {
                        index: 1,
                        lyrics: vec![verse(
                            ">",
                            join(
                                chunk(space(text("so"), text("la"))),
                                chunk(space(text("ti"), text("do"))),
                            ),
                        )],
                    },
                    IndexedLyricsSet {
                        index: 3,
                        lyrics: vec![verse(
                            ">",
                            join(chunk(space(text("so"), text("la"))), chunk(text("ti"))),
                        )],
                    },
                ],
            },
        ]
    );
}

#[test]
fn test_full_parsing() {
    let source = "
title: foo
author: bar
time: 4/4
key: C
description: Hello World!

---

|: p{1}       <{4,7}             ^{8}   DC{9} ||
|---------------------------------------------||
| d : r : m | f . s , l :  t   | _d'_ : ri+2  ||
| d : r : m | f . s , l :  t   | _d'_ : ri+2  ||
| d : r : m | f . s , l :  t   | _d'_ : ra-1  ||
| d : r : m | f . s , l :  t   |  d,  : ra-1  ||

1. do re_mi |   fasola   ti$e <|> do     re   ||
2. do re_mi |   fasola   ti$e <|> do     %    ||
";

    let solfa = whole(solfa_parser, source).unwrap();

    let first = || normal(plain(BaseNote::D), normal(plain(BaseNote::R), plain(BaseNote::M)));
    let second = || {
        normal(
            half(plain(BaseNote::F), quarter(plain(BaseNote::S), plain(BaseNote::L))),
            plain(BaseNote::T),
        )
    };
    let high_d = || underlined(tone(BaseNote::D, NoteVariant::Base, Octave::Up(1)));
    let low_d = || tone(BaseNote::D, NoteVariant::Base, Octave::Down(1));
    let ri = || tone(BaseNote::R, NoteVariant::Raised, Octave::Up(2));
    let ra = || tone(BaseNote::R, NoteVariant::Lowered, Octave::Down(1));
    let words = |last: LyricsChunk| {
        join(
            chunk(space(text("do"), tie(text("re"), text("mi")))),
            across(
                chunk(space(text("fasola"), split(text("ti"), text("e")))),
                chunk(space(text("do"), last)),
            ),
        )
    };
    assert_eq!(
        solfa.staffs,
        vec![Staff {
            dynamics: vec![
                Dynamic::Level { pos: 1, kind: DynamicLevel::P },
                Dynamic::Crescendo { start: 4, end: 7 },
                Dynamic::Accent { pos: 8 },
                Dynamic::DC { pos: 9 },
            ],
            measures: vec![
                [first(), first(), first(), first()],
                [second(), second(), second(), second()],
                [
                    normal(high_d(), ri()),
                    normal(high_d(), ri()),
                    normal(high_d(), ra()),
                    normal(low_d(), ra()),
                ],
            ],
            lyrics: vec![IndexedLyricsSet {
                index: 3,
                lyrics: vec![
                    verse("1.", words(text("re"))),
                    verse("2.", words(LyricsChunk::Placeholder)),
                ],
            }],
        }]
    );
    assert_eq!(
        header_entries(&solfa),
        vec![
            pair("title", "foo"),
            pair("author", "bar"),
            pair("time", "4/4"),
            pair("key", "C"),
            pair("description", "Hello World!"),
        ]
    );
}
