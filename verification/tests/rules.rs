use solfaml_parser::ast::{
    BaseNote, BeatDivision, BeatDivisionKind, Dynamic, DynamicLevel, LyricsChunk, LyricsMeasure,
    LyricsTree, Measure, Note, NoteVariant, Octave,
};
use solfaml_parser::input::{ErrorKind, Input, ParseError};
use solfaml_parser::parser::{
    base_beat_parser, base_lyrics_parser, base_note_parser, dynamic_base_parser,
    dynamic_level_parser, dynamics_parser, half_div_parser, lyrics_chunk_parser,
    lyrics_measure_parser, lyrics_parser, lyrics_tree_parser, measure_parser, metadata_parser,
    normal_div_parser, note_parser, octave_parser, pos_parser, quarter_div_parser, range_parser,
    solfa_parser, staff_bar_parser, staff_parser,
};

/// Runs `parser` on `source` and returns its result with the place the
/// cursor was left at.
fn run<T>(parser: fn(&mut Input) -> Result<T, ParseError>, source: &str) -> (Result<T, ParseError>, usize) {
    let mut input = Input::new(source);
    let result = parser(&mut input);
    (result, input.position())
}

fn fails<T: std::fmt::Debug>(
    parser: fn(&mut Input) -> Result<T, ParseError>,
    source: &str,
    kind: ErrorKind,
    pos: usize,
) {
    let (result, left_at) = run(parser, source);
    assert_eq!(result.unwrap_err(), ParseError { kind, pos }, "on {source:?}");
    assert_eq!(left_at, pos, "on {source:?}");
}

fn note(base: BaseNote, variant: NoteVariant, octave: Octave) -> Note {
    Note { base, variant, octave }
}

fn plain(base: BaseNote) -> Measure {
    Measure::Note(note(base, NoteVariant::Base, Octave::Base))
}

fn div(kind: BeatDivisionKind, lhs: Measure, rhs: Measure) -> Measure {
    Measure::BeatDivision(BeatDivision::new(kind, lhs, rhs))
}

fn text(s: &str) -> LyricsChunk {
    LyricsChunk::String(s.to_string())
}

#[test]
fn each_degree_letter_alone_is_a_plain_note() {
    let degrees = [
        ("d", BaseNote::D),
        ("r", BaseNote::R),
        ("m", BaseNote::M),
        ("f", BaseNote::F),
        ("s", BaseNote::S),
        ("l", BaseNote::L),
        ("t", BaseNote::T),
    ];
    for (letter, base) in degrees {
        assert_eq!(
            run(note_parser, letter),
            (Ok(note(base, NoteVariant::Base, Octave::Base)), 1)
        );
        assert_eq!(run(base_note_parser, letter), (Ok(base), 1));
    }
}

#[test]
fn inflections_and_octaves_of_notes() {
    assert_eq!(
        run(note_parser, "ti"),
        (Ok(note(BaseNote::T, NoteVariant::Raised, Octave::Base)), 2)
    );
    assert_eq!(
        run(note_parser, "ma"),
        (Ok(note(BaseNote::M, NoteVariant::Lowered, Octave::Base)), 2)
    );
    assert_eq!(
        run(note_parser, "d'"),
        (Ok(note(BaseNote::D, NoteVariant::Base, Octave::Up(1))), 2)
    );
    assert_eq!(
        run(note_parser, "f-2"),
        (Ok(note(BaseNote::F, NoteVariant::Base, Octave::Down(2))), 3)
    );
    assert_eq!(
        run(note_parser, "d,,"),
        (Ok(note(BaseNote::D, NoteVariant::Base, Octave::Down(2))), 3)
    );
    assert_eq!(
        run(note_parser, "s+0"),
        (Ok(note(BaseNote::S, NoteVariant::Base, Octave::Up(0))), 3)
    );
    assert_eq!(
        run(note_parser, "l-012"),
        (Ok(note(BaseNote::L, NoteVariant::Base, Octave::Down(12))), 5)
    );
}

#[test]
fn octave_markers_alone() {
    assert_eq!(run(octave_parser, "+12"), (Ok(Octave::Up(12)), 3));
    assert_eq!(run(octave_parser, "-255"), (Ok(Octave::Down(255)), 4));
    assert_eq!(run(octave_parser, "'''"), (Ok(Octave::Up(3)), 3));
    assert_eq!(run(octave_parser, ",, |"), (Ok(Octave::Down(2)), 2));
    fails(octave_parser, "", ErrorKind::VoiceSyntax, 0);
    fails(octave_parser, "+", ErrorKind::VoiceSyntax, 0);
    fails(octave_parser, "-x", ErrorKind::VoiceSyntax, 0);
    fails(octave_parser, "+256", ErrorKind::VoiceSyntax, 0);
    fails(octave_parser, ",d", ErrorKind::VoiceSyntax, 0);
}

#[test]
fn a_number_of_steps_beyond_eight_bits_is_no_octave() {
    assert_eq!(
        run(note_parser, "m+256"),
        (Ok(note(BaseNote::M, NoteVariant::Base, Octave::Base)), 1)
    );
    let commas = format!("d{}", ",".repeat(255));
    assert_eq!(
        run(note_parser, &commas),
        (Ok(note(BaseNote::D, NoteVariant::Base, Octave::Down(255))), 256)
    );
    let commas = format!("d{}", ",".repeat(256));
    assert_eq!(
        run(note_parser, &commas),
        (Ok(note(BaseNote::D, NoteVariant::Base, Octave::Base)), 1)
    );
    let ticks = format!("d{}", "'".repeat(256));
    assert_eq!(
        run(note_parser, &ticks),
        (Ok(note(BaseNote::D, NoteVariant::Base, Octave::Base)), 1)
    );
}

#[test]
fn a_comma_before_a_beat_separates_and_else_lowers() {
    assert_eq!(
        run(quarter_div_parser, "d,r"),
        (Ok(div(BeatDivisionKind::Quarter, plain(BaseNote::D), plain(BaseNote::R))), 3)
    );
    assert_eq!(
        run(quarter_div_parser, "d, |"),
        (Ok(Measure::Note(note(BaseNote::D, NoteVariant::Base, Octave::Down(1)))), 3)
    );
    assert_eq!(
        run(quarter_div_parser, "d,,,-"),
        (Ok(plain(BaseNote::D)), 1)
    );
    assert_eq!(
        run(quarter_div_parser, "d, , r"),
        (
            Ok(div(
                BeatDivisionKind::Quarter,
                Measure::Note(note(BaseNote::D, NoteVariant::Base, Octave::Down(1))),
                plain(BaseNote::R)
            )),
            6
        )
    );
}

#[test]
fn nesting_follows_precedence() {
    let expected = div(
        BeatDivisionKind::Normal,
        plain(BaseNote::D),
        div(
            BeatDivisionKind::Half,
            plain(BaseNote::R),
            div(BeatDivisionKind::Quarter, plain(BaseNote::M), plain(BaseNote::F)),
        ),
    );
    assert_eq!(run(normal_div_parser, "d : r . m , f"), (Ok(expected), 13));
    let expected = div(
        BeatDivisionKind::Normal,
        div(
            BeatDivisionKind::Half,
            div(BeatDivisionKind::Quarter, plain(BaseNote::D), plain(BaseNote::R)),
            plain(BaseNote::M),
        ),
        plain(BaseNote::F),
    );
    assert_eq!(run(normal_div_parser, "d , r . m : f"), (Ok(expected), 13));
}

#[test]
fn divisions_associate_to_the_right() {
    let expected = div(
        BeatDivisionKind::Half,
        plain(BaseNote::D),
        div(BeatDivisionKind::Half, plain(BaseNote::R), plain(BaseNote::M)),
    );
    assert_eq!(run(half_div_parser, "d.r.m"), (Ok(expected), 5));
    assert_eq!(run(half_div_parser, "d:r"), (Ok(plain(BaseNote::D)), 1));
    assert_eq!(run(quarter_div_parser, "d.r"), (Ok(plain(BaseNote::D)), 1));
}

#[test]
fn a_separator_without_a_right_operand_is_left_unread() {
    assert_eq!(run(normal_div_parser, "d : "), (Ok(plain(BaseNote::D)), 2));
    assert_eq!(run(half_div_parser, "d ."), (Ok(plain(BaseNote::D)), 2));
}

#[test]
fn beats() {
    assert_eq!(run(base_beat_parser, "  -\t x"), (Ok(Measure::EmptyNote), 5));
    assert_eq!(run(base_beat_parser, " ri "), (
        Ok(Measure::Note(note(BaseNote::R, NoteVariant::Raised, Octave::Base))),
        4
    ));
    assert_eq!(
        run(base_beat_parser, "_d:r_"),
        (
            Ok(Measure::UnderlinedMeasure(Box::new(div(
                BeatDivisionKind::Normal,
                plain(BaseNote::D),
                plain(BaseNote::R)
            )))),
            5
        )
    );
    fails(base_beat_parser, "  x", ErrorKind::VoiceSyntax, 2);
    fails(base_beat_parser, "_d", ErrorKind::VoiceSyntax, 2);
    fails(base_beat_parser, "_x_", ErrorKind::VoiceSyntax, 1);
    fails(base_beat_parser, "", ErrorKind::VoiceSyntax, 0);
}

#[test]
fn two_bars_behind_single_bars() {
    let (bars, left_at) = run(measure_parser, "| d : r | m : f ||");
    let bars = bars.unwrap();
    assert_eq!(bars.len(), 2);
    assert_eq!(bars[0], div(BeatDivisionKind::Normal, plain(BaseNote::D), plain(BaseNote::R)));
    assert_eq!(bars[1], div(BeatDivisionKind::Normal, plain(BaseNote::M), plain(BaseNote::F)));
    assert_eq!(left_at, 18);
}

#[test]
fn a_line_of_bars_needs_its_closing_bar() {
    fails(measure_parser, "| d : r", ErrorKind::VoiceSyntax, 7);
    fails(measure_parser, "\n\n| : r |", ErrorKind::VoiceSyntax, 4);
    fails(measure_parser, "", ErrorKind::VoiceSyntax, 0);
    assert_eq!(run(measure_parser, "d|").0, Ok(vec![plain(BaseNote::D)]));
    assert_eq!(run(measure_parser, " \n\td | r ||| s").1, 11);
}

#[test]
fn parsing_twice_gives_the_same() {
    for source in ["| d : r | m : f ||", "| d : x ||", "", "d,,r | ||"] {
        assert_eq!(run(measure_parser, source), run(measure_parser, source));
    }
    for source in ["\n---\n| d |\n| d |\n| d |\n| d |\n", "a: b\n---\n| d |", "a b"] {
        assert_eq!(run(solfa_parser, source), run(solfa_parser, source));
    }
}

#[test]
fn a_written_note_parses_back() {
    let bases = [
        ('d', BaseNote::D),
        ('r', BaseNote::R),
        ('m', BaseNote::M),
        ('f', BaseNote::F),
        ('s', BaseNote::S),
        ('l', BaseNote::L),
        ('t', BaseNote::T),
    ];
    let variants =
        [("", NoteVariant::Base), ("i", NoteVariant::Raised), ("a", NoteVariant::Lowered)];
    for (letter, base) in bases {
        for (suffix, variant) in variants {
            for steps in [1u8, 2, 17, 255] {
                let up = format!("{letter}{suffix}{}", "'".repeat(steps as usize));
                assert_eq!(
                    run(note_parser, &up),
                    (Ok(note(base, variant, Octave::Up(steps))), up.len())
                );
                let down = format!("{letter}{suffix}{}", ",".repeat(steps as usize));
                assert_eq!(
                    run(note_parser, &down),
                    (Ok(note(base, variant, Octave::Down(steps))), down.len())
                );
            }
            let flat = format!("{letter}{suffix}");
            assert_eq!(
                run(note_parser, &flat),
                (Ok(note(base, variant, Octave::Base)), flat.len())
            );
        }
    }
}

#[test]
fn a_written_mark_parses_back() {
    let levels = [
        ("fff", DynamicLevel::FFF),
        ("ff", DynamicLevel::FF),
        ("f", DynamicLevel::F),
        ("mf", DynamicLevel::MF),
        ("mp", DynamicLevel::MP),
        ("p", DynamicLevel::P),
        ("pp", DynamicLevel::PP),
        ("ppp", DynamicLevel::PPP),
    ];
    for n in [0u16, 7, 10, 99, 100, 4096, 65535] {
        for m in [0u16, 9, 12345, 65535] {
            let written = format!("<{{{n},{m}}}");
            assert_eq!(
                run(dynamic_base_parser, &written),
                (Ok(Dynamic::Crescendo { start: n, end: m }), written.len())
            );
            let written = format!(">{{{n},{m}}}");
            assert_eq!(
                run(dynamic_base_parser, &written),
                (Ok(Dynamic::Decrescendo { start: n, end: m }), written.len())
            );
        }
        let written = format!("DC{{{n}}}");
        assert_eq!(run(dynamic_base_parser, &written), (Ok(Dynamic::DC { pos: n }), written.len()));
        let written = format!("^{{{n}}}");
        assert_eq!(
            run(dynamic_base_parser, &written),
            (Ok(Dynamic::Accent { pos: n }), written.len())
        );
        for (name, kind) in levels {
            let written = format!("{name}{{{n}}}");
            assert_eq!(
                run(dynamic_base_parser, &written),
                (Ok(Dynamic::Level { pos: n, kind }), written.len())
            );
        }
    }
}

#[test]
fn header_lines_in_order() {
    let (lines, left_at) = run(metadata_parser, "title: foo\nauthor: bar\n");
    assert_eq!(
        lines,
        Ok(vec![
            ("title".to_string(), "foo".to_string()),
            ("author".to_string(), "bar".to_string())
        ])
    );
    assert_eq!(left_at, 22);
}

#[test]
fn a_header_block_ends_before_blank_lines_and_the_separator() {
    assert_eq!(run(metadata_parser, ""), (Ok(vec![]), 0));
    assert_eq!(run(metadata_parser, "---"), (Ok(vec![]), 0));
    assert_eq!(run(metadata_parser, "\n\n"), (Ok(vec![]), 0));
    assert_eq!(
        run(metadata_parser, "a \t:\t b c \n\n \n---\n| d |"),
        (Ok(vec![("a".to_string(), "b c ".to_string())]), 10)
    );
    assert_eq!(
        run(metadata_parser, "k1:v\n"),
        (Ok(vec![("k1".to_string(), "v".to_string())]), 4)
    );
}

#[test]
fn a_line_that_is_no_header_line_fails_the_header_block() {
    fails(metadata_parser, "title foo", ErrorKind::MetadataSyntax, 0);
    fails(metadata_parser, "a:", ErrorKind::MetadataSyntax, 0);
    fails(metadata_parser, ": x", ErrorKind::MetadataSyntax, 0);
    fails(metadata_parser, "k1:v\nk-2: w", ErrorKind::MetadataSyntax, 5);
    fails(metadata_parser, "a: 1\n\nc: d", ErrorKind::MetadataSyntax, 6);
    fails(metadata_parser, "a: 1\n  --\n", ErrorKind::MetadataSyntax, 7);
    fails(metadata_parser, "| d : r ||", ErrorKind::MetadataSyntax, 0);
}

#[test]
fn header_of_a_score_maps_keys_to_values() {
    let staff = "| d |\n| d |\n| d |\n| d |\n";
    let source = format!("title: foo\nauthor: bar\n---\n{staff}");
    let (solfa, left_at) = run(solfa_parser, &source);
    let solfa = solfa.unwrap();
    assert_eq!(left_at, source.len());
    assert_eq!(solfa.header.len(), 2);
    assert_eq!(solfa.header.get("title"), Some(&"foo".to_string()));
    assert_eq!(solfa.header.get("author"), Some(&"bar".to_string()));
    assert_eq!(solfa.header.get("key"), None);
    assert_eq!(solfa.header.entry(0), (&"title".to_string(), &"foo".to_string()));
    assert_eq!(solfa.header.entry(1), (&"author".to_string(), &"bar".to_string()));
}

#[test]
fn a_later_header_line_overwrites_an_earlier_one() {
    let staff = "| d |\n| d |\n| d |\n| d |\n";
    let source = format!("a: 1\nb: 2\na: 3\n---\n{staff}");
    let solfa = run(solfa_parser, &source).0.unwrap();
    assert_eq!(solfa.header.len(), 2);
    assert_eq!(solfa.header.get("a"), Some(&"3".to_string()));
    assert_eq!(solfa.header.entry(0), (&"a".to_string(), &"3".to_string()));
    assert_eq!(solfa.header.entry(1), (&"b".to_string(), &"2".to_string()));
}

#[test]
fn lyrics_of_one_verse() {
    let (tree, left_at) = run(lyrics_tree_parser, "1. do re_mi\\ | fasola ti$e <|> do % ||");
    let tree = tree.unwrap();
    assert_eq!(left_at, 38);
    assert_eq!(tree.prefix, "1.");
    let LyricsMeasure::Join(left, right) = tree.root else {
        panic!("the root joins two bars");
    };
    assert_eq!(
        *left,
        LyricsMeasure::Chunk(LyricsChunk::Space(
            Box::new(text("do")),
            Box::new(LyricsChunk::Concat(
                Box::new(text("re")),
                Box::new(LyricsChunk::NewLineSuffixed(Box::new(text("mi"))))
            ))
        ))
    );
    let LyricsMeasure::Concat(tied, last) = *right else {
        panic!("the right branch ties across the bar line");
    };
    assert_eq!(
        *tied,
        LyricsMeasure::Chunk(LyricsChunk::Space(
            Box::new(text("fasola")),
            Box::new(LyricsChunk::Split(Box::new(text("ti")), Box::new(text("e"))))
        ))
    );
    assert_eq!(
        *last,
        LyricsMeasure::Chunk(LyricsChunk::Space(
            Box::new(text("do")),
            Box::new(LyricsChunk::Placeholder)
        ))
    );
}

#[test]
fn syllables() {
    assert_eq!(run(base_lyrics_parser, "%"), (Ok(LyricsChunk::Placeholder), 1));
    assert_eq!(run(base_lyrics_parser, "la la"), (Ok(text("la")), 2));
    assert_eq!(
        run(base_lyrics_parser, "%\\"),
        (Ok(LyricsChunk::NewLineSuffixed(Box::new(LyricsChunk::Placeholder))), 2)
    );
    assert_eq!(
        run(base_lyrics_parser, "a$b$c\\"),
        (
            Ok(LyricsChunk::Split(
                Box::new(text("a")),
                Box::new(LyricsChunk::Split(
                    Box::new(text("b")),
                    Box::new(LyricsChunk::NewLineSuffixed(Box::new(text("c"))))
                ))
            )),
            6
        )
    );
    assert_eq!(run(base_lyrics_parser, "a$ b"), (Ok(text("a")), 1));
    assert_eq!(run(base_lyrics_parser, "\u{e9}t\u{e9} x"), (Ok(text("\u{e9}t\u{e9}")), 3));
    fails(base_lyrics_parser, "", ErrorKind::LyricsSyntax, 0);
    fails(base_lyrics_parser, " la", ErrorKind::LyricsSyntax, 0);
    fails(base_lyrics_parser, "$a", ErrorKind::LyricsSyntax, 0);
}

#[test]
fn chunks_and_bars_of_lyrics() {
    assert_eq!(
        run(lyrics_chunk_parser, "  la_li lu  |"),
        (
            Ok(LyricsChunk::Concat(
                Box::new(text("la")),
                Box::new(LyricsChunk::Space(Box::new(text("li")), Box::new(text("lu"))))
            )),
            12
        )
    );
    assert_eq!(run(lyrics_chunk_parser, "la_"), (Ok(text("la")), 2));
    fails(lyrics_chunk_parser, "  |", ErrorKind::LyricsSyntax, 2);
    assert_eq!(
        run(lyrics_measure_parser, "la|li<|>lu|"),
        (
            Ok(LyricsMeasure::Join(
                Box::new(LyricsMeasure::Chunk(text("la"))),
                Box::new(LyricsMeasure::Concat(
                    Box::new(LyricsMeasure::Chunk(text("li"))),
                    Box::new(LyricsMeasure::Chunk(text("lu")))
                ))
            )),
            10
        )
    );
    fails(lyrics_measure_parser, "<|>", ErrorKind::LyricsSyntax, 0);
}

#[test]
fn verses_of_one_voice() {
    let (trees, left_at) = run(lyrics_parser, "\n\n1. la ||\n2. li |\n\n| d");
    assert_eq!(
        trees,
        Ok(vec![
            LyricsTree { prefix: "1.".to_string(), root: LyricsMeasure::Chunk(text("la")) },
            LyricsTree { prefix: "2.".to_string(), root: LyricsMeasure::Chunk(text("li")) },
        ])
    );
    assert_eq!(left_at, 18);
    fails(lyrics_parser, "\n | d", ErrorKind::LyricsSyntax, 2);
    fails(lyrics_parser, "\n1.", ErrorKind::LyricsSyntax, 3);
    fails(lyrics_tree_parser, "", ErrorKind::LyricsSyntax, 0);
    fails(lyrics_tree_parser, "1. |", ErrorKind::LyricsSyntax, 3);
}

#[test]
fn dynamics_behind_the_flag() {
    assert_eq!(
        run(dynamics_parser, "|: f{1} <{3,7} ^{8} mp{10} ||"),
        (
            Ok(vec![
                Dynamic::Level { pos: 1, kind: DynamicLevel::F },
                Dynamic::Crescendo { start: 3, end: 7 },
                Dynamic::Accent { pos: 8 },
                Dynamic::Level { pos: 10, kind: DynamicLevel::MP },
            ]),
            29
        )
    );
}

#[test]
fn dynamics_without_the_flag_are_dropped() {
    assert_eq!(run(dynamics_parser, "f{1} <{3,7} ^{8} mp{10} ||"), (Ok(vec![]), 26));
    assert_eq!(run(dynamics_parser, "| f{1}"), (Ok(vec![]), 1));
}

#[test]
fn the_line_of_dynamics_always_matches() {
    assert_eq!(run(dynamics_parser, ""), (Ok(vec![]), 0));
    assert_eq!(run(dynamics_parser, "xyz"), (Ok(vec![]), 0));
    assert_eq!(run(dynamics_parser, "|:"), (Ok(vec![]), 2));
    assert_eq!(run(dynamics_parser, "| d : r ||"), (Ok(vec![]), 1));
    assert_eq!(run(dynamics_parser, "|: \t ||\n\n"), (Ok(vec![]), 8));
    assert_eq!(
        run(dynamics_parser, "|: DC{2}  f{99999}"),
        (Ok(vec![Dynamic::DC { pos: 2 }]), 10)
    );
}

#[test]
fn every_level_name_is_read_at_its_full_length() {
    let levels = [
        ("fff", DynamicLevel::FFF),
        ("ff", DynamicLevel::FF),
        ("f", DynamicLevel::F),
        ("mf", DynamicLevel::MF),
        ("mp", DynamicLevel::MP),
        ("p", DynamicLevel::P),
        ("pp", DynamicLevel::PP),
        ("ppp", DynamicLevel::PPP),
    ];
    for (name, kind) in levels {
        let source = format!("{name} {{7}}");
        assert_eq!(
            run(dynamic_level_parser, &source),
            (Ok(Dynamic::Level { pos: 7, kind }), source.len())
        );
        assert_eq!(
            run(dynamic_base_parser, &source),
            (Ok(Dynamic::Level { pos: 7, kind }), source.len())
        );
    }
    fails(dynamic_level_parser, "ffff{1}", ErrorKind::DynamicsSyntax, 3);
    fails(dynamic_level_parser, "m{1}", ErrorKind::DynamicsSyntax, 0);
    fails(dynamic_level_parser, "f{65536}", ErrorKind::NumberTooLarge, 1);
}

#[test]
fn marks() {
    assert_eq!(run(dynamic_base_parser, "DC{9}"), (Ok(Dynamic::DC { pos: 9 }), 5));
    assert_eq!(run(dynamic_base_parser, "^ {8}"), (Ok(Dynamic::Accent { pos: 8 }), 5));
    assert_eq!(
        run(dynamic_base_parser, "<{3,7}"),
        (Ok(Dynamic::Crescendo { start: 3, end: 7 }), 6)
    );
    assert_eq!(
        run(dynamic_base_parser, ">\t{ 7,3 }"),
        (Ok(Dynamic::Decrescendo { start: 7, end: 3 }), 9)
    );
    fails(dynamic_base_parser, "x", ErrorKind::DynamicsSyntax, 0);
    fails(dynamic_base_parser, "f{65536}", ErrorKind::DynamicsSyntax, 0);
    fails(dynamic_base_parser, "<{3}", ErrorKind::DynamicsSyntax, 0);
    fails(dynamic_base_parser, ">{3}", ErrorKind::DynamicsSyntax, 3);
    fails(dynamic_base_parser, ">{3,70000}", ErrorKind::NumberTooLarge, 1);
}

#[test]
fn positions_and_ranges() {
    assert_eq!(run(pos_parser, "{0}"), (Ok(0), 3));
    assert_eq!(run(pos_parser, "{ \t65535 }x"), (Ok(65535), 10));
    assert_eq!(run(pos_parser, "{0000000000000000000000012}"), (Ok(12), 27));
    fails(pos_parser, "{65536}", ErrorKind::NumberTooLarge, 0);
    fails(pos_parser, "{99999999999999999999999}", ErrorKind::NumberTooLarge, 0);
    fails(pos_parser, "7}", ErrorKind::DynamicsSyntax, 0);
    fails(pos_parser, "{ }", ErrorKind::DynamicsSyntax, 2);
    fails(pos_parser, "{7", ErrorKind::DynamicsSyntax, 2);
    fails(pos_parser, "{7,8}", ErrorKind::DynamicsSyntax, 2);
    assert_eq!(run(range_parser, "{3,7}"), (Ok((3, 7)), 5));
    assert_eq!(run(range_parser, "{ 65535,0 }"), (Ok((65535, 0)), 11));
    fails(range_parser, "{3 ,7}", ErrorKind::DynamicsSyntax, 2);
    fails(range_parser, "{3, 7}", ErrorKind::DynamicsSyntax, 3);
    fails(range_parser, "{3}", ErrorKind::DynamicsSyntax, 2);
    fails(range_parser, "{3,7", ErrorKind::DynamicsSyntax, 4);
    fails(range_parser, "{65536,7}", ErrorKind::NumberTooLarge, 0);
    fails(range_parser, "{7,65536}", ErrorKind::NumberTooLarge, 0);
}

#[test]
fn a_letter_that_names_no_degree_is_no_note() {
    fails(note_parser, "x", ErrorKind::VoiceSyntax, 0);
    fails(note_parser, "", ErrorKind::VoiceSyntax, 0);
    fails(note_parser, "a", ErrorKind::VoiceSyntax, 0);
    fails(base_note_parser, "D", ErrorKind::VoiceSyntax, 0);
}

#[test]
fn the_bar_rule() {
    assert_eq!(run(staff_bar_parser, "|---||\n| d"), (Ok(()), 7));
    assert_eq!(run(staff_bar_parser, "|-|\n"), (Ok(()), 4));
    fails(staff_bar_parser, "---|\n", ErrorKind::VoiceSyntax, 0);
    fails(staff_bar_parser, "||\n", ErrorKind::VoiceSyntax, 1);
    fails(staff_bar_parser, "|--\n", ErrorKind::VoiceSyntax, 3);
    fails(staff_bar_parser, "|--|", ErrorKind::VoiceSyntax, 4);
}

#[test]
fn a_staff_has_four_voices() {
    fails(staff_parser, "| d |\n| d |\n| d |\n", ErrorKind::VoiceSyntax, 18);
    fails(staff_parser, "", ErrorKind::VoiceSyntax, 0);
    let (staff, left_at) = run(staff_parser, "| d |\n| d |\n| d |\n| d |\n| d |\n");
    assert_eq!(staff.unwrap().measures.len(), 1);
    assert_eq!(left_at, 23);
}

#[test]
fn longer_voices_are_cut_to_the_shortest() {
    let (staff, left_at) = run(staff_parser, "| d | r |\n| m |\n| f | s | l |\n| t | d |");
    let staff = staff.unwrap();
    assert_eq!(left_at, 39);
    assert_eq!(
        staff.measures,
        vec![[plain(BaseNote::D), plain(BaseNote::M), plain(BaseNote::F), plain(BaseNote::T)]]
    );
}

#[test]
fn a_score_needs_its_separator() {
    let staff = "| d |\n| d |\n| d |\n| d |\n";
    fails(solfa_parser, "title: foo\n", ErrorKind::MissingSeparator, 11);
    fails(solfa_parser, "", ErrorKind::MissingSeparator, 0);
    fails(solfa_parser, &format!("---{staff}"), ErrorKind::MissingSeparator, 3);
    fails(solfa_parser, &format!("title: foo\n--\n{staff}"), ErrorKind::MetadataSyntax, 11);
}

#[test]
fn a_line_that_is_no_header_line_is_a_metadata_error() {
    let staff = "| d |\n| d |\n| d |\n| d |\n";
    fails(solfa_parser, &format!("title foo\n---\n{staff}"), ErrorKind::MetadataSyntax, 0);
    fails(solfa_parser, &format!("a: 1\n\nb 2\n---\n{staff}"), ErrorKind::MetadataSyntax, 6);
    fails(solfa_parser, &format!("\n{staff}"), ErrorKind::MetadataSyntax, 1);
}

#[test]
fn a_score_needs_a_staff() {
    fails(solfa_parser, "---\n", ErrorKind::VoiceSyntax, 4);
    fails(solfa_parser, "---\n| d |\n| d |\n| x |\n| d |\n", ErrorKind::VoiceSyntax, 18);
}

#[test]
fn positions_count_characters() {
    let source = "> \u{e9}t\u{e9} |";
    let mut input = Input::new(source);
    let tree = lyrics_tree_parser(&mut input).unwrap();
    assert_eq!(tree.root, LyricsMeasure::Chunk(text("\u{e9}t\u{e9}")));
    assert_eq!(input.position(), 7);
    assert!(input.is_at_end());
    fails(measure_parser, "| d : \u{e9} ||", ErrorKind::VoiceSyntax, 4);
}

#[test]
fn text_left_over_is_an_error_where_all_has_to_be_taken() {
    let mut input = Input::new("d x");
    let result = note_parser(&mut input);
    assert_eq!(result, Ok(note(BaseNote::D, NoteVariant::Base, Octave::Base)));
    assert!(!input.is_at_end());
    assert_eq!(
        input.complete(result),
        Err(ParseError { kind: ErrorKind::TrailingText, pos: 1 })
    );
    let mut input = Input::new("d");
    let result = note_parser(&mut input);
    assert_eq!(
        input.complete(result),
        Ok(note(BaseNote::D, NoteVariant::Base, Octave::Base))
    );
    let mut input = Input::new("x");
    let result = note_parser(&mut input);
    assert_eq!(
        input.complete(result),
        Err(ParseError { kind: ErrorKind::VoiceSyntax, pos: 0 })
    );
}
