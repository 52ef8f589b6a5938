use solfaml_parser::ast::{
    BaseNote, BeatDivision, BeatDivisionKind, Dynamic, IndexedLyricsSet, LyricsChunk,
    LyricsMeasure, LyricsTree, Measure, Note, NoteVariant, Octave, Staff, StaffPartial,
};
use solfaml_parser::chars::CharClass;
use solfaml_parser::header::Header;
use solfaml_parser::input::Input;

fn plain(base: BaseNote) -> Measure {
    Measure::Note(Note { base, variant: NoteVariant::Base, octave: Octave::Base })
}

fn verse(prefix: &str) -> LyricsTree {
    LyricsTree {
        prefix: prefix.to_string(),
        root: LyricsMeasure::Chunk(LyricsChunk::Placeholder),
    }
}

#[test]
fn a_note_moved_up_or_down_keeps_degree_and_inflection() {
    let note = Note { base: BaseNote::S, variant: NoteVariant::Raised, octave: Octave::Down(4) };
    assert_eq!(
        note.with_octave_up(2),
        Note { base: BaseNote::S, variant: NoteVariant::Raised, octave: Octave::Up(2) }
    );
    assert_eq!(
        note.with_octave_down(0),
        Note { base: BaseNote::S, variant: NoteVariant::Raised, octave: Octave::Down(0) }
    );
    assert_eq!(
        note.with_octave_up(255).with_octave_down(1),
        Note { base: BaseNote::S, variant: NoteVariant::Raised, octave: Octave::Down(1) }
    );
}

#[test]
fn a_division_holds_its_operands_and_its_level() {
    let division = BeatDivision::new(BeatDivisionKind::Half, plain(BaseNote::D), Measure::EmptyNote);
    assert_eq!(division.kind, BeatDivisionKind::Half);
    assert_eq!(*division.lhs, plain(BaseNote::D));
    assert_eq!(*division.rhs, Measure::EmptyNote);
}

#[test]
fn verses_of_a_voice_carry_its_number() {
    let set = IndexedLyricsSet::from((2, vec![verse("1."), verse("2.")]));
    assert_eq!(set.index, 2);
    assert_eq!(set.lyrics, vec![verse("1."), verse("2.")]);
}

#[test]
fn a_staff_puts_the_voices_side_by_side() {
    let staff = Staff::from(StaffPartial {
        dynamics: vec![Dynamic::Accent { pos: 3 }],
        voice1: vec![plain(BaseNote::D), plain(BaseNote::R), plain(BaseNote::M)],
        lyrics1: Some(vec![verse("a")]),
        voice2: vec![plain(BaseNote::F), plain(BaseNote::S)],
        lyrics2: None,
        voice3: vec![plain(BaseNote::L), plain(BaseNote::T), Measure::EmptyNote],
        lyrics3: Some(vec![]),
        voice4: vec![Measure::EmptyNote, plain(BaseNote::D), plain(BaseNote::R)],
        lyrics4: Some(vec![verse("b"), verse("c")]),
    });
    assert_eq!(staff.dynamics, vec![Dynamic::Accent { pos: 3 }]);
    assert_eq!(
        staff.measures,
        vec![
            [plain(BaseNote::D), plain(BaseNote::F), plain(BaseNote::L), Measure::EmptyNote],
            [plain(BaseNote::R), plain(BaseNote::S), plain(BaseNote::T), plain(BaseNote::D)],
        ]
    );
    assert_eq!(
        staff.lyrics,
        vec![
            IndexedLyricsSet { index: 0, lyrics: vec![verse("a")] },
            IndexedLyricsSet { index: 2, lyrics: vec![] },
            IndexedLyricsSet { index: 3, lyrics: vec![verse("b"), verse("c")] },
        ]
    );
}

#[test]
fn a_staff_with_a_voice_without_bars_has_no_bars() {
    let staff = Staff::from(StaffPartial {
        dynamics: vec![],
        voice1: vec![plain(BaseNote::D)],
        lyrics1: None,
        voice2: vec![plain(BaseNote::D)],
        lyrics2: None,
        voice3: vec![],
        lyrics3: None,
        voice4: vec![plain(BaseNote::D)],
        lyrics4: None,
    });
    assert_eq!(staff.measures, Vec::<[Measure; 4]>::new());
    assert_eq!(staff.lyrics, vec![]);
}

#[test]
fn a_header_keeps_keys_in_the_order_they_came() {
    let mut header = Header::new();
    assert_eq!(header.len(), 0);
    assert_eq!(header.get("title"), None);
    header.insert("title".to_string(), "foo".to_string());
    header.insert("author".to_string(), "bar".to_string());
    header.insert("title".to_string(), "baz".to_string());
    assert_eq!(header.len(), 2);
    assert_eq!(header.entry(0), (&"title".to_string(), &"baz".to_string()));
    assert_eq!(header.entry(1), (&"author".to_string(), &"bar".to_string()));
    assert_eq!(header.get("title"), Some(&"baz".to_string()));
    assert_eq!(header.get("author"), Some(&"bar".to_string()));
    assert_eq!(header.get("Title"), None);
}

#[test]
fn a_cursor_moves_over_the_text() {
    let mut input = Input::new("a\u{e9} \t12x");
    assert_eq!(input.len(), 7);
    assert_eq!(input.position(), 0);
    assert!(!input.is_at_end());
    assert_eq!(input.peek(), Some('a'));
    assert!(input.sees(1, '\u{e9}'));
    assert!(!input.sees(7, 'x'));
    assert_eq!(input.run_from(2, CharClass::Space), 2);
    assert_eq!(input.run_from(2, CharClass::Digit), 0);
    assert_eq!(input.number(4, 2, 255), Some(12));
    assert_eq!(input.number(4, 2, 11), None);
    assert_eq!(input.text_between(0, 2), "a\u{e9}");
    assert_eq!(input.text_between(3, 3), "");
    input.skip(2);
    assert_eq!(input.skip_run(CharClass::Multispace), 2);
    assert_eq!(input.position(), 4);
    assert_eq!(input.skip_run(CharClass::Alphanumeric), 3);
    assert!(input.is_at_end());
    assert_eq!(input.peek(), None);
    input.seek(1);
    assert_eq!(input.peek(), Some('\u{e9}'));
    assert!(Input::new("").is_at_end());
}

#[test]
fn character_classes() {
    for c in [' ', '\t'] {
        assert!(CharClass::Space.accepts(c));
    }
    for c in ['\n', '\r', 'a', '\u{a0}'] {
        assert!(!CharClass::Space.accepts(c));
    }
    for c in [' ', '\t', '\n', '\r'] {
        assert!(CharClass::Multispace.accepts(c));
    }
    assert!(!CharClass::Multispace.accepts('\u{b}'));
    for c in ['0', '5', '9'] {
        assert!(CharClass::Digit.accepts(c));
        assert!(CharClass::Alphanumeric.accepts(c));
    }
    for c in ['/', ':', 'a', '\u{663}'] {
        assert!(!CharClass::Digit.accepts(c));
    }
    for c in ['a', 'z', 'A', 'Z'] {
        assert!(CharClass::Alphanumeric.accepts(c));
    }
    for c in ['@', '[', '`', '{', '_', '-', '\u{e9}'] {
        assert!(!CharClass::Alphanumeric.accepts(c));
    }
    assert!(CharClass::LineText.accepts('\r'));
    assert!(!CharClass::LineText.accepts('\n'));
    assert!(CharClass::Dash.accepts('-'));
    assert!(!CharClass::Dash.accepts('_'));
    assert!(CharClass::Comma.accepts(','));
    assert!(!CharClass::Comma.accepts('.'));
    assert!(CharClass::Apostrophe.accepts('\''));
    assert!(!CharClass::Apostrophe.accepts('`'));
    for c in [' ', '_', '<', '|', '$', '\n', '%', '\\'] {
        assert!(!CharClass::Syllable.accepts(c));
    }
    for c in ['a', '>', '\t', '\r', '.', '\u{e9}'] {
        assert!(CharClass::Syllable.accepts(c));
    }
    for c in [' ', '|'] {
        assert!(!CharClass::VerseMarker.accepts(c));
    }
    for c in ['1', '.', '>', '\n', '_'] {
        assert!(CharClass::VerseMarker.accepts(c));
    }
}
