//! The rules for verse lyrics.
use crate::ast::{LyricsChunkView, LyricsMeasureView, LyricsTreeView};
use crate::chars::{at, lemma_run_within, run_len, CharClass};
use crate::grammar::Outcome;
use crate::input::ErrorKind;
use crate::voice::closing_bar;
use vstd::prelude::*;

verus! {

/// `baseLyric`: the placeholder `%`, or a run of syllable characters, which
/// `$` and another `baseLyric` may follow as the rest of the same word;
/// either may be followed by `\`, which marks a line break.
pub open spec fn base_lyric(s: Seq<char>, i: int) -> Outcome<LyricsChunkView>
    decreases s.len() - i,
{
    let run = run_len(s, i, CharClass::Syllable);
    let text = LyricsChunkView::String(s.subrange(i, i + run));
    let plain = if at(s, i, '%') {
        Outcome::Match { value: LyricsChunkView::Placeholder, len: 1 }
    } else if run == 0 {
        Outcome::Fail { kind: ErrorKind::LyricsSyntax, at: i }
    } else if at(s, i + run, '$') {
        match base_lyric(s, i + run + 1) {
            Outcome::Match { value, len } => Outcome::Match {
                value: LyricsChunkView::Split(Box::new(text), Box::new(value)),
                len: run + 1 + len,
            },
            Outcome::Fail { .. } => Outcome::Match { value: text, len: run },
        }
    } else {
        Outcome::Match { value: text, len: run }
    };
    match plain {
        Outcome::Match { value, len } => if at(s, i + len, '\\') {
            Outcome::Match { value: LyricsChunkView::NewLineSuffixed(Box::new(value)), len: len + 1 }
        } else {
            plain
        },
        Outcome::Fail { .. } => plain,
    }
}

/// `lyricsChunk`: optional blanks, a `baseLyric`, optionally a space (a new
/// word) or an underscore (a tie) and another chunk, and optional blanks. A
/// space or underscore that no chunk follows is left unread.
pub open spec fn lyrics_chunk(s: Seq<char>, i: int) -> Outcome<LyricsChunkView>
    decreases s.len() - i,
{
    let lead = run_len(s, i, CharClass::Space);
    match base_lyric(s, i + lead) {
        Outcome::Match { value: lhs, len } => {
            let p = i + lead + len;
            let (value, more): (LyricsChunkView, nat) = if at(s, p, '_') {
                match lyrics_chunk(s, p + 1) {
                    Outcome::Match { value: rhs, len: rest } => (
                        LyricsChunkView::Concat(Box::new(lhs), Box::new(rhs)),
                        1 + rest,
                    ),
                    Outcome::Fail { .. } => (lhs, 0),
                }
            } else if at(s, p, ' ') {
                match lyrics_chunk(s, p + 1) {
                    Outcome::Match { value: rhs, len: rest } => (
                        LyricsChunkView::Space(Box::new(lhs), Box::new(rhs)),
                        1 + rest,
                    ),
                    Outcome::Fail { .. } => (lhs, 0),
                }
            } else {
                (lhs, 0)
            };
            Outcome::Match {
                value,
                len: lead + len + more + run_len(s, p + more, CharClass::Space),
            }
        },
        Outcome::Fail { kind, at } => Outcome::Fail { kind, at },
    }
}

/// The number of characters of the mark that joins two bars of lyrics at
/// index `i`: 1 for `|`, 3 for `<|>`, 0 where neither stands there.
pub open spec fn bar_join(s: Seq<char>, i: int) -> nat {
    if at(s, i, '|') {
        1
    } else if at(s, i, '<') && at(s, i + 1, '|') && at(s, i + 2, '>') {
        3
    } else {
        0
    }
}

/// `lyricsMeasure`: a chunk, optionally `|` (the next bar) or `<|>` (a tie
/// across the bar line) and another `lyricsMeasure`. A mark that no chunk
/// follows is left unread.
pub open spec fn lyrics_measure(s: Seq<char>, i: int) -> Outcome<LyricsMeasureView>
    decreases s.len() - i,
{
    match lyrics_chunk(s, i) {
        Outcome::Match { value, len } => {
            let lhs = LyricsMeasureView::Chunk(value);
            let sep = bar_join(s, i + len);
            if sep == 0 {
                Outcome::Match { value: lhs, len }
            } else {
                match lyrics_measure(s, i + len + sep) {
                    Outcome::Match { value: rhs, len: rest } => Outcome::Match {
                        value: if sep == 1 {
                            LyricsMeasureView::Join(Box::new(lhs), Box::new(rhs))
                        } else {
                            LyricsMeasureView::Concat(Box::new(lhs), Box::new(rhs))
                        },
                        len: len + sep + rest,
                    },
                    Outcome::Fail { .. } => Outcome::Match { value: lhs, len },
                }
            }
        },
        Outcome::Fail { kind, at } => Outcome::Fail { kind, at },
    }
}

/// `lyricsTree`: a verse marker, which is a run of characters other than
/// space and `|`, then a `lyricsMeasure` and an optional closing bar `||`
/// or `|`.
#[verifier::opaque]
pub open spec fn lyrics_tree(s: Seq<char>, i: int) -> Outcome<LyricsTreeView> {
    let marker = run_len(s, i, CharClass::VerseMarker);
    if marker == 0 {
        Outcome::Fail { kind: ErrorKind::LyricsSyntax, at: i }
    } else {
        match lyrics_measure(s, i + marker) {
            Outcome::Match { value, len } => Outcome::Match {
                value: LyricsTreeView { prefix: s.subrange(i, i + marker), root: value },
                len: marker + len + closing_bar(s, i + marker + len),
            },
            Outcome::Fail { kind, at } => Outcome::Fail { kind, at },
        }
    }
}

/// A `baseLyric` that matches lies within the text.
pub proof fn lemma_base_lyric_within(s: Seq<char>, i: int)
    ensures
        base_lyric(s, i) is Match ==> 0 <= i && i + base_lyric(s, i)->len <= s.len(),
    decreases s.len() - i,
{
    let run = run_len(s, i, CharClass::Syllable);
    if run > 0 {
        lemma_run_within(s, i, CharClass::Syllable);
        if at(s, i + run, '$') {
            lemma_base_lyric_within(s, i + run + 1);
        }
    }
}

/// A chunk that matches lies within the text.
pub proof fn lemma_lyrics_chunk_within(s: Seq<char>, i: int)
    ensures
        lyrics_chunk(s, i) is Match ==> 0 <= i && i + lyrics_chunk(s, i)->len <= s.len(),
    decreases s.len() - i,
{
    let lead = run_len(s, i, CharClass::Space);
    if lead > 0 {
        lemma_run_within(s, i, CharClass::Space);
    }
    lemma_base_lyric_within(s, i + lead);
    if let Outcome::Match { value, len } = base_lyric(s, i + lead) {
        let p = i + lead + len;
        lemma_run_within(s, p, CharClass::Space);
        if at(s, p, '_') || at(s, p, ' ') {
            lemma_lyrics_chunk_within(s, p + 1);
            if let Outcome::Match { value, len: rest } = lyrics_chunk(s, p + 1) {
                lemma_run_within(s, p + 1 + rest, CharClass::Space);
            }
        }
    }
}

/// A `lyricsMeasure` that matches lies within the text.
pub proof fn lemma_lyrics_measure_within(s: Seq<char>, i: int)
    ensures
        lyrics_measure(s, i) is Match ==> 0 <= i && i + lyrics_measure(s, i)->len <= s.len(),
    decreases s.len() - i,
{
    lemma_lyrics_chunk_within(s, i);
    if let Outcome::Match { value, len } = lyrics_chunk(s, i) {
        if bar_join(s, i + len) > 0 {
            lemma_lyrics_measure_within(s, i + len + bar_join(s, i + len));
        }
    }
}

/// A verse that matches lies within the text.
pub proof fn lemma_lyrics_tree_within(s: Seq<char>, i: int)
    ensures
        lyrics_tree(s, i) is Match ==> 0 <= i && i + lyrics_tree(s, i)->len <= s.len(),
{
    reveal(lyrics_tree);
    lemma_lyrics_measure_within(s, i + run_len(s, i, CharClass::VerseMarker));
}

/// The verses that follow one at index `i`, each behind one or more blanks
/// or line breaks, and the number of characters they take. Blanks that no
/// verse follows are left unread.
pub open spec fn more_trees(s: Seq<char>, i: int) -> (Seq<LyricsTreeView>, nat)
    decreases s.len() - i,
{
    let gap = run_len(s, i, CharClass::Multispace);
    if gap >= 1 {
        proof {
            lemma_lyrics_tree_within(s, i + gap);
        }
        match lyrics_tree(s, i + gap) {
            Outcome::Match { value, len } => {
                let (rest, more) = more_trees(s, i + gap + len);
                (seq![value] + rest, gap + len + more)
            },
            Outcome::Fail { .. } => (Seq::empty(), 0),
        }
    } else {
        (Seq::empty(), 0)
    }
}

/// `lyricsBlock`: the verses of one voice: optional blanks and line breaks,
/// then one or more verses with blanks or line breaks between each two.
#[verifier::opaque]
pub open spec fn lyrics_block(s: Seq<char>, i: int) -> Outcome<Seq<LyricsTreeView>> {
    let lead = run_len(s, i, CharClass::Multispace);
    match lyrics_tree(s, i + lead) {
        Outcome::Match { value, len } => {
            let (rest, more) = more_trees(s, i + lead + len);
            Outcome::Match { value: seq![value] + rest, len: lead + len + more }
        },
        Outcome::Fail { kind, at } => Outcome::Fail { kind, at },
    }
}

/// The verses that follow one inside the text end inside it.
pub proof fn lemma_more_trees_within(s: Seq<char>, i: int)
    requires
        0 <= i <= s.len(),
    ensures
        i + more_trees(s, i).1 <= s.len(),
    decreases s.len() - i,
{
    let gap = run_len(s, i, CharClass::Multispace);
    if gap >= 1 {
        lemma_run_within(s, i, CharClass::Multispace);
        lemma_lyrics_tree_within(s, i + gap);
        if let Outcome::Match { value, len } = lyrics_tree(s, i + gap) {
            lemma_more_trees_within(s, i + gap + len);
        }
    }
}

/// The verses of a voice, where they match, lie within the text.
pub proof fn lemma_lyrics_block_within(s: Seq<char>, i: int)
    ensures
        lyrics_block(s, i) is Match ==> 0 <= i && i + lyrics_block(s, i)->len <= s.len(),
{
    reveal(lyrics_block);
    let lead = run_len(s, i, CharClass::Multispace);
    if lead > 0 {
        lemma_run_within(s, i, CharClass::Multispace);
    }
    lemma_lyrics_tree_within(s, i + lead);
    if let Outcome::Match { value, len } = lyrics_tree(s, i + lead) {
        lemma_more_trees_within(s, i + lead + len);
    }
}

} // verus!
