//! The document tree of a score, with the view of each type that carries text.
use crate::header::{Entry, Header};
use vstd::prelude::*;

verus! {

/// The loudness named by a level mark.
#[derive(Debug, PartialEq, Eq, Clone, Copy)]
pub enum DynamicLevel {
    FFF,
    FF,
    F,
    MF,
    MP,
    P,
    PP,
    PPP,
}

/// An expression mark anchored to beat positions.
///
/// Positions are structural beat indices; they are not held against the
/// number of beats a staff really has.
#[derive(Debug, PartialEq, Eq, Clone, Copy)]
pub enum Dynamic {
    DC { pos: u16 },
    /// Reserved: no rule of the notation produces it yet.
    DS { pos: u16 },
    /// Reserved: no rule of the notation produces it yet.
    Sign { pos: u16 },
    Accent { pos: u16 },
    Crescendo { start: u16, end: u16 },
    Decrescendo { start: u16, end: u16 },
    Level { pos: u16, kind: DynamicLevel },
}

/// One of the seven movable-do degrees.
#[derive(Debug, PartialEq, Eq, Clone, Copy)]
pub enum BaseNote {
    D,
    R,
    M,
    F,
    S,
    L,
    T,
}

/// The chromatic inflection of a degree.
#[derive(Debug, PartialEq, Eq, Clone, Copy)]
pub enum NoteVariant {
    Base,
    Raised,
    Lowered,
}

/// The octave of a note, as a number of steps above or below the base octave.
#[derive(Debug, PartialEq, Eq, Clone, Copy)]
pub enum Octave {
    Base,
    Up(u8),
    Down(u8),
}

/// A pitch: degree, inflection and octave.
#[derive(Debug, PartialEq, Eq, Clone, Copy)]
pub struct Note {
    pub base: BaseNote,
    pub variant: NoteVariant,
    pub octave: Octave,
}

impl Note {
    /// The same note, `value` octaves above the base octave.
    pub fn with_octave_up(self, value: u8) -> (note: Note)
        ensures
            note == (Note { base: self.base, variant: self.variant, octave: Octave::Up(value) }),
    {
        let mut note = self;
        note.octave = Octave::Up(value);
        note
    }

    /// The same note, `value` octaves below the base octave.
    pub fn with_octave_down(self, value: u8) -> (note: Note)
        ensures
            note == (Note { base: self.base, variant: self.variant, octave: Octave::Down(value) }),
    {
        let mut note = self;
        note.octave = Octave::Down(value);
        note
    }
}

/// The nesting level of a beat division. It carries no duration.
#[derive(Debug, PartialEq, Eq, Clone, Copy)]
pub enum BeatDivisionKind {
    Normal,
    Half,
    Quarter,
}

/// Two rhythmic operands joined at one nesting level.
#[derive(Debug, PartialEq, Eq)]
pub struct BeatDivision {
    pub lhs: Box<Measure>,
    pub rhs: Box<Measure>,
    pub kind: BeatDivisionKind,
}

impl BeatDivision {
    /// Joins `lhs` and `rhs` at the level `kind`.
    pub fn new(kind: BeatDivisionKind, lhs: Measure, rhs: Measure) -> (division: BeatDivision)
        ensures
            division == (BeatDivision { lhs: Box::new(lhs), rhs: Box::new(rhs), kind }),
    {
        BeatDivision { lhs: Box::new(lhs), rhs: Box::new(rhs), kind }
    }
}

/// The rhythmic content of one bar of one voice.
#[derive(Debug, PartialEq, Eq)]
pub enum Measure {
    /// A rest.
    EmptyNote,
    Note(Note),
    BeatDivision(BeatDivision),
    /// A group drawn with a connecting underline.
    UnderlinedMeasure(Box<Measure>),
    /// Reserved: no rule of the notation produces it yet.
    Repeated(Box<Measure>),
    /// Reserved: no rule of the notation produces it yet.
    RepeatStart(Box<Measure>),
    /// Reserved: no rule of the notation produces it yet.
    RepeatEnd(Box<Measure>),
}

/// Types without text are their own mathematical model.
impl DeepView for DynamicLevel {
    type V = DynamicLevel;

    open spec fn deep_view(&self) -> DynamicLevel {
        *self
    }
}

impl DeepView for Dynamic {
    type V = Dynamic;

    open spec fn deep_view(&self) -> Dynamic {
        *self
    }
}

impl DeepView for BaseNote {
    type V = BaseNote;

    open spec fn deep_view(&self) -> BaseNote {
        *self
    }
}

impl DeepView for NoteVariant {
    type V = NoteVariant;

    open spec fn deep_view(&self) -> NoteVariant {
        *self
    }
}

impl DeepView for Octave {
    type V = Octave;

    open spec fn deep_view(&self) -> Octave {
        *self
    }
}

impl DeepView for Note {
    type V = Note;

    open spec fn deep_view(&self) -> Note {
        *self
    }
}

impl DeepView for Measure {
    type V = Measure;

    open spec fn deep_view(&self) -> Measure {
        *self
    }
}

/// The syllables sung to one bar, with the marks that join them.
#[derive(Debug, PartialEq, Eq)]
pub enum LyricsChunk {
    /// Stands for the syllable sung before.
    Placeholder,
    String(String),
    /// A syllable after which the line breaks.
    NewLineSuffixed(Box<LyricsChunk>),
    /// Two parts of one word, broken between syllables.
    Split(Box<LyricsChunk>, Box<LyricsChunk>),
    /// Two words.
    Space(Box<LyricsChunk>, Box<LyricsChunk>),
    /// Two syllables tied or elided into one.
    Concat(Box<LyricsChunk>, Box<LyricsChunk>),
}

/// The mathematical model of a [`LyricsChunk`].
pub enum LyricsChunkView {
    Placeholder,
    String(Seq<char>),
    NewLineSuffixed(Box<LyricsChunkView>),
    Split(Box<LyricsChunkView>, Box<LyricsChunkView>),
    Space(Box<LyricsChunkView>, Box<LyricsChunkView>),
    Concat(Box<LyricsChunkView>, Box<LyricsChunkView>),
}

/// The model of a chunk: the same tree, with each text as its characters.
pub open spec fn chunk_view(chunk: LyricsChunk) -> LyricsChunkView
    decreases chunk,
{
    match chunk {
        LyricsChunk::Placeholder => LyricsChunkView::Placeholder,
        LyricsChunk::String(text) => LyricsChunkView::String(text@),
        LyricsChunk::NewLineSuffixed(inner) => LyricsChunkView::NewLineSuffixed(
            Box::new(chunk_view(*inner)),
        ),
        LyricsChunk::Split(lhs, rhs) => LyricsChunkView::Split(
            Box::new(chunk_view(*lhs)),
            Box::new(chunk_view(*rhs)),
        ),
        LyricsChunk::Space(lhs, rhs) => LyricsChunkView::Space(
            Box::new(chunk_view(*lhs)),
            Box::new(chunk_view(*rhs)),
        ),
        LyricsChunk::Concat(lhs, rhs) => LyricsChunkView::Concat(
            Box::new(chunk_view(*lhs)),
            Box::new(chunk_view(*rhs)),
        ),
    }
}

impl DeepView for LyricsChunk {
    type V = LyricsChunkView;

    open spec fn deep_view(&self) -> LyricsChunkView {
        chunk_view(*self)
    }
}

/// The lyrics of a run of bars.
#[derive(Debug, PartialEq, Eq)]
pub enum LyricsMeasure {
    Chunk(LyricsChunk),
    /// What is sung to one bar, then what follows behind the bar line.
    Join(Box<LyricsMeasure>, Box<LyricsMeasure>),
    /// The same, with the last syllable tied across the bar line.
    Concat(Box<LyricsMeasure>, Box<LyricsMeasure>),
}

/// The mathematical model of a [`LyricsMeasure`].
pub enum LyricsMeasureView {
    Chunk(LyricsChunkView),
    Join(Box<LyricsMeasureView>, Box<LyricsMeasureView>),
    Concat(Box<LyricsMeasureView>, Box<LyricsMeasureView>),
}

/// The model of a run of bars of lyrics: the same tree over the models of
/// its chunks.
pub open spec fn lyrics_measure_view(measure: LyricsMeasure) -> LyricsMeasureView
    decreases measure,
{
    match measure {
        LyricsMeasure::Chunk(chunk) => LyricsMeasureView::Chunk(chunk_view(chunk)),
        LyricsMeasure::Join(lhs, rhs) => LyricsMeasureView::Join(
            Box::new(lyrics_measure_view(*lhs)),
            Box::new(lyrics_measure_view(*rhs)),
        ),
        LyricsMeasure::Concat(lhs, rhs) => LyricsMeasureView::Concat(
            Box::new(lyrics_measure_view(*lhs)),
            Box::new(lyrics_measure_view(*rhs)),
        ),
    }
}

impl DeepView for LyricsMeasure {
    type V = LyricsMeasureView;

    open spec fn deep_view(&self) -> LyricsMeasureView {
        lyrics_measure_view(*self)
    }
}

/// One verse: its marker, such as `1.` or `>`, and its lyrics.
#[derive(Debug, PartialEq, Eq)]
pub struct LyricsTree {
    pub prefix: String,
    pub root: LyricsMeasure,
}

/// The mathematical model of a [`LyricsTree`].
pub struct LyricsTreeView {
    pub prefix: Seq<char>,
    pub root: LyricsMeasureView,
}

impl DeepView for LyricsTree {
    type V = LyricsTreeView;

    open spec fn deep_view(&self) -> LyricsTreeView {
        LyricsTreeView { prefix: self.prefix@, root: self.root.deep_view() }
    }
}

/// The verses of one voice. The voices of a staff are numbered from 0 to 3.
#[derive(Debug, PartialEq, Eq)]
pub struct IndexedLyricsSet {
    pub index: u8,
    pub lyrics: Vec<LyricsTree>,
}

/// The mathematical model of an [`IndexedLyricsSet`].
pub struct IndexedLyricsSetView {
    pub index: u8,
    pub lyrics: Seq<LyricsTreeView>,
}

impl DeepView for IndexedLyricsSet {
    type V = IndexedLyricsSetView;

    open spec fn deep_view(&self) -> IndexedLyricsSetView {
        IndexedLyricsSetView { index: self.index, lyrics: self.lyrics.deep_view() }
    }
}

/// One system of a score: its dynamics, its bars, each with the four
/// voices side by side, and the verses of the voices that have any.
#[derive(Debug, PartialEq, Eq)]
pub struct Staff {
    pub dynamics: Vec<Dynamic>,
    pub measures: Vec<[Measure; 4]>,
    pub lyrics: Vec<IndexedLyricsSet>,
}

/// The mathematical model of a [`Staff`]. Each element of `measures` has
/// four elements, one per voice.
pub struct StaffView {
    pub dynamics: Seq<Dynamic>,
    pub measures: Seq<Seq<Measure>>,
    pub lyrics: Seq<IndexedLyricsSetView>,
}

impl DeepView for Staff {
    type V = StaffView;

    open spec fn deep_view(&self) -> StaffView {
        StaffView {
            dynamics: self.dynamics.deep_view(),
            measures: self.measures.deep_view(),
            lyrics: self.lyrics.deep_view(),
        }
    }
}

/// A staff as it is read: each voice's bars, and each voice's verses if it
/// has any, voice by voice.
#[derive(Debug, PartialEq, Eq)]
pub struct StaffPartial {
    pub dynamics: Vec<Dynamic>,
    pub voice1: Vec<Measure>,
    pub lyrics1: Option<Vec<LyricsTree>>,
    pub voice2: Vec<Measure>,
    pub lyrics2: Option<Vec<LyricsTree>>,
    pub voice3: Vec<Measure>,
    pub lyrics3: Option<Vec<LyricsTree>>,
    pub voice4: Vec<Measure>,
    pub lyrics4: Option<Vec<LyricsTree>>,
}

/// The mathematical model of a [`StaffPartial`].
pub struct StaffPartialView {
    pub dynamics: Seq<Dynamic>,
    pub voice1: Seq<Measure>,
    pub lyrics1: Option<Seq<LyricsTreeView>>,
    pub voice2: Seq<Measure>,
    pub lyrics2: Option<Seq<LyricsTreeView>>,
    pub voice3: Seq<Measure>,
    pub lyrics3: Option<Seq<LyricsTreeView>>,
    pub voice4: Seq<Measure>,
    pub lyrics4: Option<Seq<LyricsTreeView>>,
}

impl DeepView for StaffPartial {
    type V = StaffPartialView;

    open spec fn deep_view(&self) -> StaffPartialView {
        StaffPartialView {
            dynamics: self.dynamics.deep_view(),
            voice1: self.voice1.deep_view(),
            lyrics1: self.lyrics1.deep_view(),
            voice2: self.voice2.deep_view(),
            lyrics2: self.lyrics2.deep_view(),
            voice3: self.voice3.deep_view(),
            lyrics3: self.lyrics3.deep_view(),
            voice4: self.voice4.deep_view(),
            lyrics4: self.lyrics4.deep_view(),
        }
    }
}

/// A whole score: its header and its staves.
#[derive(Debug, PartialEq, Eq)]
pub struct Solfa {
    pub header: Header,
    pub staffs: Vec<Staff>,
}

/// The mathematical model of a [`Solfa`].
pub struct SolfaView {
    pub header: Seq<Entry>,
    pub staffs: Seq<StaffView>,
}

impl DeepView for Solfa {
    type V = SolfaView;

    open spec fn deep_view(&self) -> SolfaView {
        SolfaView { header: self.header.deep_view(), staffs: self.staffs.deep_view() }
    }
}

/// The smallest of four lengths.
pub open spec fn shortest(a: nat, b: nat, c: nat, d: nat) -> nat {
    let ab = if a <= b {
        a
    } else {
        b
    };
    let cd = if c <= d {
        c
    } else {
        d
    };
    if ab <= cd {
        ab
    } else {
        cd
    }
}

/// The bars of four voices side by side: the bar at `k` holds what each
/// voice has at `k`, first voice first. There are as many bars as the
/// shortest voice has; what the longer voices have beyond is dropped.
pub open spec fn columns(
    voice1: Seq<Measure>,
    voice2: Seq<Measure>,
    voice3: Seq<Measure>,
    voice4: Seq<Measure>,
) -> Seq<Seq<Measure>> {
    Seq::new(
        shortest(voice1.len(), voice2.len(), voice3.len(), voice4.len()),
        |k: int| seq![voice1[k], voice2[k], voice3[k], voice4[k]],
    )
}

/// The verses of the voice `index` as a set of their own, where the voice
/// has verses.
pub open spec fn verses(index: u8, lyrics: Option<Seq<LyricsTreeView>>) -> Seq<
    IndexedLyricsSetView,
> {
    match lyrics {
        Some(trees) => seq![IndexedLyricsSetView { index, lyrics: trees }],
        None => Seq::empty(),
    }
}

/// The staff that is put together from what was read voice by voice.
pub open spec fn assemble(partial: StaffPartialView) -> StaffView {
    StaffView {
        dynamics: partial.dynamics,
        measures: columns(partial.voice1, partial.voice2, partial.voice3, partial.voice4),
        lyrics: verses(0, partial.lyrics1) + verses(1, partial.lyrics2) + verses(
            2,
            partial.lyrics3,
        ) + verses(3, partial.lyrics4),
    }
}

/// Puts the bars of four voices side by side, as many as the shortest
/// voice has.
fn zip_voices(
    voice1: Vec<Measure>,
    voice2: Vec<Measure>,
    voice3: Vec<Measure>,
    voice4: Vec<Measure>,
) -> (bars: Vec<[Measure; 4]>)
    ensures
        bars.deep_view() == columns(
            voice1.deep_view(),
            voice2.deep_view(),
            voice3.deep_view(),
            voice4.deep_view(),
        ),
{
    let ghost all1 = voice1@;
    let ghost all2 = voice2@;
    let ghost all3 = voice3@;
    let ghost all4 = voice4@;
    let mut voice1 = voice1;
    let mut voice2 = voice2;
    let mut voice3 = voice3;
    let mut voice4 = voice4;
    let mut n = voice1.len();
    if voice2.len() < n {
        n = voice2.len();
    }
    if voice3.len() < n {
        n = voice3.len();
    }
    if voice4.len() < n {
        n = voice4.len();
    }
    voice1.truncate(n);
    voice2.truncate(n);
    voice3.truncate(n);
    voice4.truncate(n);
    let mut reversed: Vec<[Measure; 4]> = Vec::new();
    while voice1.len() > 0
        invariant
            n == shortest(all1.len(), all2.len(), all3.len(), all4.len()),
            voice1@ == all1.take(voice1@.len() as int),
            voice2@ == all2.take(voice1@.len() as int),
            voice3@ == all3.take(voice1@.len() as int),
            voice4@ == all4.take(voice1@.len() as int),
            voice1@.len() <= n,
            reversed@.len() == n - voice1@.len(),
            forall|j: int|
                0 <= j < reversed@.len() ==> (#[trigger] reversed@[j])@ == seq![
                    all1[n - 1 - j],
                    all2[n - 1 - j],
                    all3[n - 1 - j],
                    all4[n - 1 - j],
                ],
        decreases voice1@.len(),
    {
        let bar1 = voice1.pop().unwrap();
        let bar2 = voice2.pop().unwrap();
        let bar3 = voice3.pop().unwrap();
        let bar4 = voice4.pop().unwrap();
        let bar = [bar1, bar2, bar3, bar4];
        assert(bar@ =~= seq![bar1, bar2, bar3, bar4]);
        reversed.push(bar);
    }
    let ghost backwards = reversed@;
    let mut bars: Vec<[Measure; 4]> = Vec::new();
    while reversed.len() > 0
        invariant
            backwards.len() == n,
            reversed@ == backwards.take(reversed@.len() as int),
            reversed@.len() <= n,
            bars@.len() == n - reversed@.len(),
            forall|j: int| 0 <= j < bars@.len() ==> #[trigger] bars@[j] == backwards[n - 1 - j],
        decreases reversed@.len(),
    {
        let bar = reversed.pop().unwrap();
        bars.push(bar);
    }
    assert(bars.deep_view() =~= columns(all1, all2, all3, all4)) by {
        assert forall|k: int| 0 <= k < n implies #[trigger] bars.deep_view()[k] == seq![
            all1[k],
            all2[k],
            all3[k],
            all4[k],
        ] by {
            assert(bars@[k] == backwards[n - 1 - k]);
            assert(bars@[k]@ == seq![all1[k], all2[k], all3[k], all4[k]]);
            assert(bars@[k].deep_view() =~= bars@[k]@);
        }
    }
    assert(voice1.deep_view() =~= voice1@);
    bars
}

/// Appends the verses of the voice `index`, if it has any, to the verse
/// sets of a staff.
fn push_verses(sets: &mut Vec<IndexedLyricsSet>, index: u8, lyrics: Option<Vec<LyricsTree>>)
    ensures
        final(sets).deep_view() == old(sets).deep_view() + verses(index, lyrics.deep_view()),
{
    let ghost before = sets.deep_view();
    match lyrics {
        Some(trees) => {
            let ghost added = trees.deep_view();
            sets.push(IndexedLyricsSet::from((index, trees)));
            assert(sets.deep_view() =~= before + seq![
                IndexedLyricsSetView { index, lyrics: added },
            ]);
        },
        None => {
            assert(sets.deep_view() =~= before + Seq::<IndexedLyricsSetView>::empty());
        },
    }
}

impl From<(u8, Vec<LyricsTree>)> for IndexedLyricsSet {
    /// The verses `value.1` as those of the voice `value.0`.
    fn from(value: (u8, Vec<LyricsTree>)) -> (set: IndexedLyricsSet) {
        IndexedLyricsSet { index: value.0, lyrics: value.1 }
    }
}

impl vstd::std_specs::convert::FromSpecImpl<(u8, Vec<LyricsTree>)> for IndexedLyricsSet {
    open spec fn obeys_from_spec() -> bool {
        true
    }

    open spec fn from_spec(value: (u8, Vec<LyricsTree>)) -> IndexedLyricsSet {
        IndexedLyricsSet { index: value.0, lyrics: value.1 }
    }
}

impl From<StaffPartial> for Staff {
    /// Puts a staff together from what was read voice by voice: the bars
    /// of the four voices side by side, as many as the shortest voice has,
    /// and the verses of each voice that has any under the voice's number.
    fn from(value: StaffPartial) -> (staff: Staff)
        ensures
            staff.deep_view() == assemble(value.deep_view()),
    {
        let measures = zip_voices(value.voice1, value.voice2, value.voice3, value.voice4);
        let mut lyrics: Vec<IndexedLyricsSet> = Vec::new();
        assert(lyrics.deep_view() =~= Seq::<IndexedLyricsSetView>::empty());
        push_verses(&mut lyrics, 0, value.lyrics1);
        push_verses(&mut lyrics, 1, value.lyrics2);
        push_verses(&mut lyrics, 2, value.lyrics3);
        push_verses(&mut lyrics, 3, value.lyrics4);
        Staff { dynamics: value.dynamics, lyrics, measures }
    }
}

impl vstd::std_specs::convert::FromSpecImpl<StaffPartial> for Staff {
    /// Two staves with the same view need not be the same value, so what
    /// `from` returns is stated by its own contract, over the views.
    open spec fn obeys_from_spec() -> bool {
        false
    }

    open spec fn from_spec(value: StaffPartial) -> Staff {
        choose|staff: Staff| staff.deep_view() == assemble(value.deep_view())
    }
}

} // verus!
