//! Character classes of the notation, and runs of characters of one class.
use vstd::prelude::*;

verus! {

/// A set of characters that a rule of the notation takes a run of.
#[derive(Debug, PartialEq, Eq, Clone, Copy)]
pub enum CharClass {
    /// A space or a tab.
    Space,
    /// A space, a tab, a carriage return or a line feed.
    Multispace,
    /// An ASCII decimal digit.
    Digit,
    /// An ASCII letter or decimal digit.
    Alphanumeric,
    /// Anything but a line feed.
    LineText,
    /// The character `-`.
    Dash,
    /// The character `,`.
    Comma,
    /// The character `'`.
    Apostrophe,
    /// Anything that may stand in a syllable: all but space, `_`, `<`, `|`,
    /// `$`, line feed, `%` and `\`.
    Syllable,
    /// Anything that may stand in a verse marker: all but space and `|`.
    VerseMarker,
}

impl CharClass {
    /// Whether `c` belongs to the class.
    pub open spec fn contains(self, c: char) -> bool {
        match self {
            CharClass::Space => c == ' ' || c == '\t',
            CharClass::Multispace => c == ' ' || c == '\t' || c == '\r' || c == '\n',
            CharClass::Digit => '0' <= c <= '9',
            CharClass::Alphanumeric => 'a' <= c <= 'z' || 'A' <= c <= 'Z' || '0' <= c <= '9',
            CharClass::LineText => c != '\n',
            CharClass::Dash => c == '-',
            CharClass::Comma => c == ',',
            CharClass::Apostrophe => c == '\'',
            CharClass::Syllable => !(c == ' ' || c == '_' || c == '<' || c == '|' || c == '$'
                || c == '\n' || c == '%' || c == '\\'),
            CharClass::VerseMarker => !(c == ' ' || c == '|'),
        }
    }

    /// Whether `c` belongs to the class.
    pub fn accepts(self, c: char) -> (member: bool)
        ensures
            member == self.contains(c),
    {
        match self {
            CharClass::Space => c == ' ' || c == '\t',
            CharClass::Multispace => c == ' ' || c == '\t' || c == '\r' || c == '\n',
            CharClass::Digit => '0' <= c && c <= '9',
            CharClass::Alphanumeric => ('a' <= c && c <= 'z') || ('A' <= c && c <= 'Z') || ('0'
                <= c && c <= '9'),
            CharClass::LineText => c != '\n',
            CharClass::Dash => c == '-',
            CharClass::Comma => c == ',',
            CharClass::Apostrophe => c == '\'',
            CharClass::Syllable => !(c == ' ' || c == '_' || c == '<' || c == '|' || c == '$'
                || c == '\n' || c == '%' || c == '\\'),
            CharClass::VerseMarker => !(c == ' ' || c == '|'),
        }
    }
}

/// Whether the character of `s` at index `i` exists and is `c`.
pub open spec fn at(s: Seq<char>, i: int, c: char) -> bool {
    0 <= i < s.len() && s[i] == c
}

/// The length of the longest run of characters of `class` that starts at
/// index `i` of `s`.
pub open spec fn run_len(s: Seq<char>, i: int, class: CharClass) -> nat
    decreases s.len() - i,
{
    if 0 <= i < s.len() && class.contains(s[i]) {
        1 + run_len(s, i + 1, class)
    } else {
        0
    }
}

/// A run that starts inside the text ends inside it.
pub proof fn lemma_run_within(s: Seq<char>, i: int, class: CharClass)
    requires
        0 <= i <= s.len(),
    ensures
        i + run_len(s, i, class) <= s.len(),
    decreases s.len() - i,
{
    if i < s.len() && class.contains(s[i]) {
        lemma_run_within(s, i + 1, class);
    }
}

/// A run of `n` characters of the class, not followed by another one, is the
/// longest run.
pub proof fn lemma_run_is(s: Seq<char>, i: int, class: CharClass, n: nat)
    requires
        0 <= i,
        i + n <= s.len(),
        forall|k: int| i <= k < i + n ==> class.contains(#[trigger] s[k]),
        i + n == s.len() || !class.contains(s[i + n]),
    ensures
        run_len(s, i, class) == n,
    decreases n,
{
    if n > 0 {
        lemma_run_is(s, i + 1, class, (n - 1) as nat);
    }
}

/// The number that the `len` decimal digits of `s` from index `from` spell.
pub open spec fn decimal(s: Seq<char>, from: int, len: nat) -> nat
    decreases len,
{
    if len == 0 {
        0
    } else {
        decimal(s, from, (len - 1) as nat) * 10 + (s[from + len - 1] as nat - '0' as nat) as nat
    }
}

/// Every character of a run belongs to the class.
pub proof fn lemma_run_all(s: Seq<char>, i: int, class: CharClass, k: int)
    requires
        i <= k < i + run_len(s, i, class),
    ensures
        0 <= k < s.len(),
        class.contains(s[k]),
    decreases k - i,
{
    if k > i {
        lemma_run_all(s, i + 1, class, k);
    }
}

/// The number spelled by more digits is not smaller.
pub proof fn lemma_decimal_grows(s: Seq<char>, from: int, shorter: nat, longer: nat)
    requires
        shorter <= longer,
    ensures
        decimal(s, from, shorter) <= decimal(s, from, longer),
    decreases longer,
{
    if shorter < longer {
        lemma_decimal_grows(s, from, shorter, (longer - 1) as nat);
    }
}

} // verus!
