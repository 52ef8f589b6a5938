//! The cursor that the parsers read from, and the error they report.
use crate::chars::{at, decimal, run_len, CharClass};
use vstd::prelude::*;

verus! {

/// The reason a rule of the notation could not be matched.
#[derive(Debug, PartialEq, Eq, Clone, Copy)]
pub enum ErrorKind {
    /// A line is present in the header block that is not of the shape
    /// `key: value`.
    MetadataSyntax,
    /// The line `---` that closes the header is missing.
    MissingSeparator,
    /// A malformed note or rhythm token, an unclosed underline group or a
    /// missing bar.
    VoiceSyntax,
    /// An unrecognised dynamics mark or a malformed position.
    DynamicsSyntax,
    /// A malformed lyrics syllable or verse.
    LyricsSyntax,
    /// A run of digits that names a number beyond sixteen bits.
    NumberTooLarge,
    /// Text is left behind what was parsed, where the whole text had to be
    /// taken.
    TrailingText,
}

/// A failed parse: what went wrong and at which character of the text.
#[derive(Debug, PartialEq, Eq, Clone, Copy)]
pub struct ParseError {
    pub kind: ErrorKind,
    /// Index, counted in characters from the start of the text, at which no
    /// alternative of the failing rule could match.
    pub pos: usize,
}

/// `String::push` of the standard library: it appends the character `c` to
/// the end of the string and changes nothing else of it.
pub assume_specification[ std::string::String::push ](s: &mut std::string::String, c: char)
    ensures
        final(s)@ == old(s)@.push(c),
;

/// A text and a position in it.
///
/// A parser reads from the position onwards. When it succeeds it leaves the
/// position behind what it matched; when it fails it leaves it where the
/// failure was found.
pub struct Input {
    pub(crate) text: Vec<char>,
    pub(crate) pos: usize,
}

impl Input {
    #[verifier::type_invariant]
    pub open(crate) spec fn within_text(&self) -> bool {
        self.pos <= self.text@.len()
    }

    /// The whole text, consumed part included.
    pub open(crate) spec fn text(&self) -> Seq<char> {
        self.text@
    }

    /// The number of characters already consumed.
    pub open(crate) spec fn pos(&self) -> int {
        self.pos as int
    }

    /// A cursor at the start of `source`.
    pub fn new(source: &str) -> (input: Input)
        ensures
            input.text() == source@,
            input.pos() == 0,
    {
        let mut text: Vec<char> = Vec::new();
        for c in it: source.chars()
            invariant
                text@ == it.seq().take(it.index() as int),
        {
            text.push(c);
        }
        Input { text, pos: 0 }
    }

    /// The number of characters already consumed.
    pub fn position(&self) -> (pos: usize)
        ensures
            pos == self.pos(),
            pos <= self.text().len() <= usize::MAX,
    {
        proof {
            use_type_invariant(self);
        }
        let _ = self.text.len();
        self.pos
    }

    /// Whether every character has been consumed.
    pub fn is_at_end(&self) -> (end: bool)
        ensures
            end <==> self.pos() == self.text().len(),
    {
        proof {
            use_type_invariant(self);
        }
        self.pos == self.text.len()
    }

    /// The result of a parse that has to take the whole text: `result`
    /// itself where it is an error or where the cursor is at the end; else
    /// an error at the cursor, for the text that is left.
    pub fn complete<T>(&self, result: Result<T, ParseError>) -> (whole: Result<T, ParseError>)
        ensures
            whole == match result {
                Ok(value) => if self.pos() == self.text().len() {
                    Ok(value)
                } else {
                    Err(ParseError { kind: ErrorKind::TrailingText, pos: self.pos() as usize })
                },
                Err(error) => Err(error),
            },
    {
        match result {
            Ok(value) => if self.is_at_end() {
                Ok(value)
            } else {
                Err(ParseError { kind: ErrorKind::TrailingText, pos: self.position() })
            },
            Err(error) => Err(error),
        }
    }

    /// The number of characters in the whole text.
    pub fn len(&self) -> (len: usize)
        ensures
            len == self.text().len(),
    {
        self.text.len()
    }

    /// Whether the character `c` stands `ahead` characters behind the cursor.
    pub fn sees(&self, ahead: usize, c: char) -> (seen: bool)
        ensures
            seen == at(self.text(), self.pos() + ahead, c),
    {
        proof {
            use_type_invariant(self);
        }
        ahead < self.text.len() - self.pos && self.text[self.pos + ahead] == c
    }

    /// The character at the cursor, if the text has not ended there.
    pub fn peek(&self) -> (next: Option<char>)
        ensures
            next == if self.pos() < self.text().len() {
                Some(self.text()[self.pos() as int])
            } else {
                None::<char>
            },
    {
        if self.pos < self.text.len() {
            Some(self.text[self.pos])
        } else {
            None
        }
    }

    /// Moves the cursor to the index `to`.
    pub fn seek(&mut self, to: usize)
        requires
            to <= old(self).text().len(),
        ensures
            final(self).text() == old(self).text(),
            final(self).pos() == to,
    {
        self.pos = to;
    }

    /// Moves the cursor `n` characters on.
    pub fn skip(&mut self, n: usize)
        requires
            old(self).pos() + n <= old(self).text().len(),
        ensures
            final(self).text() == old(self).text(),
            final(self).pos() == old(self).pos() + n,
    {
        let total = self.text.len();
        assert(self.pos + n <= total);
        self.pos = self.pos + n;
    }

    /// The length of the longest run of characters of `class` from the index
    /// `from` on. The cursor stays.
    pub fn run_from(&self, from: usize, class: CharClass) -> (n: usize)
        requires
            from <= self.text().len(),
        ensures
            n == run_len(self.text(), from as int, class),
            from + n <= self.text().len() <= usize::MAX,
    {
        let _ = self.text.len();
        let mut end: usize = from;
        while end < self.text.len() && class.accepts(self.text[end])
            invariant
                from <= end <= self.text@.len(),
                forall|k: int| from <= k < end ==> class.contains(#[trigger] self.text@[k]),
            decreases self.text@.len() - end,
        {
            end = end + 1;
        }
        proof {
            crate::chars::lemma_run_is(self.text@, from as int, class, (end - from) as nat);
        }
        end - from
    }

    /// Moves the cursor over the longest run of characters of `class` and
    /// returns its length.
    pub fn skip_run(&mut self, class: CharClass) -> (n: usize)
        ensures
            final(self).text() == old(self).text(),
            n == run_len(old(self).text(), old(self).pos(), class),
            final(self).pos() == old(self).pos() + n,
            final(self).pos() <= old(self).text().len(),
    {
        proof {
            use_type_invariant(&*self);
        }
        let total = self.text.len();
        let n = self.run_from(self.pos, class);
        assert(self.pos + n <= total);
        self.pos = self.pos + n;
        n
    }

    /// The number that the `len` digits from the index `from` on spell, if
    /// it is at most `max`. The limit `max` is below 2^28, so that the sum
    /// stays within 32 bits.
    pub fn number(&self, from: usize, len: usize, max: u32) -> (value: Option<u32>)
        requires
            from + len <= self.text().len(),
            len <= run_len(self.text(), from as int, CharClass::Digit),
            max < 0x1000_0000,
        ensures
            value == if decimal(self.text(), from as int, len as nat) <= max {
                Some(decimal(self.text(), from as int, len as nat) as u32)
            } else {
                None::<u32>
            },
    {
        let total = self.text.len();
        let mut acc: u32 = 0;
        let mut k: usize = 0;
        while k < len
            invariant
                k <= len,
                total == self.text@.len(),
                from + len <= self.text@.len(),
                len <= run_len(self.text@, from as int, CharClass::Digit),
                max < 0x1000_0000,
                acc == decimal(self.text@, from as int, k as nat),
                acc <= max,
            decreases len - k,
        {
            proof {
                crate::chars::lemma_run_all(self.text@, from as int, CharClass::Digit, from + k);
            }
            let c = self.text[from + k];
            let d: u32 = c as u32 - '0' as u32;
            let next: u32 = acc * 10 + d;
            if next > max {
                proof {
                    crate::chars::lemma_decimal_grows(
                        self.text@,
                        from as int,
                        (k + 1) as nat,
                        len as nat,
                    );
                }
                return None;
            }
            acc = next;
            k = k + 1;
        }
        Some(acc)
    }

    /// The characters from the index `from` up to the index `to`, as a
    /// string. The cursor stays.
    pub fn text_between(&self, from: usize, to: usize) -> (piece: String)
        requires
            from <= to <= self.text().len(),
        ensures
            piece@ == self.text().subrange(from as int, to as int),
    {
        let mut piece = String::new();
        let mut k: usize = from;
        while k < to
            invariant
                from <= k <= to <= self.text@.len(),
                piece@ == self.text@.subrange(from as int, k as int),
            decreases to - k,
        {
            piece.push(self.text[k]);
            assert(self.text@.subrange(from as int, k + 1) =~= self.text@.subrange(
                from as int,
                k as int,
            ).push(self.text@[k as int]));
            k = k + 1;
        }
        piece
    }
}

} // verus!
