//! The header of a score: an ordered mapping from keys to values.
use vstd::prelude::*;

verus! {

/// One line of a header as plain characters: its key and its value.
pub type Entry = (Seq<char>, Seq<char>);

/// The index of the entry of `entries` under `key`, if there is one. Where
/// several entries have the key it is the first of them.
pub open spec fn index_of_key(entries: Seq<Entry>, key: Seq<char>) -> Option<int>
    decreases entries.len(),
{
    if entries.len() == 0 {
        None
    } else if index_of_key(entries.drop_last(), key) is Some {
        index_of_key(entries.drop_last(), key)
    } else if entries.last().0 == key {
        Some(entries.len() - 1)
    } else {
        None
    }
}

/// The value that `entries` holds under `key`, if it holds one.
pub open spec fn lookup(entries: Seq<Entry>, key: Seq<char>) -> Option<Seq<char>> {
    match index_of_key(entries, key) {
        Some(i) => Some(entries[i].1),
        None => None,
    }
}

/// Whether no two entries have the same key.
pub open spec fn distinct_keys(entries: Seq<Entry>) -> bool {
    forall|i: int, j: int|
        0 <= i < j < entries.len() ==> (#[trigger] entries[i]).0 != (#[trigger] entries[j]).0
}

/// `entries` with `value` under `key`: the value replaces the one that
/// stood under the key, in its place; a new key goes to the end.
pub open spec fn with_entry(entries: Seq<Entry>, key: Seq<char>, value: Seq<char>) -> Seq<Entry> {
    match index_of_key(entries, key) {
        Some(i) => entries.update(i, (key, value)),
        None => entries.push((key, value)),
    }
}

/// The mapping that the lines `pairs`, read in order, build up.
pub open spec fn header_of(pairs: Seq<Entry>) -> Seq<Entry>
    decreases pairs.len(),
{
    if pairs.len() == 0 {
        Seq::empty()
    } else {
        with_entry(header_of(pairs.drop_last()), pairs.last().0, pairs.last().1)
    }
}

/// Where `index_of_key` finds an entry, the entry has the key and none
/// before it has; where it finds none, no entry has the key.
pub proof fn lemma_index_of_key(entries: Seq<Entry>, key: Seq<char>)
    ensures
        match index_of_key(entries, key) {
            Some(i) => {
                &&& 0 <= i < entries.len()
                &&& entries[i].0 == key
                &&& forall|j: int| 0 <= j < i ==> (#[trigger] entries[j]).0 != key
            },
            None => forall|j: int| 0 <= j < entries.len() ==> (#[trigger] entries[j]).0 != key,
        },
    decreases entries.len(),
{
    if entries.len() > 0 {
        lemma_index_of_key(entries.drop_last(), key);
        assert(forall|j: int|
            0 <= j < entries.len() - 1 ==> entries.drop_last()[j] == #[trigger] entries[j]);
    }
}

/// The entry at `i` is the one that `index_of_key` finds for its key, where
/// no entry before it has that key.
pub proof fn lemma_index_of_key_is(entries: Seq<Entry>, key: Seq<char>, i: int)
    requires
        0 <= i < entries.len(),
        entries[i].0 == key,
        forall|j: int| 0 <= j < i ==> (#[trigger] entries[j]).0 != key,
    ensures
        index_of_key(entries, key) == Some(i),
{
    lemma_index_of_key(entries, key);
}

/// Putting a value under a key keeps the keys distinct, makes the value the
/// one found under the key, and leaves what is found under any other key.
pub proof fn lemma_with_entry(entries: Seq<Entry>, key: Seq<char>, value: Seq<char>)
    requires
        distinct_keys(entries),
    ensures
        distinct_keys(with_entry(entries, key, value)),
        lookup(with_entry(entries, key, value), key) == Some(value),
        forall|other: Seq<char>|
            other != key ==> lookup(with_entry(entries, key, value), other) == #[trigger] lookup(
                entries,
                other,
            ),
{
    let after = with_entry(entries, key, value);
    lemma_index_of_key(entries, key);
    match index_of_key(entries, key) {
        Some(i) => {
            assert(forall|j: int| 0 <= j < i ==> after[j] == #[trigger] entries[j]);
            lemma_index_of_key_is(after, key, i);
        },
        None => {
            assert(forall|j: int| 0 <= j < entries.len() ==> after[j] == #[trigger] entries[j]);
            lemma_index_of_key_is(after, key, entries.len() as int);
        },
    }
    assert forall|other: Seq<char>| other != key implies lookup(after, other) == #[trigger] lookup(
        entries,
        other,
    ) by {
        lemma_index_of_key(entries, other);
        lemma_index_of_key(after, other);
        match index_of_key(entries, other) {
            Some(i) => {
                assert(after[i] == entries[i]);
                lemma_index_of_key_is(after, other, i);
            },
            None => {
                if index_of_key(after, other) is Some {
                    let j = index_of_key(after, other)->0;
                    assert(after[j].0 == other);
                    if j < entries.len() {
                        assert(entries[j].0 == other);
                    }
                }
            },
        }
    }
}

/// The mapping built from any lines has distinct keys.
pub proof fn lemma_header_of_distinct(pairs: Seq<Entry>)
    ensures
        distinct_keys(header_of(pairs)),
    decreases pairs.len(),
{
    if pairs.len() > 0 {
        lemma_header_of_distinct(pairs.drop_last());
        lemma_with_entry(header_of(pairs.drop_last()), pairs.last().0, pairs.last().1);
    }
}

/// The index of the entry of `entries` under `key`, if there is one.
fn find(entries: &Vec<(String, String)>, key: &String) -> (found: Option<usize>)
    ensures
        match found {
            Some(i) => index_of_key(entries.deep_view(), key@) == Some(i as int),
            None => index_of_key(entries.deep_view(), key@) is None,
        },
{
    let mut i: usize = 0;
    while i < entries.len()
        invariant
            i <= entries@.len(),
            forall|j: int| 0 <= j < i ==> (#[trigger] entries.deep_view()[j]).0 != key@,
        decreases entries@.len() - i,
    {
        if entries[i].0 == *key {
            proof {
                lemma_index_of_key_is(entries.deep_view(), key@, i as int);
            }
            return Some(i);
        }
        i = i + 1;
    }
    proof {
        lemma_index_of_key(entries.deep_view(), key@);
    }
    None
}

/// The header of a score: free-form metadata, each value under its key, in
/// the order in which the keys first came.
#[derive(Debug, PartialEq, Eq)]
pub struct Header {
    entries: Vec<(String, String)>,
}

impl DeepView for Header {
    type V = Seq<Entry>;

    closed spec fn deep_view(&self) -> Seq<Entry> {
        self.entries.deep_view()
    }
}

impl Header {
    #[verifier::type_invariant]
    closed spec fn keys_are_distinct(&self) -> bool {
        distinct_keys(self.entries.deep_view())
    }

    /// A header without entries.
    pub fn new() -> (header: Header)
        ensures
            header.deep_view() == Seq::<Entry>::empty(),
    {
        let header = Header { entries: Vec::new() };
        assert(header.entries.deep_view() =~= Seq::<Entry>::empty());
        header
    }

    /// The number of entries.
    pub fn len(&self) -> (len: usize)
        ensures
            len == self.deep_view().len(),
    {
        self.entries.len()
    }

    /// The key and the value of the entry at `index`, in the order in which
    /// the keys first came.
    pub fn entry(&self, index: usize) -> (entry: (&String, &String))
        requires
            index < self.deep_view().len(),
        ensures
            entry.0@ == self.deep_view()[index as int].0,
            entry.1@ == self.deep_view()[index as int].1,
    {
        let pair = &self.entries[index];
        (&pair.0, &pair.1)
    }

    /// The value under `key`, if there is one.
    pub fn get(&self, key: &str) -> (value: Option<&String>)
        ensures
            match value {
                Some(v) => lookup(self.deep_view(), key@) == Some(v@),
                None => lookup(self.deep_view(), key@) is None,
            },
    {
        let owned = key.to_owned();
        match find(&self.entries, &owned) {
            Some(i) => {
                proof {
                    lemma_index_of_key(self.deep_view(), key@);
                }
                Some(&self.entries[i].1)
            },
            None => None,
        }
    }

    /// Puts `value` under `key`. A value that stood under the key is
    /// replaced where it stood; a new key goes to the end.
    pub fn insert(&mut self, key: String, value: String)
        ensures
            final(self).deep_view() == with_entry(old(self).deep_view(), key@, value@),
    {
        let mut taken = Header::new();
        core::mem::swap(self, &mut taken);
        proof {
            use_type_invariant(&taken);
            lemma_with_entry(taken.entries.deep_view(), key@, value@);
            lemma_index_of_key(taken.entries.deep_view(), key@);
        }
        let mut entries = taken.entries;
        let ghost before = entries.deep_view();
        match find(&entries, &key) {
            Some(i) => {
                entries[i] = (key, value);
                assert(entries.deep_view() =~= before.update(i as int, (key@, value@)));
            },
            None => {
                entries.push((key, value));
                assert(entries.deep_view() =~= before.push((key@, value@)));
            },
        }
        *self = Header { entries };
    }
}

} // verus!
