//! Linear-memory layout of the static strings of a module.

use vstd::prelude::*;
use vstd::string::StringExecFns;

verus! {

/// Offset of the scratch area in linear memory.
pub const SCRATCH_OFFSET: u32 = 64;

/// Offset at which the string data starts in linear memory.
pub const DATA_START: u32 = 1024;

/// Where a string's bytes stand in linear memory.
#[derive(Debug, Clone, Copy, PartialEq, Eq, Structural)]
pub struct StringEntry {
    pub offset: u32,
    pub len: u32,
}

/// The UTF-8 bytes of a text.
pub open spec fn utf8(s: Seq<char>) -> Seq<u8> {
    vstd::utf8::encode_utf8(s)
}

/// The bytes of the texts of a list of (text, entry) pairs, one after the other.
pub open spec fn entries_bytes(es: Seq<(Seq<char>, StringEntry)>) -> Seq<u8>
    decreases es.len(),
{
    if es.len() == 0 {
        Seq::empty()
    } else {
        entries_bytes(es.drop_last()) + utf8(es.last().0)
    }
}

/// The entry of `key` in a list of (text, entry) pairs, if any (the last one that matches).
pub open spec fn find_entry(entries: Seq<(Seq<char>, StringEntry)>, key: Seq<char>) -> Option<StringEntry>
    decreases entries.len(),
{
    if entries.len() == 0 {
        None
    } else if entries.last().0 == key {
        Some(entries.last().1)
    } else {
        find_entry(entries.drop_last(), key)
    }
}

/// A table of interned strings and the bytes that hold them, laid out one
/// after the other from `DATA_START`.
pub struct StringTable {
    strings: Vec<(String, StringEntry)>,
    data: Vec<u8>,
    current_offset: u32,
}

impl StringTable {
    /// The interned texts with their entries, in the order they were first inserted.
    pub closed spec fn entries(&self) -> Seq<(Seq<char>, StringEntry)> {
        Seq::new(self.strings@.len(), |i: int| (self.strings@[i].0@, self.strings@[i].1))
    }

    /// The bytes of the data segment.
    pub closed spec fn bytes(&self) -> Seq<u8> {
        self.data@
    }

    /// The offset at which the next new string will be placed.
    pub closed spec fn next_offset(&self) -> u32 {
        self.current_offset
    }

    /// The table is well formed: no text occurs twice; each entry holds its
    /// text's bytes at its offset; entries follow each other without gaps in
    /// insertion order; the data is their texts' bytes one after the other;
    /// the next offset is the end of the data.
    pub closed spec fn wf(&self) -> bool {
        let es = self.entries();
        &&& self.current_offset == DATA_START + self.data@.len()
        &&& self.data@ == entries_bytes(es)
        &&& forall|i: int, j: int| 0 <= i < j < es.len() ==> es[i].0 != es[j].0
        &&& forall|i: int|
            0 <= i < es.len() ==> {
                let e = (#[trigger] es[i]).1;
                &&& DATA_START <= e.offset
                &&& e.offset + e.len <= self.current_offset
                &&& self.data@.subrange(e.offset - DATA_START, e.offset - DATA_START + e.len)
                    == utf8(es[i].0)
            }
        &&& forall|i: int, j: int| 0 <= i < j < es.len() ==> es[i].1.offset + es[i].1.len <= es[j].1.offset
    }

    /// An empty table whose first string will be placed at `DATA_START`.
    pub fn new() -> (t: Self)
        ensures
            t.wf(),
            t.entries() == Seq::<(Seq<char>, StringEntry)>::empty(),
            t.bytes() == Seq::<u8>::empty(),
            t.next_offset() == DATA_START,
    {
        let t = Self { strings: Vec::new(), data: Vec::new(), current_offset: DATA_START };
        assert(t.entries() =~= Seq::<(Seq<char>, StringEntry)>::empty());
        assert(t.data@ =~= entries_bytes(t.entries()));
        t
    }

    fn find(&self, key: &String) -> (r: Option<StringEntry>)
        requires
            self.wf(),
        ensures
            r == find_entry(self.entries(), key@),
    {
        let mut i = self.strings.len();
        assert(self.entries().subrange(0, i as int) =~= self.entries());
        while i > 0
            invariant
                i <= self.strings@.len(),
                find_entry(self.entries(), key@) == find_entry(self.entries().subrange(0, i as int), key@),
            decreases i,
        {
            let ghost sub = self.entries().subrange(0, i as int);
            assert(sub.drop_last() =~= self.entries().subrange(0, i - 1));
            if self.strings[i - 1].0 == *key {
                return Some(self.strings[i - 1].1);
            }
            i -= 1;
        }
        proof { r_none_helper(self.entries(), key@); }
        None
    }

    /// Interns `s`: an already interned text gets its existing entry and the
    /// table is unchanged; a new text is appended at the next offset.
    pub fn insert(&mut self, s: &str) -> (r: StringEntry)
        requires
            old(self).wf(),
            find_entry(old(self).entries(), s@) is Some || old(self).next_offset() + utf8(s@).len()
                <= u32::MAX,
        ensures
            final(self).wf(),
            find_entry(final(self).entries(), s@) == Some(r),
            match find_entry(old(self).entries(), s@) {
                Some(e) => r == e && final(self).entries() == old(self).entries() && final(self).bytes()
                    == old(self).bytes() && final(self).next_offset() == old(self).next_offset(),
                None => r.offset == DATA_START + old(self).bytes().len()
                    && r == (StringEntry { offset: old(self).next_offset(), len: utf8(s@).len() as u32 })
                    && final(self).entries() == old(self).entries().push((s@, r)) && final(self).bytes()
                    == old(self).bytes() + utf8(s@) && final(self).next_offset() == old(self).next_offset()
                    + utf8(s@).len(),
            },
    {
        let key = String::from_str(s);
        if let Some(entry) = self.find(&key) {
            return entry;
        }
        let bytes = s.as_bytes();
        let entry = StringEntry { offset: self.current_offset, len: bytes.len() as u32 };
        let ghost old_entries = self.entries();
        let ghost old_data = self.data@;
        self.strings.push((key, entry));
        self.data.extend_from_slice(bytes);
        self.current_offset = self.current_offset + bytes.len() as u32;
        proof {
            assert(self.data@ =~= old_data + utf8(s@));
            assert(self.entries() =~= old_entries.push((s@, entry)));
            let es = self.entries();
            assert(es.drop_last() =~= old_entries);
            assert(self.data@ == entries_bytes(es));
            assert forall|i: int|
                0 <= i < es.len() implies {
                let e = (#[trigger] es[i]).1;
                &&& DATA_START <= e.offset
                &&& e.offset + e.len <= self.current_offset
                &&& self.data@.subrange(e.offset - DATA_START, e.offset - DATA_START + e.len)
                    == utf8(es[i].0)
            } by {
                if i < old_entries.len() {
                    assert(es[i] == old_entries[i]);
                    let e = es[i].1;
                    assert(self.data@.subrange(e.offset - DATA_START, e.offset - DATA_START + e.len)
                        =~= old_data.subrange(e.offset - DATA_START, e.offset - DATA_START + e.len));
                } else {
                    assert(self.data@.subrange(entry.offset - DATA_START, entry.offset - DATA_START
                        + entry.len) =~= utf8(s@));
                }
            }
            assert forall|i: int, j: int| 0 <= i < j < es.len() implies es[i].0 != es[j].0 by {
                if j == es.len() - 1 {
                    lemma_find_none(old_entries, s@, i);
                }
            }
        }
        entry
    }

    /// The offset at which the next new string will be placed.
    pub(crate) fn next_free(&self) -> (r: u32)
        ensures
            r == self.next_offset(),
    {
        self.current_offset
    }

    /// The entry of `s`, if it has been interned.
    pub fn get(&self, s: &str) -> (r: Option<StringEntry>)
        requires
            self.wf(),
        ensures
            r == find_entry(self.entries(), s@),
    {
        let key = String::from_str(s);
        self.find(&key)
    }

    /// The bytes of the data segment.
    pub fn data(&self) -> (d: &[u8])
        ensures
            d@ == self.bytes(),
    {
        self.data.as_slice()
    }
}

proof fn r_none_helper(entries: Seq<(Seq<char>, StringEntry)>, key: Seq<char>)
    ensures
        find_entry(entries.subrange(0, 0), key) is None,
{
    assert(entries.subrange(0, 0).len() == 0);
}

/// A text that `find_entry` does not find occurs nowhere in the list.
proof fn lemma_find_none(entries: Seq<(Seq<char>, StringEntry)>, key: Seq<char>, i: int)
    requires
        find_entry(entries, key) is None,
        0 <= i < entries.len(),
    ensures
        entries[i].0 != key,
    decreases entries.len(),
{
    if i < entries.len() - 1 {
        lemma_find_none(entries.drop_last(), key, i);
    }
}

/// `find_entry` gives the entry of the text's occurrence, when there is one
/// and texts do not repeat.
pub proof fn lemma_find_unique(entries: Seq<(Seq<char>, StringEntry)>, i: int)
    requires
        0 <= i < entries.len(),
        forall|a: int, b: int| 0 <= a < b < entries.len() ==> entries[a].0 != entries[b].0,
    ensures
        find_entry(entries, entries[i].0) == Some(entries[i].1),
    decreases entries.len(),
{
    if i < entries.len() - 1 {
        lemma_find_unique(entries.drop_last(), i);
    }
}

/// Law: what the table gives back for a text is a range of the data that
/// holds exactly that text's UTF-8 bytes, placed at or after `DATA_START`.
pub proof fn law_entry_holds_text(t: &StringTable, s: Seq<char>)
    requires
        t.wf(),
    ensures
        find_entry(t.entries(), s) matches Some(e) ==> {
            &&& DATA_START <= e.offset
            &&& e.offset + e.len <= DATA_START + t.bytes().len()
            &&& t.bytes().subrange(e.offset - DATA_START, e.offset - DATA_START + e.len) == utf8(s)
        },
{
    lemma_find_some(t.entries(), s);
}

proof fn lemma_find_some(entries: Seq<(Seq<char>, StringEntry)>, key: Seq<char>)
    ensures
        find_entry(entries, key) matches Some(e) ==> exists|i: int|
            0 <= i < entries.len() && #[trigger] entries[i] == (key, e),
    decreases entries.len(),
{
    if entries.len() > 0 && entries.last().0 != key {
        lemma_find_some(entries.drop_last(), key);
        if let Some(e) = find_entry(entries, key) {
            let i = choose|i: int| 0 <= i < entries.drop_last().len() && #[trigger] entries.drop_last()[i] == (key, e);
            assert(entries[i] == (key, e));
        }
    } else if entries.len() > 0 {
        assert(entries[entries.len() - 1] == (key, entries.last().1));
    }
}

/// Law: the data of a table is the bytes of its texts, one after the other in
/// the order they were first inserted, and the next text goes right after it,
/// at `DATA_START` plus the length of the data.
pub proof fn law_data_concatenates_texts(t: &StringTable)
    requires
        t.wf(),
    ensures
        t.bytes() == entries_bytes(t.entries()),
        t.next_offset() == DATA_START + t.bytes().len(),
{
}

/// Law: two different interned texts occupy disjoint ranges of the data.
pub proof fn law_entries_disjoint(t: &StringTable, s1: Seq<char>, s2: Seq<char>)
    requires
        t.wf(),
        s1 != s2,
    ensures
        find_entry(t.entries(), s1) matches Some(e1) ==> find_entry(t.entries(), s2) matches Some(e2)
            ==> e1.offset + e1.len <= e2.offset || e2.offset + e2.len <= e1.offset,
{
    lemma_find_some(t.entries(), s1);
    lemma_find_some(t.entries(), s2);
    if let Some(e1) = find_entry(t.entries(), s1) {
        if let Some(e2) = find_entry(t.entries(), s2) {
            let i = choose|i: int| 0 <= i < t.entries().len() && #[trigger] t.entries()[i] == (s1, e1);
            let j = choose|j: int| 0 <= j < t.entries().len() && #[trigger] t.entries()[j] == (s2, e2);
            assert(i != j);
        }
    }
}

} // verus!
