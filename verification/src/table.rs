//! A counter table held in memory: keys and values as bytes, with the
//! three operations of the kernel's tables. It holds the snapshot that a
//! report is made of, and stands for the kernel's table where the
//! collectors are driven without one.
//!
//! A table holds each key once. Keys are enumerated in the order in which
//! they were first stored; no collector depends on that order.

use vstd::prelude::*;
use vstd::slice::slice_to_vec;

verus! {

/// One entry of a table as it is read: the bytes of its key and of its
/// value.
#[derive(Debug, PartialEq, Eq)]
pub struct RawEntry {
    pub key: Vec<u8>,
    pub value: Vec<u8>,
}

impl View for RawEntry {
    type V = (Seq<u8>, Seq<u8>);

    open spec fn view(&self) -> (Seq<u8>, Seq<u8>) {
        (self.key@, self.value@)
    }
}

/// A snapshot as pairs of bytes: the key and the value of each entry.
pub open spec fn views(entries: Seq<RawEntry>) -> Seq<(Seq<u8>, Seq<u8>)> {
    entries.map_values(|entry: RawEntry| entry@)
}

/// The position of the first pair of `pairs` with the key `key`, or the
/// length of `pairs` when there is none.
pub open spec fn position_of(pairs: Seq<(Seq<u8>, Seq<u8>)>, key: Seq<u8>) -> int
    decreases pairs.len(),
{
    if pairs.len() == 0 {
        0
    } else if pairs[0].0 == key {
        0
    } else {
        1 + position_of(pairs.drop_first(), key)
    }
}

/// The value held under `key`, if there is one.
pub open spec fn held(pairs: Seq<(Seq<u8>, Seq<u8>)>, key: Seq<u8>) -> Option<Seq<u8>> {
    if position_of(pairs, key) < pairs.len() {
        Some(pairs[position_of(pairs, key)].1)
    } else {
        None
    }
}

/// The pairs after `value` was stored under `key`: in place of the value
/// held under it, or as a new last pair.
pub open spec fn stored(pairs: Seq<(Seq<u8>, Seq<u8>)>, key: Seq<u8>, value: Seq<u8>) -> Seq<
    (Seq<u8>, Seq<u8>),
> {
    if position_of(pairs, key) < pairs.len() {
        pairs.update(position_of(pairs, key), (key, value))
    } else {
        pairs.push((key, value))
    }
}

/// Whether no two pairs of `pairs` have the same key.
pub open spec fn distinct_keys(pairs: Seq<(Seq<u8>, Seq<u8>)>) -> bool {
    forall|i: int, j: int|
        0 <= i < pairs.len() && 0 <= j < pairs.len() && i != j ==> (#[trigger] pairs[i]).0 != (
        #[trigger] pairs[j]).0
}

/// The position found is that of the first pair with the key.
pub proof fn lemma_position(pairs: Seq<(Seq<u8>, Seq<u8>)>, key: Seq<u8>)
    ensures
        0 <= position_of(pairs, key) <= pairs.len(),
        position_of(pairs, key) < pairs.len() ==> pairs[position_of(pairs, key)].0 == key,
        forall|i: int| 0 <= i < position_of(pairs, key) ==> (#[trigger] pairs[i]).0 != key,
    decreases pairs.len(),
{
    if pairs.len() > 0 && pairs[0].0 != key {
        let rest = pairs.drop_first();
        lemma_position(rest, key);
        assert forall|i: int| 0 <= i < position_of(pairs, key) implies (#[trigger] pairs[i]).0
            != key by {
            if i > 0 {
                assert(rest[i - 1] == pairs[i]);
            }
        }
    }
}

/// A position at which the key stands, with no such position before it, is
/// the position found.
pub proof fn lemma_position_is(pairs: Seq<(Seq<u8>, Seq<u8>)>, key: Seq<u8>, at: int)
    requires
        0 <= at <= pairs.len(),
        at < pairs.len() ==> pairs[at].0 == key,
        forall|i: int| 0 <= i < at ==> (#[trigger] pairs[i]).0 != key,
    ensures
        position_of(pairs, key) == at,
{
    lemma_position(pairs, key);
    let found = position_of(pairs, key);
    if found < at {
        assert(pairs[found].0 == key);
    }
    if at < found {
        assert(pairs[at].0 == key);
    }
}

/// What was stored under a key is held under it; what is held under every
/// other key stays; and each key is still held once.
pub proof fn lemma_stored_then_held(
    pairs: Seq<(Seq<u8>, Seq<u8>)>,
    key: Seq<u8>,
    value: Seq<u8>,
    other: Seq<u8>,
)
    requires
        distinct_keys(pairs),
    ensures
        held(stored(pairs, key, value), key) == Some(value),
        other != key ==> held(stored(pairs, key, value), other) == held(pairs, other),
        distinct_keys(stored(pairs, key, value)),
        stored(stored(pairs, key, value), key, value) == stored(pairs, key, value),
{
    let after = stored(pairs, key, value);
    let at = position_of(pairs, key);
    lemma_position(pairs, key);
    assert(after[at] == (key, value));
    assert forall|i: int| 0 <= i < at implies (#[trigger] after[i]).0 != key by {
        assert(after[i] == pairs[i]);
    }
    lemma_position_is(after, key, at);
    assert(after.update(at, (key, value)) =~= after);
    if other != key {
        let there = position_of(pairs, other);
        lemma_position(pairs, other);
        if there < pairs.len() {
            assert(after[there] == pairs[there]);
        }
        assert forall|i: int| 0 <= i < there && i < after.len() implies (#[trigger] after[i]).0
            != other by {
            if i < pairs.len() && i != at {
                assert(after[i] == pairs[i]);
            }
        }
        if there < pairs.len() {
            lemma_position_is(after, other, there);
        } else {
            lemma_position_is(after, other, after.len() as int);
        }
    }
    assert forall|i: int, j: int|
        0 <= i < after.len() && 0 <= j < after.len() && i != j implies (#[trigger] after[i]).0 != (
    #[trigger] after[j]).0 by {
        if i < pairs.len() && i != at {
            assert(after[i] == pairs[i]);
        }
        if j < pairs.len() && j != at {
            assert(after[j] == pairs[j]);
        }
    }
}

/// Whether two runs of bytes are the same.
pub fn same_bytes(a: &[u8], b: &[u8]) -> (same: bool)
    ensures
        same == (a@ == b@),
{
    if a.len() != b.len() {
        return false;
    }
    let mut i: usize = 0;
    while i < a.len()
        invariant
            i <= a.len(),
            a.len() == b.len(),
            forall|j: int| 0 <= j < i ==> a@[j] == b@[j],
        decreases a.len() - i,
    {
        if a[i] != b[i] {
            return false;
        }
        i += 1;
    }
    assert(a@ =~= b@);
    true
}

/// A counter table held in memory.
pub struct MapTable {
    entries: Vec<RawEntry>,
}

impl View for MapTable {
    type V = Seq<(Seq<u8>, Seq<u8>)>;

    closed spec fn view(&self) -> Seq<(Seq<u8>, Seq<u8>)> {
        views(self.entries@)
    }
}

impl MapTable {
    /// Whether the table holds each key once. Every table made by the
    /// functions of this type does.
    pub open spec fn wf(&self) -> bool {
        distinct_keys(self@)
    }

    /// The table without any entry.
    pub fn new() -> (table: MapTable)
        ensures
            table@ == Seq::<(Seq<u8>, Seq<u8>)>::empty(),
            table.wf(),
    {
        let table = MapTable { entries: Vec::new() };
        assert(table@ =~= Seq::<(Seq<u8>, Seq<u8>)>::empty());
        table
    }

    /// The number of entries.
    pub fn len(&self) -> (count: usize)
        ensures
            count == self@.len(),
    {
        self.entries.len()
    }

    /// The entries, in the order of enumeration.
    pub fn entries(&self) -> (entries: &Vec<RawEntry>)
        ensures
            views(entries@) == self@,
    {
        &self.entries
    }

    /// The position of the entry with the key `key`, or the number of
    /// entries when there is none.
    fn find(&self, key: &[u8]) -> (at: usize)
        ensures
            at == position_of(self@, key@),
            at <= self@.len(),
    {
        let mut at: usize = 0;
        while at < self.entries.len()
            invariant
                at <= self.entries.len(),
                self@.len() == self.entries.len(),
                forall|i: int| 0 <= i < at ==> (#[trigger] self@[i]).0 != key@,
            decreases self.entries.len() - at,
        {
            if same_bytes(self.entries[at].key.as_slice(), key) {
                proof {
                    assert(self@[at as int].0 == key@);
                    lemma_position_is(self@, key@, at as int);
                }
                return at;
            }
            assert(self@[at as int].0 != key@);
            at += 1;
        }
        proof {
            lemma_position_is(self@, key@, at as int);
        }
        at
    }

    /// The keys of the table, each once.
    pub fn keys(&self) -> (keys: Vec<Vec<u8>>)
        ensures
            keys@.len() == self@.len(),
            forall|i: int| 0 <= i < keys@.len() ==> (#[trigger] keys@[i])@ == self@[i].0,
    {
        let mut keys: Vec<Vec<u8>> = Vec::new();
        let mut i: usize = 0;
        while i < self.entries.len()
            invariant
                i <= self.entries.len(),
                self@.len() == self.entries.len(),
                keys@.len() == i,
                forall|j: int| 0 <= j < i ==> (#[trigger] keys@[j])@ == self@[j].0,
            decreases self.entries.len() - i,
        {
            keys.push(slice_to_vec(self.entries[i].key.as_slice()));
            i += 1;
        }
        keys
    }

    /// The value held under `key`, if there is one.
    pub fn lookup(&self, key: &[u8]) -> (value: Option<Vec<u8>>)
        ensures
            match value {
                Some(bytes) => held(self@, key@) == Some(bytes@),
                None => held(self@, key@) is None,
            },
    {
        let at = self.find(key);
        if at < self.entries.len() {
            Some(slice_to_vec(self.entries[at].value.as_slice()))
        } else {
            None
        }
    }

    /// Stores `value` under `key`, in place of the whole value held under
    /// it if there is one.
    pub fn update(&mut self, key: &[u8], value: &[u8])
        requires
            old(self).wf(),
        ensures
            final(self)@ == stored(old(self)@, key@, value@),
            final(self).wf(),
    {
        proof {
            lemma_stored_then_held(self@, key@, value@, key@);
        }
        let at = self.find(key);
        let entry = RawEntry { key: slice_to_vec(key), value: slice_to_vec(value) };
        if at < self.entries.len() {
            self.entries.set(at, entry);
        } else {
            self.entries.push(entry);
        }
        assert(self@ =~= stored(old(self)@, key@, value@));
    }
}

} // verus!
