//! The indexed store: one append-only log segment plus an in-memory index
//! (keydir) that maps each key to the location of its most recent value.

use vstd::prelude::*;
use crate::bytes::{bytes_eq, clone_bytes, copy_range, push_bytes, ToBytes};
use crate::codec::{record_bytes, KeyValueEntry, StoreError, HEADER_SIZE};

verus! {

/// The authoritative pointer for a key's current value: which segment holds
/// it, where the value's bytes start, how long they are, and when they were
/// written.
#[derive(Debug, Clone, Copy, PartialEq, Eq, Structural)]
pub struct KeyDirEntry {
    /// Identifier of the log segment that holds the value.
    pub file_id: u32,
    /// Byte length of the value.
    pub value_sz: u32,
    /// Absolute byte offset of the value's first byte within the segment.
    pub value_pos: u32,
    /// The record's write time.
    pub tstamp: u32,
}

/// An append-only log segment: an ordered byte buffer with a numeric
/// identifier. Bytes already written are never mutated or reordered.
#[derive(Debug)]
pub struct File {
    id: u32,
    data: Vec<u8>,
}

impl File {
    /// The segment's identifier, assigned once at creation.
    pub closed spec fn spec_id(&self) -> u32 {
        self.id
    }

    /// The ordered bytes the segment holds.
    pub closed spec fn log(&self) -> Seq<u8> {
        self.data@
    }

    /// Creates an empty segment with the given identifier.
    pub fn new(id: u32) -> (f: Self)
        ensures
            f.spec_id() == id,
            f.log() == Seq::<u8>::empty(),
    {
        File { id, data: Vec::new() }
    }

    /// Current length in bytes; the offset the next record will start at.
    pub fn size(&self) -> (r: usize)
        ensures
            r == self.log().len(),
    {
        self.data.len()
    }

    /// Appends bytes at the end; the segment grows by `data.len()` and every
    /// byte already written keeps its position and value.
    pub fn append(&mut self, data: &[u8])
        ensures
            final(self).log() == old(self).log() + data@,
            final(self).spec_id() == old(self).spec_id(),
    {
        push_bytes(&mut self.data, data);
    }
}

/// The index seen as a map from key bytes to the keydir entry of the latest
/// write; later slots of the sequence take precedence.
pub open spec fn keydir_map(s: Seq<(Vec<u8>, KeyDirEntry)>) -> Map<Seq<u8>, KeyDirEntry>
    decreases s.len(),
{
    if s.len() == 0 {
        Map::empty()
    } else {
        keydir_map(s.drop_last()).insert(s.last().0@, s.last().1)
    }
}

/// No two slots of the keydir hold the same key.
pub open spec fn keys_unique(s: Seq<(Vec<u8>, KeyDirEntry)>) -> bool {
    forall|i: int, j: int| 0 <= i < j < s.len() ==> s[i].0@ != s[j].0@
}

/// A key is in the index map exactly when some slot holds it.
proof fn lemma_keydir_map_contains(s: Seq<(Vec<u8>, KeyDirEntry)>, k: Seq<u8>)
    ensures
        keydir_map(s).contains_key(k) <==> exists|i: int| 0 <= i < s.len() && s[i].0@ == k,
    decreases s.len(),
{
    if s.len() > 0 {
        lemma_keydir_map_contains(s.drop_last(), k);
        if s.last().0@ != k && keydir_map(s).contains_key(k) {
            let i = choose|i: int| 0 <= i < s.drop_last().len() && s.drop_last()[i].0@ == k;
            assert(s[i].0@ == k);
        }
        if exists|i: int| 0 <= i < s.len() && s[i].0@ == k {
            let i = choose|i: int| 0 <= i < s.len() && s[i].0@ == k;
            if i < s.len() - 1 {
                assert(s.drop_last()[i].0@ == k);
            }
        }
    }
}

/// Under unique keys, the slot that holds a key gives the map's entry for it.
proof fn lemma_keydir_map_index(s: Seq<(Vec<u8>, KeyDirEntry)>, i: int)
    requires
        keys_unique(s),
        0 <= i < s.len(),
    ensures
        keydir_map(s).contains_key(s[i].0@),
        keydir_map(s)[s[i].0@] == s[i].1,
    decreases s.len(),
{
    if i == s.len() - 1 {
        lemma_keydir_map_contains(s, s[i].0@);
    } else {
        lemma_keydir_map_index(s.drop_last(), i);
        assert(s.drop_last()[i] == s[i]);
        assert(s[i].0@ != s.last().0@);
    }
}

/// Under unique keys, overwriting the slot that holds a key updates the map
/// at that key alone.
proof fn lemma_keydir_map_update(s: Seq<(Vec<u8>, KeyDirEntry)>, i: int, p: (Vec<u8>, KeyDirEntry))
    requires
        keys_unique(s),
        0 <= i < s.len(),
        p.0@ == s[i].0@,
    ensures
        keydir_map(s.update(i, p)) == keydir_map(s).insert(p.0@, p.1),
    decreases s.len(),
{
    let t = s.update(i, p);
    if i == s.len() - 1 {
        assert(t.drop_last() =~= s.drop_last());
        assert(keydir_map(t) =~= keydir_map(s).insert(p.0@, p.1));
    } else {
        lemma_keydir_map_update(s.drop_last(), i, p);
        assert(t.drop_last() =~= s.drop_last().update(i, p));
        assert(t.last() == s.last());
        assert(s[i].0@ != s.last().0@);
        assert(keydir_map(t) == keydir_map(s.drop_last()).insert(p.0@, p.1).insert(
            s.last().0@,
            s.last().1,
        ));
        assert(keydir_map(t) =~= keydir_map(s).insert(p.0@, p.1));
    }
}

/// Pushing a slot inserts its key into the map.
proof fn lemma_keydir_map_push(s: Seq<(Vec<u8>, KeyDirEntry)>, p: (Vec<u8>, KeyDirEntry))
    ensures
        keydir_map(s.push(p)) == keydir_map(s).insert(p.0@, p.1),
{
    assert(s.push(p).drop_last() =~= s);
    assert(s.push(p).last() == p);
}

/// The byte range of a segment's data an index entry points at.
pub open spec fn slice_of(data: Seq<u8>, e: KeyDirEntry) -> Seq<u8> {
    data.subrange(e.value_pos as int, e.value_pos + e.value_sz)
}

/// Whether one more record of the given key and value still fits the 32-bit
/// offsets and sizes of the log format, appended to a log of the given length.
pub open spec fn record_fits(log: Seq<u8>, key: Seq<u8>, value: Seq<u8>) -> bool {
    log.len() + HEADER_SIZE + key.len() + value.len() <= u32::MAX
}

/// The store: one log segment and the index over it. `put` appends a record
/// and points the index at the new value; `get` reads the value's byte range
/// straight out of the segment.
#[derive(Debug)]
pub struct MemoryStore {
    file: File,
    keydir: Vec<(Vec<u8>, KeyDirEntry)>,
}

impl MemoryStore {
    /// The index as a map from key bytes to keydir entries.
    pub closed spec fn index(&self) -> Map<Seq<u8>, KeyDirEntry> {
        keydir_map(self.keydir@)
    }

    /// The segment's bytes.
    pub closed spec fn log(&self) -> Seq<u8> {
        self.file.log()
    }

    /// The store's meaning: the map from each key ever written to the bytes
    /// of its most recent value.
    pub closed spec fn contents(&self) -> Map<Seq<u8>, Seq<u8>> {
        Map::new(
            |k: Seq<u8>| self.index().contains_key(k),
            |k: Seq<u8>| slice_of(self.log(), self.index()[k]),
        )
    }

    /// The store's invariant: the log fits the 32-bit offsets of the record
    /// format, the keydir holds each key once, and every index entry points at
    /// a byte range inside this store's segment.
    pub closed spec fn wf(&self) -> bool {
        &&& self.log().len() <= u32::MAX
        &&& keys_unique(self.keydir@)
        &&& forall|k: Seq<u8>| #[trigger]
            self.index().contains_key(k) ==> self.index()[k].value_pos + self.index()[k].value_sz
                <= self.log().len() && self.index()[k].file_id == self.file.spec_id()
    }

    /// Creates an empty store with a fresh, empty segment whose identifier is
    /// the current time.
    pub fn new() -> (s: Self)
        ensures
            s.wf(),
            s.contents() == Map::<Seq<u8>, Seq<u8>>::empty(),
            s.log() == Seq::<u8>::empty(),
    {
        let s = MemoryStore { file: File::new(now()), keydir: Vec::new() };
        proof {
            assert(s.contents() =~= Map::<Seq<u8>, Seq<u8>>::empty());
        }
        s
    }

    /// Looks the key up in the index and reads the value's byte range from
    /// the segment. A key never written gives `None` — an empty result, not
    /// an error.
    pub fn get<K: ToBytes>(&self, key: K) -> (r: Option<Vec<u8>>)
        requires
            self.wf(),
        ensures
            match r {
                Some(v) => self.contents().contains_key(key.bytes_spec()) && v@ == self.contents()[
                    key.bytes_spec()
                ],
                None => !self.contents().contains_key(key.bytes_spec()),
            },
    {
        let kb = key.to_bytes();
        let n = self.keydir.len();
        let mut i: usize = 0;
        while i < n
            invariant
                self.wf(),
                n == self.keydir@.len(),
                i <= n,
                kb@ == key.bytes_spec(),
                forall|j: int| 0 <= j < i ==> self.keydir@[j].0@ != kb@,
            decreases n - i,
        {
            if bytes_eq(self.keydir[i].0.as_slice(), kb.as_slice()) {
                let e = self.keydir[i].1;
                proof {
                    lemma_keydir_map_index(self.keydir@, i as int);
                    assert(self.index().contains_key(kb@) && self.index()[kb@] == e);
                }
                let v = copy_range(self.file.data.as_slice(), e.value_pos as usize, e.value_sz as usize);
                return Some(v);
            }
            i += 1;
        }
        proof {
            lemma_keydir_map_contains(self.keydir@, kb@);
        }
        None
    }

    /// Stamps a record with the current time, points the index at where the
    /// value's bytes will land, and appends the serialized record to the
    /// segment. Fails — leaving the store unchanged — exactly when the record
    /// would overrun the 32-bit offsets of the log format.
    pub fn put<K: ToBytes, V: ToBytes>(&mut self, key: K, value: V) -> (r: Result<
        (),
        StoreError,
    >)
        requires
            old(self).wf(),
        ensures
            final(self).wf(),
            old(self).log().is_prefix_of(final(self).log()),
            match r {
                Ok(()) => {
                    &&& record_fits(old(self).log(), key.bytes_spec(), value.bytes_spec())
                    &&& final(self).contents() == old(self).contents().insert(
                        key.bytes_spec(),
                        value.bytes_spec(),
                    )
                    &&& exists|t: u32|
                        final(self).log() == old(self).log() + record_bytes(
                            t,
                            key.bytes_spec(),
                            value.bytes_spec(),
                        )
                },
                Err(err) => {
                    &&& !record_fits(old(self).log(), key.bytes_spec(), value.bytes_spec())
                    &&& err == StoreError::RecordTooLarge
                    &&& *final(self) == *old(self)
                },
            },
    {
        let tstamp = now();
        let kb = key.to_bytes();
        let vb = value.to_bytes();
        let size = self.file.size();
        if kb.len() > u32::MAX as usize || vb.len() > u32::MAX as usize {
            return Err(StoreError::RecordTooLarge);
        }
        let total: u64 = (size as u64) + (HEADER_SIZE as u64) + (kb.len() as u64) + (vb.len()
            as u64);
        if total > u32::MAX as u64 {
            return Err(StoreError::RecordTooLarge);
        }
        let value_pos: u32 = (size + HEADER_SIZE + kb.len()) as u32;
        let kde = KeyDirEntry {
            file_id: self.file.id,
            value_sz: vb.len() as u32,
            value_pos,
            tstamp,
        };
        let entry = KeyValueEntry {
            tstamp,
            ksz: kb.len() as u32,
            value_sz: vb.len() as u32,
            key: kb,
            value: vb,
        };
        let kb2 = clone_bytes(&entry.key);
        self.insert_keydir(kb2, kde);
        let data = entry.encode();
        self.file.append(data.as_slice());
        proof {
            let oldlog = old(self).log();
            let ks = key.bytes_spec();
            let vs = value.bytes_spec();
            let rec = record_bytes(tstamp, ks, vs);
            assert(self.log() == oldlog + rec);
            assert(self.index() == old(self).index().insert(ks, kde));
            assert forall|k: Seq<u8>| #[trigger] self.index().contains_key(k) implies self.index()[
                k
            ].value_pos + self.index()[k].value_sz <= self.log().len() && self.index()[k].file_id
                == self.file.spec_id() by {
                if k != ks {
                    assert(old(self).index().contains_key(k));
                }
            }
            assert(self.wf());
            assert forall|k: Seq<u8>| #[trigger] self.contents().contains_key(k) implies self
                .contents()[k] == old(self).contents().insert(ks, vs)[k] by {
                let e = self.index()[k];
                if k == ks {
                    assert(slice_of(self.log(), kde) =~= vs);
                } else {
                    assert(old(self).index().contains_key(k));
                    assert(e.value_pos + e.value_sz <= oldlog.len());
                    assert(slice_of(self.log(), e) =~= slice_of(oldlog, e));
                }
            }
            assert(self.contents() =~= old(self).contents().insert(ks, vs));
        }
        Ok(())
    }

    /// Points the index at a new location for a key: overwrites the key's
    /// slot when one exists, appends a slot otherwise.
    fn insert_keydir(&mut self, kb: Vec<u8>, kde: KeyDirEntry)
        requires
            keys_unique(old(self).keydir@),
        ensures
            final(self).file == old(self).file,
            keys_unique(final(self).keydir@),
            final(self).index() == old(self).index().insert(kb@, kde),
    {
        let n = self.keydir.len();
        let mut i: usize = 0;
        while i < n
            invariant
                n == self.keydir@.len(),
                i <= n,
                keys_unique(self.keydir@),
                self == old(self),
                forall|j: int| 0 <= j < i ==> self.keydir@[j].0@ != kb@,
            decreases n - i,
        {
            if bytes_eq(self.keydir[i].0.as_slice(), kb.as_slice()) {
                proof {
                    lemma_keydir_map_update(self.keydir@, i as int, (kb, kde));
                }
                self.keydir[i] = (kb, kde);
                proof {
                    assert forall|a: int, b: int|
                        0 <= a < b < self.keydir@.len() implies self.keydir@[a].0@ != self
                        .keydir@[b].0@ by {
                        assert(old(self).keydir@[a].0@ != old(self).keydir@[b].0@);
                    }
                }
                return ;
            }
            i += 1;
        }
        proof {
            lemma_keydir_map_push(self.keydir@, (kb, kde));
        }
        self.keydir.push((kb, kde));
    }
}

/// Law (put/get consistency): a `put(k, v)` with no intervening `put` for the
/// same key leaves the store mapping `k` to exactly `v`, so `get(k)` — whose
/// contract returns precisely the store's contents at `k` — returns `v`.
pub proof fn lemma_put_get_consistency(pre: MemoryStore, post: MemoryStore, k: Seq<u8>, v: Seq<u8>)
    requires
        post.contents() == pre.contents().insert(k, v),
    ensures
        post.contents().contains_key(k),
        post.contents()[k] == v,
{
}

/// Law (last write wins): after `put(k, v1)` then `put(k, v2)`, the store maps
/// `k` to `v2`, while the record that carried `v1` still sits, byte for byte,
/// at its old place in the log — consuming space but unreachable via the
/// index.
pub proof fn lemma_last_write_wins(
    s0: MemoryStore,
    s1: MemoryStore,
    s2: MemoryStore,
    k: Seq<u8>,
    v1: Seq<u8>,
    v2: Seq<u8>,
    t1: u32,
    t2: u32,
)
    requires
        s1.contents() == s0.contents().insert(k, v1),
        s1.log() == s0.log() + record_bytes(t1, k, v1),
        s2.contents() == s1.contents().insert(k, v2),
        s2.log() == s1.log() + record_bytes(t2, k, v2),
    ensures
        s2.contents().contains_key(k),
        s2.contents()[k] == v2,
        s2.log().subrange(
            s0.log().len() as int,
            s0.log().len() + record_bytes(t1, k, v1).len() as int,
        ) == record_bytes(t1, k, v1),
{
    assert(s2.log().subrange(
        s0.log().len() as int,
        s0.log().len() + record_bytes(t1, k, v1).len() as int,
    ) =~= record_bytes(t1, k, v1));
}

/// Law (absent key, base case): a fresh store holds no key, so `get` on it
/// returns the empty result — and by `get`'s contract an empty result is a
/// legitimate `None`, never an error.
pub proof fn lemma_absent_key_fresh(s: MemoryStore, k: Seq<u8>)
    requires
        s.contents() == Map::<Seq<u8>, Seq<u8>>::empty(),
    ensures
        !s.contents().contains_key(k),
{
}

/// Law (absent key, preservation): a `put` of a different key never makes a
/// key present; so a key never written stays absent through any sequence of
/// writes to other keys.
pub proof fn lemma_absent_key_preserved(
    pre: MemoryStore,
    post: MemoryStore,
    k: Seq<u8>,
    other: Seq<u8>,
    v: Seq<u8>,
)
    requires
        !pre.contents().contains_key(k),
        other != k,
        post.contents() == pre.contents().insert(other, v),
    ensures
        !post.contents().contains_key(k),
{
}

/// The current time in whole seconds since the Unix epoch, truncated to 32
/// bits; the write-time stamp and fresh segment identifiers come from here.
///
/// Relies on std::time::SystemTime: `now` measures the system clock against
/// `UNIX_EPOCH`. Nothing can be promised of the clock's reading; a clock set
/// before the epoch reads as zero.
#[verifier::external_body]
pub fn now() -> (t: u32)
{
    match std::time::SystemTime::now().duration_since(std::time::UNIX_EPOCH) {
        Ok(d) => d.as_secs() as u32,
        Err(_) => 0,
    }
}

} // verus!
