//! The record codec: bit-exact translation between a key-value entry and its
//! serialized form — a fixed 12-byte big-endian header (timestamp, key size,
//! value size) followed by the key bytes and the value bytes.

use vstd::prelude::*;
use crate::bytes::{be_to_u32, be_u32, copy_range, push_bytes, u32_be_bytes, u32_to_be, lemma_u32_be_round_trip, ToBytes};

verus! {

/// Size in bytes of the fixed record header: three big-endian 32-bit fields.
pub const HEADER_SIZE: usize = 12;

/// What a store operation can fail with.
#[derive(Debug, Clone, Copy, PartialEq, Eq, Structural)]
pub enum StoreError {
    /// A decode was attempted on a buffer shorter than the declared
    /// header-plus-payload length.
    TruncatedInput,
    /// A record would not fit the 32-bit offsets and sizes of the log format.
    RecordTooLarge,
}

/// One key-value entry of the log, the unit that is serialized and appended.
#[derive(Debug, PartialEq)]
pub struct KeyValueEntry {
    /// Write time, in seconds since the epoch, truncated to 32 bits.
    pub tstamp: u32,
    /// Length of `key` in bytes.
    pub ksz: u32,
    /// Length of `value` in bytes.
    pub value_sz: u32,
    /// The key payload.
    pub key: Vec<u8>,
    /// The value payload.
    pub value: Vec<u8>,
}

/// The serialized form of a record: big-endian timestamp, key size and value
/// size, then the key bytes and the value bytes.
pub open spec fn record_bytes(tstamp: u32, key: Seq<u8>, value: Seq<u8>) -> Seq<u8>
    recommends
        key.len() <= u32::MAX,
        value.len() <= u32::MAX,
{
    u32_be_bytes(tstamp) + u32_be_bytes(key.len() as u32) + u32_be_bytes(value.len() as u32) + key
        + value
}

/// Whether a buffer holds a complete record: at least a full header, and the
/// declared key and value sizes within the remaining length.
pub open spec fn decode_ok(b: Seq<u8>) -> bool {
    &&& b.len() >= HEADER_SIZE
    &&& HEADER_SIZE + decoded_ksz(b) + decoded_vsz(b) <= b.len()
}

/// The timestamp field declared by a buffer's header.
pub open spec fn decoded_tstamp(b: Seq<u8>) -> u32 {
    be_u32(b.subrange(0, 4))
}

/// The key size declared by a buffer's header.
pub open spec fn decoded_ksz(b: Seq<u8>) -> int {
    be_u32(b.subrange(4, 8)) as int
}

/// The value size declared by a buffer's header.
pub open spec fn decoded_vsz(b: Seq<u8>) -> int {
    be_u32(b.subrange(8, 12)) as int
}

/// The key bytes of the record a buffer holds.
pub open spec fn decoded_key(b: Seq<u8>) -> Seq<u8> {
    b.subrange(HEADER_SIZE as int, HEADER_SIZE + decoded_ksz(b))
}

/// The value bytes of the record a buffer holds.
pub open spec fn decoded_value(b: Seq<u8>) -> Seq<u8> {
    b.subrange(HEADER_SIZE + decoded_ksz(b), HEADER_SIZE + decoded_ksz(b) + decoded_vsz(b))
}

impl KeyValueEntry {
    /// The size fields match the payload lengths; every entry the library
    /// constructs satisfies this.
    pub open spec fn wf(&self) -> bool {
        &&& self.ksz == self.key@.len()
        &&& self.value_sz == self.value@.len()
    }

    /// The serialized form of this entry.
    pub open spec fn spec_encode(&self) -> Seq<u8> {
        record_bytes(self.tstamp, self.key@, self.value@)
    }

    /// Builds an entry for one write: converts the key and the value to bytes
    /// and stamps the entry with the given write time.
    pub fn new<K: ToBytes, V: ToBytes>(tstamp: u32, key: K, value: V) -> (e: Self)
        requires
            key.bytes_spec().len() <= u32::MAX,
            value.bytes_spec().len() <= u32::MAX,
        ensures
            e.wf(),
            e.tstamp == tstamp,
            e.key@ == key.bytes_spec(),
            e.value@ == value.bytes_spec(),
    {
        let key = key.to_bytes();
        let value = value.to_bytes();
        let ksz = key.len() as u32;
        let value_sz = value.len() as u32;
        KeyValueEntry { tstamp, ksz, value_sz, key, value }
    }

    /// Offset of the value payload within this entry's serialized form:
    /// header size plus key length.
    pub fn value_offset(&self) -> (r: usize)
        requires
            HEADER_SIZE + self.key@.len() <= usize::MAX,
        ensures
            r == HEADER_SIZE + self.key@.len(),
    {
        HEADER_SIZE + self.key.len()
    }

    /// Serializes the entry: always succeeds for sizes representable in 32
    /// bits, and produces exactly `HEADER_SIZE + ksz + value_sz` bytes.
    pub fn encode(&self) -> (r: Vec<u8>)
        requires
            self.wf(),
        ensures
            r@ == self.spec_encode(),
            r@.len() == HEADER_SIZE + self.key@.len() + self.value@.len(),
    {
        let mut buf: Vec<u8> = Vec::new();
        let header_t = u32_to_be(self.tstamp);
        let header_k = u32_to_be(self.ksz);
        let header_v = u32_to_be(self.value_sz);
        push_bytes(&mut buf, header_t.as_slice());
        push_bytes(&mut buf, header_k.as_slice());
        push_bytes(&mut buf, header_v.as_slice());
        push_bytes(&mut buf, self.key.as_slice());
        push_bytes(&mut buf, self.value.as_slice());
        proof {
            assert(buf@ =~= self.spec_encode());
        }
        buf
    }

    /// Deserializes an entry from the front of a buffer. Fails with
    /// `TruncatedInput` when fewer than `HEADER_SIZE` bytes are available, or
    /// when the declared key and value sizes exceed the remaining length;
    /// bytes past the declared record end are ignored.
    pub fn decode(bytes: &[u8]) -> (r: Result<Self, StoreError>)
        ensures
            match r {
                Ok(e) => {
                    &&& decode_ok(bytes@)
                    &&& e.wf()
                    &&& e.tstamp == decoded_tstamp(bytes@)
                    &&& e.key@ == decoded_key(bytes@)
                    &&& e.value@ == decoded_value(bytes@)
                },
                Err(err) => !decode_ok(bytes@) && err == StoreError::TruncatedInput,
            },
    {
        let blen = bytes.len();
        if blen < HEADER_SIZE {
            return Err(StoreError::TruncatedInput);
        }
        let tstamp = be_to_u32(
            *vstd::slice::slice_index_get(bytes, 0),
            *vstd::slice::slice_index_get(bytes, 1),
            *vstd::slice::slice_index_get(bytes, 2),
            *vstd::slice::slice_index_get(bytes, 3),
        );
        let ksz = be_to_u32(
            *vstd::slice::slice_index_get(bytes, 4),
            *vstd::slice::slice_index_get(bytes, 5),
            *vstd::slice::slice_index_get(bytes, 6),
            *vstd::slice::slice_index_get(bytes, 7),
        );
        let value_sz = be_to_u32(
            *vstd::slice::slice_index_get(bytes, 8),
            *vstd::slice::slice_index_get(bytes, 9),
            *vstd::slice::slice_index_get(bytes, 10),
            *vstd::slice::slice_index_get(bytes, 11),
        );
        proof {
            assert(seq![bytes@[0], bytes@[1], bytes@[2], bytes@[3]] =~= bytes@.subrange(0, 4));
            assert(seq![bytes@[4], bytes@[5], bytes@[6], bytes@[7]] =~= bytes@.subrange(4, 8));
            assert(seq![bytes@[8], bytes@[9], bytes@[10], bytes@[11]] =~= bytes@.subrange(8, 12));
        }
        if (HEADER_SIZE as u64) + (ksz as u64) + (value_sz as u64) > (blen as u64) {
            return Err(StoreError::TruncatedInput);
        }
        let key = copy_range(bytes, HEADER_SIZE, ksz as usize);
        let value = copy_range(bytes, HEADER_SIZE + ksz as usize, value_sz as usize);
        Ok(KeyValueEntry { tstamp, ksz, value_sz, key, value })
    }
}

/// Law: the encoded form of a record lays its fields out at fixed offsets —
/// the header fields at offsets 0, 4 and 8, the key at `HEADER_SIZE`, the
/// value right after the key — and its length is exactly
/// `HEADER_SIZE + ksz + value_sz`.
pub proof fn lemma_encode_layout(e: KeyValueEntry)
    requires
        e.wf(),
    ensures
        e.spec_encode().len() == HEADER_SIZE + e.key@.len() + e.value@.len(),
        e.spec_encode().subrange(0, 4) == u32_be_bytes(e.tstamp),
        e.spec_encode().subrange(4, 8) == u32_be_bytes(e.ksz),
        e.spec_encode().subrange(8, 12) == u32_be_bytes(e.value_sz),
        e.spec_encode().subrange(HEADER_SIZE as int, HEADER_SIZE + e.key@.len()) == e.key@,
        e.spec_encode().subrange(
            HEADER_SIZE + e.key@.len(),
            HEADER_SIZE + e.key@.len() + e.value@.len(),
        ) == e.value@,
{
    let b = e.spec_encode();
    assert(b.subrange(0, 4) =~= u32_be_bytes(e.tstamp));
    assert(b.subrange(4, 8) =~= u32_be_bytes(e.ksz));
    assert(b.subrange(8, 12) =~= u32_be_bytes(e.value_sz));
    assert(b.subrange(HEADER_SIZE as int, HEADER_SIZE + e.key@.len()) =~= e.key@);
    assert(b.subrange(HEADER_SIZE + e.key@.len(), HEADER_SIZE + e.key@.len() + e.value@.len())
        =~= e.value@);
}

/// Law: decoding an encoded record yields the record back — for every
/// well-formed entry, its serialized form decodes successfully and every
/// decoded field equals the original.
pub proof fn lemma_encode_decode_round_trip(e: KeyValueEntry)
    requires
        e.wf(),
    ensures
        decode_ok(e.spec_encode()),
        decoded_tstamp(e.spec_encode()) == e.tstamp,
        decoded_ksz(e.spec_encode()) == e.ksz,
        decoded_vsz(e.spec_encode()) == e.value_sz,
        decoded_key(e.spec_encode()) == e.key@,
        decoded_value(e.spec_encode()) == e.value@,
{
    lemma_encode_layout(e);
    lemma_u32_be_round_trip(e.tstamp);
    lemma_u32_be_round_trip(e.ksz);
    lemma_u32_be_round_trip(e.value_sz);
}

} // verus!
