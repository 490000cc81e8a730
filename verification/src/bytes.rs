//! Uniform byte conversion for the representations a store accepts as keys and
//! values: unsigned 32-bit integers (big-endian), UTF-8 text, and raw bytes.

use vstd::prelude::*;
use vstd::slice::slice_to_vec;
use vstd::string::StringSliceAdditionalSpecFns;

verus! {

/// The four big-endian bytes of a 32-bit integer, most significant first.
pub open spec fn u32_be_bytes(x: u32) -> Seq<u8> {
    seq![
        (x / 0x1000000) as u8,
        ((x / 0x10000) % 0x100) as u8,
        ((x / 0x100) % 0x100) as u8,
        (x % 0x100) as u8,
    ]
}

/// The 32-bit integer read big-endian from a sequence of four bytes.
pub open spec fn be_u32(b: Seq<u8>) -> u32
    recommends
        b.len() == 4,
{
    ((b[0] as int) * 0x1000000 + (b[1] as int) * 0x10000 + (b[2] as int) * 0x100
        + (b[3] as int)) as u32
}

/// Reading back the four big-endian bytes of an integer yields the integer.
pub proof fn lemma_u32_be_round_trip(x: u32)
    ensures
        be_u32(u32_be_bytes(x)) == x,
{
    assert(x / 0x1000000 < 0x100 && (x / 0x10000) % 0x100 < 0x100 && (x / 0x100) % 0x100 < 0x100
        && x % 0x100 < 0x100) by (bit_vector);
    assert((x / 0x1000000) * 0x1000000 + ((x / 0x10000) % 0x100) * 0x10000 + ((x / 0x100) % 0x100)
        * 0x100 + x % 0x100 == x) by (bit_vector);
}

/// Serializes a 32-bit integer as four big-endian bytes.
pub fn u32_to_be(x: u32) -> (r: Vec<u8>)
    ensures
        r@ == u32_be_bytes(x),
{
    let mut r: Vec<u8> = Vec::new();
    r.push((x / 0x1000000) as u8);
    r.push(((x / 0x10000) % 0x100) as u8);
    r.push(((x / 0x100) % 0x100) as u8);
    r.push((x % 0x100) as u8);
    proof {
        assert(r@ =~= u32_be_bytes(x));
    }
    r
}

/// Reads a 32-bit integer from four big-endian bytes.
pub fn be_to_u32(b0: u8, b1: u8, b2: u8, b3: u8) -> (x: u32)
    ensures
        x == be_u32(seq![b0, b1, b2, b3]),
{
    (b0 as u32) * 0x1000000 + (b1 as u32) * 0x10000 + (b2 as u32) * 0x100 + (b3 as u32)
}

/// Appends all bytes of a slice to the end of a buffer.
pub fn push_bytes(buf: &mut Vec<u8>, data: &[u8])
    ensures
        final(buf)@ == old(buf)@ + data@,
{
    let ghost buf0: Seq<u8> = buf@;
    let mut i: usize = 0;
    while i < data.len()
        invariant
            i <= data@.len(),
            buf@ == buf0 + data@.subrange(0, i as int),
        decreases data@.len() - i,
    {
        let b = *vstd::slice::slice_index_get(data, i);
        buf.push(b);
        proof {
            assert(buf0 + data@.subrange(0, i as int) + seq![data@[i as int]] =~= buf0
                + data@.subrange(0, i + 1));
        }
        i += 1;
    }
    proof {
        assert(data@.subrange(0, data@.len() as int) =~= data@);
    }
}

/// Copies the byte range `[start, start + count)` out of a slice.
pub fn copy_range(data: &[u8], start: usize, count: usize) -> (r: Vec<u8>)
    requires
        start + count <= data@.len(),
    ensures
        r@ == data@.subrange(start as int, start + count),
{
    let dlen = data.len();
    let mut r: Vec<u8> = Vec::new();
    let mut i: usize = 0;
    while i < count
        invariant
            i <= count,
            start + count <= dlen,
            dlen == data@.len(),
            r@ == data@.subrange(start as int, start + i),
        decreases count - i,
    {
        let b = *vstd::slice::slice_index_get(data, start + i);
        r.push(b);
        proof {
            assert(data@.subrange(start as int, start + i) + seq![data@[start + i]] =~= data@
                .subrange(start as int, start + i + 1));
        }
        i += 1;
    }
    r
}

/// Compares two byte slices for equality of their contents.
pub fn bytes_eq(a: &[u8], b: &[u8]) -> (r: bool)
    ensures
        r <==> a@ == b@,
{
    if a.len() != b.len() {
        proof {
            assert(a@.len() != b@.len());
        }
        return false;
    }
    let mut i: usize = 0;
    while i < a.len()
        invariant
            i <= a@.len(),
            a@.len() == b@.len(),
            forall|j: int| 0 <= j < i ==> a@[j] == b@[j],
        decreases a@.len() - i,
    {
        let x = *vstd::slice::slice_index_get(a, i);
        let y = *vstd::slice::slice_index_get(b, i);
        if x != y {
            proof {
                assert(a@[i as int] != b@[i as int]);
            }
            return false;
        }
        i += 1;
    }
    proof {
        assert(a@ =~= b@);
    }
    true
}

/// Makes an owned copy of a byte vector.
pub fn clone_bytes(v: &Vec<u8>) -> (r: Vec<u8>)
    ensures
        r@ == v@,
{
    let r = v.clone();
    proof {
        assert(r@ =~= v@);
    }
    r
}

/// A value that can serve as a key or a value of the store, by conversion to
/// its byte representation. Representations that produce the same bytes name
/// the same logical key.
pub trait ToBytes: Sized {
    /// The byte representation, as the specification-level sequence.
    spec fn bytes_spec(&self) -> Seq<u8>;

    /// Converts the value to its byte representation.
    fn to_bytes(self) -> (r: Vec<u8>)
        ensures
            r@ == self.bytes_spec(),
    ;
}

impl ToBytes for u32 {
    open spec fn bytes_spec(&self) -> Seq<u8> {
        u32_be_bytes(*self)
    }

    fn to_bytes(self) -> (r: Vec<u8>) {
        u32_to_be(self)
    }
}

impl ToBytes for &str {
    open spec fn bytes_spec(&self) -> Seq<u8> {
        self.spec_bytes()
    }

    fn to_bytes(self) -> (r: Vec<u8>) {
        slice_to_vec(self.as_bytes())
    }
}

impl ToBytes for Vec<u8> {
    open spec fn bytes_spec(&self) -> Seq<u8> {
        self@
    }

    fn to_bytes(self) -> (r: Vec<u8>) {
        self
    }
}

} // verus!
