use vstd::arithmetic::div_mod::lemma_fundamental_div_mod_converse;
use vstd::prelude::*;

verus! {

/// Little-endian encoding of a 16-bit value.
pub open spec fn le16(v: u16) -> Seq<u8> {
    seq![(v % 256) as u8, (v / 256) as u8]
}

/// Little-endian encoding of a 32-bit value.
pub open spec fn le32(v: u32) -> Seq<u8> {
    seq![
        (v % 256) as u8,
        ((v / 256) % 256) as u8,
        ((v / 65536) % 256) as u8,
        (v / 16777216) as u8,
    ]
}

/// The value of two little-endian bytes.
pub open spec fn from_le16(b: Seq<u8>) -> u16
    recommends
        b.len() >= 2,
{
    (b[0] as int + b[1] as int * 256) as u16
}

/// The value of four little-endian bytes.
pub open spec fn from_le32(b: Seq<u8>) -> u32
    recommends
        b.len() >= 4,
{
    (b[0] as int + b[1] as int * 256 + b[2] as int * 65536 + b[3] as int * 16777216) as u32
}

/// `s` with the bytes `b` written over it from position `at`.
pub open spec fn splice(s: Seq<u8>, at: int, b: Seq<u8>) -> Seq<u8> {
    s.subrange(0, at) + b + s.subrange(at + b.len(), s.len() as int)
}

pub proof fn lemma_le16_round_trip(v: u16)
    ensures
        from_le16(le16(v)) == v,
{
}

pub proof fn lemma_le32_round_trip(v: u32)
    ensures
        from_le32(le32(v)) == v,
{
}

pub proof fn lemma_from_le32_round_trip(b: Seq<u8>)
    requires
        b.len() == 4,
    ensures
        le32(from_le32(b)) =~= b,
{
    let b0 = b[0] as int;
    let b1 = b[1] as int;
    let b2 = b[2] as int;
    let b3 = b[3] as int;
    let v = b0 + b1 * 256 + b2 * 65536 + b3 * 16777216;
    assert(from_le32(b) as int == v);
    lemma_fundamental_div_mod_converse(v, 256, b1 + b2 * 256 + b3 * 65536, b0);
    lemma_fundamental_div_mod_converse(v / 256, 256, b2 + b3 * 256, b1);
    lemma_fundamental_div_mod_converse(v, 65536, b2 + b3 * 256, b0 + b1 * 256);
    lemma_fundamental_div_mod_converse(v / 65536, 256, b3, b2);
    lemma_fundamental_div_mod_converse(v, 16777216, b3, b0 + b1 * 256 + b2 * 65536);
}

/// Bytes outside the written range keep their value; the written range holds `b`.
pub proof fn lemma_splice(s: Seq<u8>, at: int, b: Seq<u8>)
    requires
        0 <= at,
        at + b.len() <= s.len(),
    ensures
        splice(s, at, b).len() == s.len(),
        splice(s, at, b).subrange(at, at + b.len()) =~= b,
        forall|i: int|
            0 <= i < s.len() && !(at <= i < at + b.len()) ==> #[trigger] splice(s, at, b)[i]
                == s[i],
        forall|i: int| at <= i < at + b.len() ==> #[trigger] splice(s, at, b)[i] == b[i - at],
{
}

/// A copy of `v`.
pub fn copy_bytes(v: &Vec<u8>) -> (r: Vec<u8>)
    ensures
        r@ == v@,
{
    let mut r: Vec<u8> = Vec::new();
    let mut i: usize = 0;
    while i < v.len()
        invariant
            0 <= i <= v@.len(),
            r@ =~= v@.subrange(0, i as int),
        decreases v@.len() - i,
    {
        r.push(v[i]);
        i = i + 1;
    }
    assert(r@ =~= v@);
    r
}

/// Reads a little-endian `u16` at `at`.
pub fn read_u16(data: &[u8], at: usize) -> (r: u16)
    requires
        at + 2 <= data@.len(),
    ensures
        r == from_le16(data@.subrange(at as int, at + 2)),
{
    let lo = data[at] as u16;
    let hi = data[at + 1] as u16;
    lo + hi * 256
}

/// Reads a little-endian `u32` at `at`.
pub fn read_u32(data: &[u8], at: usize) -> (r: u32)
    requires
        at + 4 <= data@.len(),
    ensures
        r == from_le32(data@.subrange(at as int, at + 4)),
{
    let b0 = data[at] as u32;
    let b1 = data[at + 1] as u32;
    let b2 = data[at + 2] as u32;
    let b3 = data[at + 3] as u32;
    b0 + b1 * 256 + b2 * 65536 + b3 * 16777216
}

/// Writes the bytes `b` into `data` from position `at`.
pub fn write_bytes(data: &mut Vec<u8>, at: usize, b: &[u8])
    requires
        at + b@.len() <= old(data)@.len(),
    ensures
        final(data)@ == splice(old(data)@, at as int, b@),
{
    let ghost start = data@;
    let n = data.len();
    let mut i: usize = 0;
    while i < b.len()
        invariant
            0 <= i <= b@.len(),
            at + b@.len() <= data@.len(),
            data@.len() == start.len(),
            data@.len() == n,
            data@ =~= splice(start, at as int, b@.subrange(0, i as int)),
        decreases b@.len() - i,
    {
        data.set(at + i, b[i]);
        i = i + 1;
        assert(data@ =~= splice(start, at as int, b@.subrange(0, i as int)));
    }
    assert(b@.subrange(0, i as int) =~= b@);
}

/// Writes `v` as two little-endian bytes at `at`.
pub fn write_u16(data: &mut Vec<u8>, at: usize, v: u16)
    requires
        at + 2 <= old(data)@.len(),
    ensures
        final(data)@ == splice(old(data)@, at as int, le16(v)),
{
    let b = [(v % 256) as u8, (v / 256) as u8];
    assert(b@ =~= le16(v));
    write_bytes(data, at, &b);
}

/// Writes `v` as four little-endian bytes at `at`.
pub fn write_u32(data: &mut Vec<u8>, at: usize, v: u32)
    requires
        at + 4 <= old(data)@.len(),
    ensures
        final(data)@ == splice(old(data)@, at as int, le32(v)),
{
    let b = [(v % 256) as u8, ((v / 256) % 256) as u8, ((v / 65536) % 256) as u8, (v / 16777216) as u8];
    assert(b@ =~= le32(v));
    write_bytes(data, at, &b);
}

} // verus!
