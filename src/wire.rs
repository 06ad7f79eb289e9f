//! Fixed-width integers on the wire, in network (big-endian) order and in the
//! little-endian order of the control protocol.

use vstd::prelude::*;

verus! {

/// The two bytes of `x`, most significant first.
pub open spec fn be16(x: u16) -> Seq<u8> {
    seq![(x >> 8u16) as u8, x as u8]
}

/// The four bytes of `x`, most significant first.
pub open spec fn be32(x: u32) -> Seq<u8> {
    be16((x >> 16u32) as u16) + be16(x as u16)
}

/// The eight bytes of `x`, most significant first.
pub open spec fn be64(x: u64) -> Seq<u8> {
    be32((x >> 32u64) as u32) + be32(x as u32)
}

/// The sixteen bytes of `x`, most significant first.
pub open spec fn be128(x: u128) -> Seq<u8> {
    be64((x >> 64u128) as u64) + be64(x as u64)
}

/// The four bytes of `x`, least significant first.
pub open spec fn le32(x: u32) -> Seq<u8> {
    seq![x as u8, (x >> 8u32) as u8, (x >> 16u32) as u8, (x >> 24u32) as u8]
}

/// The big-endian `u16` stored at `s[at..at + 2]`.
pub open spec fn read_be16(s: Seq<u8>, at: int) -> u16 {
    (((s[at] as u16) << 8u16) | (s[at + 1] as u16)) as u16
}

/// The big-endian `u32` stored at `s[at..at + 4]`.
pub open spec fn read_be32(s: Seq<u8>, at: int) -> u32 {
    (((read_be16(s, at) as u32) << 16u32) | (read_be16(s, at + 2) as u32)) as u32
}

/// The big-endian `u64` stored at `s[at..at + 8]`.
pub open spec fn read_be64(s: Seq<u8>, at: int) -> u64 {
    (((read_be32(s, at) as u64) << 32u64) | (read_be32(s, at + 4) as u64)) as u64
}

/// The big-endian `u128` stored at `s[at..at + 16]`.
pub open spec fn read_be128(s: Seq<u8>, at: int) -> u128 {
    (((read_be64(s, at) as u128) << 64u128) | (read_be64(s, at + 8) as u128)) as u128
}

/// The little-endian `u32` stored at `s[at..at + 4]`.
pub open spec fn read_le32(s: Seq<u8>, at: int) -> u32 {
    ((s[at] as u32) | ((s[at + 1] as u32) << 8u32) | ((s[at + 2] as u32) << 16u32) | ((
    s[at + 3] as u32) << 24u32)) as u32
}

/// Writing a `u16` and reading it back gives the same value.
pub proof fn lemma_be16(s: Seq<u8>, at: int, x: u16)
    requires
        0 <= at,
        at + 2 <= s.len(),
        s.subrange(at, at + 2) == be16(x),
    ensures
        read_be16(s, at) == x,
{
    assert(s[at] == s.subrange(at, at + 2)[0]);
    assert(s[at + 1] == s.subrange(at, at + 2)[1]);
    assert((((((x >> 8u16) as u8) as u16) << 8u16) | ((x as u8) as u16)) == x) by (bit_vector);
}

/// Writing a `u32` and reading it back gives the same value.
pub proof fn lemma_be32(s: Seq<u8>, at: int, x: u32)
    requires
        0 <= at,
        at + 4 <= s.len(),
        s.subrange(at, at + 4) == be32(x),
    ensures
        read_be32(s, at) == x,
{
    let hi = (x >> 16u32) as u16;
    let lo = x as u16;
    assert(s.subrange(at, at + 2) =~= s.subrange(at, at + 4).subrange(0, 2));
    assert(s.subrange(at + 2, at + 4) =~= s.subrange(at, at + 4).subrange(2, 4));
    assert(be32(x).subrange(0, 2) =~= be16(hi));
    assert(be32(x).subrange(2, 4) =~= be16(lo));
    lemma_be16(s, at, hi);
    lemma_be16(s, at + 2, lo);
    assert(((((x >> 16u32) as u16) as u32) << 16u32 | ((x as u16) as u32)) == x) by (bit_vector);
}

/// Writing a `u64` and reading it back gives the same value.
pub proof fn lemma_be64(s: Seq<u8>, at: int, x: u64)
    requires
        0 <= at,
        at + 8 <= s.len(),
        s.subrange(at, at + 8) == be64(x),
    ensures
        read_be64(s, at) == x,
{
    let hi = (x >> 32u64) as u32;
    let lo = x as u32;
    assert(s.subrange(at, at + 4) =~= s.subrange(at, at + 8).subrange(0, 4));
    assert(s.subrange(at + 4, at + 8) =~= s.subrange(at, at + 8).subrange(4, 8));
    assert(be64(x).subrange(0, 4) =~= be32(hi));
    assert(be64(x).subrange(4, 8) =~= be32(lo));
    lemma_be32(s, at, hi);
    lemma_be32(s, at + 4, lo);
    assert(((((x >> 32u64) as u32) as u64) << 32u64 | ((x as u32) as u64)) == x) by (bit_vector);
}

/// Writing a `u128` and reading it back gives the same value.
pub proof fn lemma_be128(s: Seq<u8>, at: int, x: u128)
    requires
        0 <= at,
        at + 16 <= s.len(),
        s.subrange(at, at + 16) == be128(x),
    ensures
        read_be128(s, at) == x,
{
    let hi = (x >> 64u128) as u64;
    let lo = x as u64;
    assert(s.subrange(at, at + 8) =~= s.subrange(at, at + 16).subrange(0, 8));
    assert(s.subrange(at + 8, at + 16) =~= s.subrange(at, at + 16).subrange(8, 16));
    assert(be128(x).subrange(0, 8) =~= be64(hi));
    assert(be128(x).subrange(8, 16) =~= be64(lo));
    lemma_be64(s, at, hi);
    lemma_be64(s, at + 8, lo);
    assert(((((x >> 64u128) as u64) as u128) << 64u128 | ((x as u64) as u128)) == x)
        by (bit_vector);
}

/// Writing a little-endian `u32` and reading it back gives the same value.
pub proof fn lemma_le32(s: Seq<u8>, at: int, x: u32)
    requires
        0 <= at,
        at + 4 <= s.len(),
        s.subrange(at, at + 4) == le32(x),
    ensures
        read_le32(s, at) == x,
{
    assert(s[at] == s.subrange(at, at + 4)[0]);
    assert(s[at + 1] == s.subrange(at, at + 4)[1]);
    assert(s[at + 2] == s.subrange(at, at + 4)[2]);
    assert(s[at + 3] == s.subrange(at, at + 4)[3]);
    assert(((x as u8) as u32 | (((x >> 8u32) as u8) as u32) << 8u32 | (((x >> 16u32) as u8) as u32)
        << 16u32 | (((x >> 24u32) as u8) as u32) << 24u32) == x) by (bit_vector);
}

/// A read at `at + j` in `s` is the same read at `j` in the suffix of `s`
/// from `at`.
pub proof fn lemma_read_shift(s: Seq<u8>, at: int, j: int)
    requires
        0 <= at,
        0 <= j,
        at + j <= s.len(),
    ensures
        at + j + 2 <= s.len() ==> read_be16(s, at + j) == read_be16(
            s.subrange(at, s.len() as int),
            j,
        ),
        at + j + 4 <= s.len() ==> read_be32(s, at + j) == read_be32(
            s.subrange(at, s.len() as int),
            j,
        ),
        at + j + 16 <= s.len() ==> read_be128(s, at + j) == read_be128(
            s.subrange(at, s.len() as int),
            j,
        ),
        at + j + 4 <= s.len() ==> read_le32(s, at + j) == read_le32(
            s.subrange(at, s.len() as int),
            j,
        ),
{
    let t = s.subrange(at, s.len() as int);
    assert forall|k: int| 0 <= k < 16 && at + j + k < s.len() implies #[trigger] t[j + k] == s[at
        + j + k] by {}
}

proof fn lemma_be16_of_read(s: Seq<u8>, at: int)
    requires
        0 <= at,
        at + 2 <= s.len(),
    ensures
        be16(read_be16(s, at)) == s.subrange(at, at + 2),
{
    let a = s[at];
    let b = s[at + 1];
    assert((((((a as u16) << 8u16) | (b as u16)) >> 8u16) as u8 == a) && ((((a as u16) << 8u16)
        | (b as u16)) as u8 == b)) by (bit_vector);
    assert(be16(read_be16(s, at)) =~= s.subrange(at, at + 2));
}

proof fn lemma_be32_of_read(s: Seq<u8>, at: int)
    requires
        0 <= at,
        at + 4 <= s.len(),
    ensures
        be32(read_be32(s, at)) == s.subrange(at, at + 4),
{
    let x = read_be16(s, at);
    let y = read_be16(s, at + 2);
    assert((((((x as u32) << 16u32) | (y as u32)) >> 16u32) as u16 == x) && ((((x as u32)
        << 16u32) | (y as u32)) as u16 == y)) by (bit_vector);
    lemma_be16_of_read(s, at);
    lemma_be16_of_read(s, at + 2);
    assert(be32(read_be32(s, at)) =~= s.subrange(at, at + 4));
}

proof fn lemma_be64_of_read(s: Seq<u8>, at: int)
    requires
        0 <= at,
        at + 8 <= s.len(),
    ensures
        be64(read_be64(s, at)) == s.subrange(at, at + 8),
{
    let x = read_be32(s, at);
    let y = read_be32(s, at + 4);
    assert((((((x as u64) << 32u64) | (y as u64)) >> 32u64) as u32 == x) && ((((x as u64)
        << 32u64) | (y as u64)) as u32 == y)) by (bit_vector);
    lemma_be32_of_read(s, at);
    lemma_be32_of_read(s, at + 4);
    assert(be64(read_be64(s, at)) =~= s.subrange(at, at + 8));
}

/// The bytes of the value read from sixteen bytes are those bytes.
pub proof fn lemma_be128_of_read(s: Seq<u8>)
    requires
        s.len() == 16,
    ensures
        be128(read_be128(s, 0)) == s,
{
    let x = read_be64(s, 0);
    let y = read_be64(s, 8);
    assert((((((x as u128) << 64u128) | (y as u128)) >> 64u128) as u64 == x) && ((((x as u128)
        << 64u128) | (y as u128)) as u64 == y)) by (bit_vector);
    lemma_be64_of_read(s, 0);
    lemma_be64_of_read(s, 8);
    assert(be128(read_be128(s, 0)) =~= s);
}

/// Appends `x` in network order.
pub fn put_be16(buf: &mut Vec<u8>, x: u16)
    ensures
        final(buf)@ == old(buf)@ + be16(x),
{
    buf.push((x >> 8u16) as u8);
    buf.push(x as u8);
    assert(final(buf)@ =~= old(buf)@ + be16(x));
}

/// Appends `x` in network order.
pub fn put_be32(buf: &mut Vec<u8>, x: u32)
    ensures
        final(buf)@ == old(buf)@ + be32(x),
{
    put_be16(buf, (x >> 16u32) as u16);
    put_be16(buf, x as u16);
    assert(final(buf)@ =~= old(buf)@ + be32(x));
}

/// Appends `x` in network order.
pub fn put_be64(buf: &mut Vec<u8>, x: u64)
    ensures
        final(buf)@ == old(buf)@ + be64(x),
{
    put_be32(buf, (x >> 32u64) as u32);
    put_be32(buf, x as u32);
    assert(final(buf)@ =~= old(buf)@ + be64(x));
}

/// Appends `x` in network order.
pub fn put_be128(buf: &mut Vec<u8>, x: u128)
    ensures
        final(buf)@ == old(buf)@ + be128(x),
{
    put_be64(buf, (x >> 64u128) as u64);
    put_be64(buf, x as u64);
    assert(final(buf)@ =~= old(buf)@ + be128(x));
}

/// Appends `x` least significant byte first.
pub fn put_le32(buf: &mut Vec<u8>, x: u32)
    ensures
        final(buf)@ == old(buf)@ + le32(x),
{
    buf.push(x as u8);
    buf.push((x >> 8u32) as u8);
    buf.push((x >> 16u32) as u8);
    buf.push((x >> 24u32) as u8);
    assert(final(buf)@ =~= old(buf)@ + le32(x));
}

/// Reads the big-endian `u16` at `at`.
pub fn get_be16(s: &[u8], at: usize) -> (r: u16)
    requires
        at + 2 <= s@.len(),
    ensures
        r == read_be16(s@, at as int),
{
    ((s[at] as u16) << 8u16) | (s[at + 1] as u16)
}

/// Reads the big-endian `u32` at `at`.
pub fn get_be32(s: &[u8], at: usize) -> (r: u32)
    requires
        at + 4 <= s@.len(),
    ensures
        r == read_be32(s@, at as int),
{
    // The slice's length bounds `at`, so the offsets below fit in a usize.
    let _n = s.len();
    ((get_be16(s, at) as u32) << 16u32) | (get_be16(s, at + 2) as u32)
}

/// Reads the big-endian `u64` at `at`.
pub fn get_be64(s: &[u8], at: usize) -> (r: u64)
    requires
        at + 8 <= s@.len(),
    ensures
        r == read_be64(s@, at as int),
{
    // The slice's length bounds `at`, so the offsets below fit in a usize.
    let _n = s.len();
    ((get_be32(s, at) as u64) << 32u64) | (get_be32(s, at + 4) as u64)
}

/// Reads the big-endian `u128` at `at`.
pub fn get_be128(s: &[u8], at: usize) -> (r: u128)
    requires
        at + 16 <= s@.len(),
    ensures
        r == read_be128(s@, at as int),
{
    // The slice's length bounds `at`, so the offsets below fit in a usize.
    let _n = s.len();
    ((get_be64(s, at) as u128) << 64u128) | (get_be64(s, at + 8) as u128)
}

/// Reads the little-endian `u32` at `at`.
pub fn get_le32(s: &[u8], at: usize) -> (r: u32)
    requires
        at + 4 <= s@.len(),
    ensures
        r == read_le32(s@, at as int),
{
    (s[at] as u32) | ((s[at + 1] as u32) << 8u32) | ((s[at + 2] as u32) << 16u32) | ((s[at
        + 3] as u32) << 24u32)
}

} // verus!
