//! Searching and reading in byte buffers.
use byteorder::ByteOrder;
use byteorder::LittleEndian;
use vstd::prelude::*;

verus! {

/// `needle` occurs in `hay` at index `i`.
pub open spec fn matches_at(hay: Seq<u8>, needle: Seq<u8>, i: int) -> bool {
    0 <= i && i + needle.len() <= hay.len() && hay.subrange(i, i + needle.len()) == needle
}

/// The first index at or after `from` where `needle` occurs in `hay`;
/// an empty `needle` is found nowhere.
pub open spec fn first_match_from(hay: Seq<u8>, needle: Seq<u8>, from: int) -> Option<int>
    decreases hay.len() - from,
{
    if from < 0 || needle.len() == 0 || from + needle.len() > hay.len() {
        None
    } else if matches_at(hay, needle, from) {
        Some(from)
    } else {
        first_match_from(hay, needle, from + 1)
    }
}

/// The first index where `needle` occurs in `hay`.
pub open spec fn first_match(hay: Seq<u8>, needle: Seq<u8>) -> Option<int> {
    first_match_from(hay, needle, 0)
}

/// What `first_match_from` finds is an occurrence, and the earliest one.
pub proof fn lemma_first_match_from(hay: Seq<u8>, needle: Seq<u8>, from: int)
    requires
        0 <= from,
    ensures
        match first_match_from(hay, needle, from) {
            Some(i) => from <= i && matches_at(hay, needle, i) && forall|k: int|
                from <= k < i ==> !matches_at(hay, needle, k),
            None => needle.len() == 0 || forall|k: int|
                from <= k ==> !matches_at(hay, needle, k),
        },
    decreases hay.len() - from,
{
    if needle.len() > 0 && from + needle.len() <= hay.len() && !matches_at(hay, needle, from) {
        lemma_first_match_from(hay, needle, from + 1);
    }
}

/// Whether `needle` occurs in `hay` at index `i`.
pub fn occurs_at(hay: &[u8], needle: &[u8], i: usize) -> (r: bool)
    ensures
        r == matches_at(hay@, needle@, i as int),
{
    let n: usize = needle.len();
    let h: usize = hay.len();
    if n > h || i > h - n {
        return false;
    }
    let mut k: usize = 0;
    while k < n
        invariant
            k <= n,
            n == needle@.len(),
            h == hay@.len(),
            i + n <= h,
            forall|j: int| 0 <= j < k ==> hay@[i + j] == needle@[j],
        decreases n - k,
    {
        if hay[i + k] != needle[k] {
            assert(hay@.subrange(i as int, i + n)[k as int] == hay@[i + k]);
            return false;
        }
        k += 1;
    }
    assert(hay@.subrange(i as int, i + n) =~= needle@);
    true
}

/// The first index where `needle` occurs in `hay`.
pub fn find_subslice(hay: &[u8], needle: &[u8]) -> (r: Option<usize>)
    ensures
        match r {
            Some(i) => first_match(hay@, needle@) == Some(i as int),
            None => first_match(hay@, needle@) is None,
        },
{
    let n: usize = needle.len();
    let h: usize = hay.len();
    if n == 0 || n > h {
        return None;
    }
    let last: usize = h - n;
    let mut i: usize = 0;
    while i <= last
        invariant
            i <= last + 1,
            last == h - n,
            0 < n == needle@.len(),
            h == hay@.len(),
            first_match(hay@, needle@) == first_match_from(hay@, needle@, i as int),
        decreases last + 1 - i,
    {
        if occurs_at(hay, needle, i) {
            return Some(i);
        }
        i += 1;
    }
    None
}

/// The number that two bytes spell, least significant first.
pub open spec fn le_u16(b: Seq<u8>) -> int {
    b[0] as int + 256 * (b[1] as int)
}

/// The number that four bytes spell, least significant first.
pub open spec fn le_u32(b: Seq<u8>) -> int {
    b[0] as int + 256 * (b[1] as int) + 65536 * (b[2] as int) + 16777216 * (b[3] as int)
}

/// The number that eight bytes spell, least significant first.
pub open spec fn le_u64(b: Seq<u8>) -> int {
    le_u32(b) + 4294967296 * le_u32(b.subrange(4, 8))
}

/// Reads a little-endian `u16` from the first two bytes of `buf`, by
/// `byteorder`'s `LittleEndian::read_u16`. That function panics on a
/// shorter buffer, which `requires` rules out.
#[verifier::external_body]
pub(crate) fn read_u16_le(buf: &[u8]) -> (r: u16)
    requires
        buf@.len() >= 2,
    ensures
        r as int == le_u16(buf@),
{
    LittleEndian::read_u16(buf)
}

/// Reads a little-endian `u32` from the first four bytes of `buf`, by
/// `byteorder`'s `LittleEndian::read_u32`. That function panics on a
/// shorter buffer, which `requires` rules out.
#[verifier::external_body]
pub(crate) fn read_u32_le(buf: &[u8]) -> (r: u32)
    requires
        buf@.len() >= 4,
    ensures
        r as int == le_u32(buf@),
{
    LittleEndian::read_u32(buf)
}

/// Reads a little-endian `u64` from the first eight bytes of `buf`, by
/// `byteorder`'s `LittleEndian::read_u64`. That function panics on a
/// shorter buffer, which `requires` rules out.
#[verifier::external_body]
pub(crate) fn read_u64_le(buf: &[u8]) -> (r: u64)
    requires
        buf@.len() >= 8,
    ensures
        r as int == le_u64(buf@),
{
    LittleEndian::read_u64(buf)
}

/// The bytes `buf[from..to]`, copied.
pub fn copy_range(buf: &[u8], from: usize, to: usize) -> (r: Vec<u8>)
    requires
        from <= to <= buf@.len(),
    ensures
        r@ == buf@.subrange(from as int, to as int),
{
    let mut r: Vec<u8> = Vec::new();
    let mut i: usize = from;
    while i < to
        invariant
            from <= i <= to <= buf@.len(),
            r@ == buf@.subrange(from as int, i as int),
        decreases to - i,
    {
        r.push(buf[i]);
        i += 1;
    }
    r
}

/// Whether two byte slices hold the same sequence.
pub fn bytes_eq(a: &[u8], b: &[u8]) -> (r: bool)
    ensures
        r == (a@ == b@),
{
    if a.len() != b.len() {
        return false;
    }
    let mut i: usize = 0;
    while i < a.len()
        invariant
            i <= a@.len(),
            a@.len() == b@.len(),
            forall|k: int| 0 <= k < i ==> a@[k] == b@[k],
        decreases a@.len() - i,
    {
        if a[i] != b[i] {
            return false;
        }
        i += 1;
    }
    assert(a@ =~= b@);
    true
}

} // verus!
