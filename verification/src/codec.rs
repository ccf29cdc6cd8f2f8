//! Big-endian encoding of the integer fields that OSPF packets and LSAs carry.
use vstd::prelude::*;

verus! {

/// The two bytes of `x`, most significant first.
pub open spec fn be16(x: u16) -> Seq<u8> {
    seq![(x / 0x100) as u8, (x % 0x100) as u8]
}

/// The four bytes of `x`, most significant first.
pub open spec fn be32(x: u32) -> Seq<u8> {
    seq![
        (x / 0x100_0000) as u8,
        (x / 0x1_0000 % 0x100) as u8,
        (x / 0x100 % 0x100) as u8,
        (x % 0x100) as u8,
    ]
}

/// The eight bytes of `x`, most significant first.
pub open spec fn be64(x: u64) -> Seq<u8> {
    be32((x / 0x1_0000_0000) as u32) + be32((x % 0x1_0000_0000) as u32)
}

/// The two bytes of `x`, least significant first.
pub open spec fn le16(x: u16) -> Seq<u8> {
    seq![(x % 0x100) as u8, (x / 0x100) as u8]
}

/// The four bytes of `x`, least significant first.
pub open spec fn le32(x: u32) -> Seq<u8> {
    seq![
        (x % 0x100) as u8,
        (x / 0x100 % 0x100) as u8,
        (x / 0x1_0000 % 0x100) as u8,
        (x / 0x100_0000) as u8,
    ]
}

/// The eight bytes of `x`, least significant first.
pub open spec fn le64(x: u64) -> Seq<u8> {
    le32((x % 0x1_0000_0000) as u32) + le32((x / 0x1_0000_0000) as u32)
}

/// The big-endian `u16` that starts at `i` in `s`.
pub open spec fn get16(s: Seq<u8>, i: int) -> u16 {
    (s[i] * 0x100 + s[i + 1]) as u16
}

/// The big-endian `u32` that starts at `i` in `s`.
pub open spec fn get32(s: Seq<u8>, i: int) -> u32 {
    (s[i] * 0x100_0000 + s[i + 1] * 0x1_0000 + s[i + 2] * 0x100 + s[i + 3]) as u32
}

/// The big-endian `u64` that starts at `i` in `s`.
pub open spec fn get64(s: Seq<u8>, i: int) -> u64 {
    (get32(s, i) * 0x1_0000_0000 + get32(s, i + 4)) as u64
}

pub proof fn lemma_get16_be16(s: Seq<u8>, i: int, x: u16)
    requires
        0 <= i,
        i + 2 <= s.len(),
        s.subrange(i, i + 2) == be16(x),
    ensures
        get16(s, i) == x,
{
    assert(s[i] == be16(x)[0]);
    assert(s[i + 1] == be16(x)[1]);
}

pub proof fn lemma_get32_be32(s: Seq<u8>, i: int, x: u32)
    requires
        0 <= i,
        i + 4 <= s.len(),
        s.subrange(i, i + 4) == be32(x),
    ensures
        get32(s, i) == x,
{
    assert(s[i] == be32(x)[0]);
    assert(s[i + 1] == be32(x)[1]);
    assert(s[i + 2] == be32(x)[2]);
    assert(s[i + 3] == be32(x)[3]);
}

pub proof fn lemma_get64_be64(s: Seq<u8>, i: int, x: u64)
    requires
        0 <= i,
        i + 8 <= s.len(),
        s.subrange(i, i + 8) == be64(x),
    ensures
        get64(s, i) == x,
{
    assert(s.subrange(i, i + 4) == s.subrange(i, i + 8).subrange(0, 4));
    assert(s.subrange(i + 4, i + 8) == s.subrange(i, i + 8).subrange(4, 8));
    assert(be64(x).subrange(0, 4) == be32((x / 0x1_0000_0000) as u32));
    assert(be64(x).subrange(4, 8) == be32((x % 0x1_0000_0000) as u32));
    lemma_get32_be32(s, i, (x / 0x1_0000_0000) as u32);
    lemma_get32_be32(s, i + 4, (x % 0x1_0000_0000) as u32);
}

/// Appends `x` in big-endian order.
pub fn push_be16(v: &mut Vec<u8>, x: u16)
    ensures
        final(v)@ == old(v)@ + be16(x),
{
    v.push((x / 0x100) as u8);
    v.push((x % 0x100) as u8);
}

/// Appends `x` in big-endian order.
pub fn push_be32(v: &mut Vec<u8>, x: u32)
    ensures
        final(v)@ == old(v)@ + be32(x),
{
    v.push((x / 0x100_0000) as u8);
    v.push((x / 0x1_0000 % 0x100) as u8);
    v.push((x / 0x100 % 0x100) as u8);
    v.push((x % 0x100) as u8);
}

/// Appends `x` in big-endian order.
pub fn push_be64(v: &mut Vec<u8>, x: u64)
    ensures
        final(v)@ == old(v)@ + be64(x),
{
    push_be32(v, (x / 0x1_0000_0000) as u32);
    push_be32(v, (x % 0x1_0000_0000) as u32);
}

/// Appends `x` in little-endian order.
pub fn push_le16(v: &mut Vec<u8>, x: u16)
    ensures
        final(v)@ == old(v)@ + le16(x),
{
    v.push((x % 0x100) as u8);
    v.push((x / 0x100) as u8);
}

/// Appends `x` in little-endian order.
pub fn push_le32(v: &mut Vec<u8>, x: u32)
    ensures
        final(v)@ == old(v)@ + le32(x),
{
    v.push((x % 0x100) as u8);
    v.push((x / 0x100 % 0x100) as u8);
    v.push((x / 0x1_0000 % 0x100) as u8);
    v.push((x / 0x100_0000) as u8);
}

/// Appends `x` in little-endian order.
pub fn push_le64(v: &mut Vec<u8>, x: u64)
    ensures
        final(v)@ == old(v)@ + le64(x),
{
    push_le32(v, (x % 0x1_0000_0000) as u32);
    push_le32(v, (x / 0x1_0000_0000) as u32);
}

/// Appends all of `bytes`.
pub fn push_all(v: &mut Vec<u8>, bytes: &Vec<u8>)
    ensures
        final(v)@ == old(v)@ + bytes@,
{
    let ghost start = v@;
    let mut i: usize = 0;
    while i < bytes.len()
        invariant
            i <= bytes.len(),
            v@ == start + bytes@.subrange(0, i as int),
        decreases bytes.len() - i,
    {
        v.push(bytes[i]);
        i = i + 1;
        assert(bytes@.subrange(0, i as int) == bytes@.subrange(0, i - 1) + seq![bytes@[i - 1]]);
    }
    assert(bytes@.subrange(0, i as int) == bytes@);
}

/// Reads the big-endian `u16` at `i`.
pub fn read_be16(s: &[u8], i: usize) -> (r: u16)
    requires
        i + 2 <= s@.len(),
    ensures
        r == get16(s@, i as int),
{
    (s[i] as u16) * 0x100 + (s[i + 1] as u16)
}

/// Reads the big-endian `u32` at `i`.
pub fn read_be32(s: &[u8], i: usize) -> (r: u32)
    requires
        i + 4 <= s@.len(),
    ensures
        r == get32(s@, i as int),
{
    (s[i] as u32) * 0x100_0000 + (s[i + 1] as u32) * 0x1_0000 + (s[i + 2] as u32) * 0x100 + (
    s[i + 3] as u32)
}

/// Reads the big-endian `u64` at `i`.
pub fn read_be64(s: &[u8], i: usize) -> (r: u64)
    requires
        i + 8 <= s@.len(),
    ensures
        r == get64(s@, i as int),
{
    let n = s.len();
    let hi = read_be32(s, i);
    let lo = read_be32(s, i + 4);
    (hi as u64) * 0x1_0000_0000 + (lo as u64)
}

/// The wire form of a list of 32-bit words.
pub open spec fn words_bytes(w: Seq<u32>) -> Seq<u8>
    decreases w.len(),
{
    if w.len() == 0 {
        Seq::empty()
    } else {
        words_bytes(w.drop_last()) + be32(w.last())
    }
}

/// The `n` big-endian words that start at `i` in `s`.
pub open spec fn get_words(s: Seq<u8>, i: int, n: nat) -> Seq<u32> {
    Seq::new(n, |k: int| get32(s, i + 4 * k))
}

pub proof fn lemma_words_bytes_len(w: Seq<u32>)
    ensures
        words_bytes(w).len() == 4 * w.len(),
    decreases w.len(),
{
    if w.len() > 0 {
        lemma_words_bytes_len(w.drop_last());
    }
}

pub proof fn lemma_words_bytes_index(w: Seq<u32>, k: int)
    requires
        0 <= k < w.len(),
    ensures
        words_bytes(w).subrange(4 * k, 4 * k + 4) == be32(w[k]),
    decreases w.len(),
{
    lemma_words_bytes_len(w.drop_last());
    if k < w.len() - 1 {
        lemma_words_bytes_index(w.drop_last(), k);
        assert(words_bytes(w).subrange(4 * k, 4 * k + 4) == words_bytes(w.drop_last()).subrange(
            4 * k,
            4 * k + 4,
        ));
    } else {
        assert(words_bytes(w).subrange(4 * k, 4 * k + 4) == be32(w.last()));
    }
}

/// Words written at `i` are read back at `i`.
pub proof fn lemma_get_words(s: Seq<u8>, i: int, w: Seq<u32>)
    requires
        0 <= i,
        i + 4 * w.len() <= s.len(),
        s.subrange(i, i + 4 * w.len()) == words_bytes(w),
    ensures
        get_words(s, i, w.len()) == w,
{
    lemma_words_bytes_len(w);
    assert forall|k: int| 0 <= k < w.len() implies get32(s, i + 4 * k) == w[k] by {
        lemma_words_bytes_index(w, k);
        assert(s.subrange(i + 4 * k, i + 4 * k + 4) == words_bytes(w).subrange(4 * k, 4 * k + 4));
        lemma_get32_be32(s, i + 4 * k, w[k]);
    }
    assert(get_words(s, i, w.len()) =~= w);
}

/// Appends every word of `w` in big-endian order.
pub fn push_words(v: &mut Vec<u8>, w: &Vec<u32>)
    ensures
        final(v)@ == old(v)@ + words_bytes(w@),
{
    let ghost start = v@;
    let mut i: usize = 0;
    while i < w.len()
        invariant
            i <= w.len(),
            v@ == start + words_bytes(w@.take(i as int)),
        decreases w.len() - i,
    {
        push_be32(v, w[i]);
        i = i + 1;
        assert(w@.take(i as int).drop_last() == w@.take(i - 1));
    }
    assert(w@.take(i as int) == w@);
}

/// Reads `n` big-endian words starting at `i`.
pub fn read_words(s: &[u8], i: usize, n: usize) -> (r: Vec<u32>)
    requires
        i + 4 * n <= s@.len(),
    ensures
        r@ == get_words(s@, i as int, n as nat),
{
    let mut r: Vec<u32> = Vec::new();
    let mut k: usize = 0;
    let len = s.len();
    while k < n
        invariant
            k <= n,
            i + 4 * n <= s@.len(),
            len == s@.len(),
            r@ == get_words(s@, i as int, k as nat),
        decreases n - k,
    {
        r.push(read_be32(s, i + 4 * k));
        k = k + 1;
        assert(r@ =~= get_words(s@, i as int, k as nat));
    }
    r
}

} // verus!
