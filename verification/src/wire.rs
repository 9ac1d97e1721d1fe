//! Low-level wire helpers: big-endian 32-bit length fields and byte-range
//! copies, with full functional contracts.

use vstd::prelude::*;

verus! {

/// The four big-endian bytes of a 32-bit value, most significant first.
pub open spec fn spec_u32_be(n: u32) -> Seq<u8> {
    seq![
        ((n >> 24) & 0xff) as u8,
        ((n >> 16) & 0xff) as u8,
        ((n >> 8) & 0xff) as u8,
        (n & 0xff) as u8,
    ]
}

/// The 32-bit value read from four big-endian bytes.
pub open spec fn spec_u32_from_be(s: Seq<u8>) -> u32
    recommends
        s.len() == 4,
{
    ((s[0] as u32) << 24) | ((s[1] as u32) << 16) | ((s[2] as u32) << 8) | (s[3] as u32)
}

/// Writing a value big-endian and reading it back yields the value, and
/// reading four bytes and writing the result back yields the bytes.
pub proof fn lemma_u32_be_round_trip(n: u32)
    ensures
        spec_u32_be(n).len() == 4,
        spec_u32_from_be(spec_u32_be(n)) == n,
{
    assert(((n >> 24) & 0xff) < 256 && ((n >> 16) & 0xff) < 256 && ((n >> 8) & 0xff) < 256 && (n
        & 0xff) < 256) by (bit_vector);
    assert((((n >> 24) & 0xff) << 24) | (((n >> 16) & 0xff) << 16) | (((n >> 8) & 0xff) << 8) | (n
        & 0xff) == n) by (bit_vector);
}

/// Appends the four big-endian bytes of `n` to `out`.
pub fn push_u32_be(out: &mut Vec<u8>, n: u32)
    ensures
        final(out)@ == old(out)@ + spec_u32_be(n),
{
    proof {
        lemma_u32_be_round_trip(n);
    }
    out.push((((n >> 24) & 0xff) as u8));
    out.push((((n >> 16) & 0xff) as u8));
    out.push((((n >> 8) & 0xff) as u8));
    out.push(((n & 0xff) as u8));
    assert(out@ =~= old(out)@ + spec_u32_be(n));
}

/// Reads the big-endian 32-bit value stored at `data[i..i + 4]`.
pub fn read_u32_be(data: &Vec<u8>, i: usize) -> (n: u32)
    requires
        i + 4 <= data@.len(),
    ensures
        n == spec_u32_from_be(data@.subrange(i as int, i as int + 4)),
{
    let total: usize = data.len();
    assert(i + 4 <= total);
    let b0 = data[i];
    let b1 = data[i + 1];
    let b2 = data[i + 2];
    let b3 = data[i + 3];
    let ghost s = data@.subrange(i as int, i as int + 4);
    assert(s[0] == b0 && s[1] == b1 && s[2] == b2 && s[3] == b3);
    ((b0 as u32) << 24) | ((b1 as u32) << 16) | ((b2 as u32) << 8) | (b3 as u32)
}

/// Copies `data[i..j]` into a fresh vector.
pub fn copy_range(data: &Vec<u8>, i: usize, j: usize) -> (r: Vec<u8>)
    requires
        i <= j <= data@.len(),
    ensures
        r@ == data@.subrange(i as int, j as int),
{
    let mut r: Vec<u8> = Vec::new();
    let mut k: usize = i;
    while k < j
        invariant
            i <= k <= j <= data@.len(),
            r@ == data@.subrange(i as int, k as int),
        decreases j - k,
    {
        r.push(data[k]);
        assert(r@ =~= data@.subrange(i as int, k as int + 1));
        k = k + 1;
    }
    r
}

/// Appends all bytes of `src` to `out`, leaving `src` untouched.
pub fn append_bytes(out: &mut Vec<u8>, src: &Vec<u8>)
    ensures
        final(out)@ == old(out)@ + src@,
{
    let n = src.len();
    let mut k: usize = 0;
    while k < n
        invariant
            n == src@.len(),
            k <= n,
            out@ == old(out)@ + src@.subrange(0, k as int),
        decreases n - k,
    {
        out.push(src[k]);
        assert(out@ =~= old(out)@ + src@.subrange(0, k as int + 1));
        k = k + 1;
    }
    assert(out@ =~= old(out)@ + src@);
}

/// Compares two string slices character by character.
pub fn str_eq(a: &str, b: &str) -> (r: bool)
    ensures
        r == (a@ == b@),
{
    let n = a.unicode_len();
    if n != b.unicode_len() {
        assert(a@.len() != b@.len());
        return false;
    }
    let mut k: usize = 0;
    while k < n
        invariant
            n == a@.len() && n == b@.len(),
            k <= n,
            forall|t: int| 0 <= t < k ==> a@[t] == b@[t],
        decreases n - k,
    {
        if a.get_char(k) != b.get_char(k) {
            return false;
        }
        k = k + 1;
    }
    proof {
        assert(a@ =~= b@);
    }
    true
}

} // verus!
