//! Hashing and hex encoding, and byte-buffer helpers for framed hash inputs.

use vstd::prelude::*;

verus! {

/// BLAKE3 digest of `data` (32 bytes).
pub uninterp spec fn blake3_digest(data: Seq<u8>) -> Seq<u8>;

/// SHA-256 digest of `data` (32 bytes).
pub uninterp spec fn sha256_digest(data: Seq<u8>) -> Seq<u8>;

/// Calls `blake3::hash`; the contract names its result and claims nothing more of it.
#[verifier::external_body]
pub(crate) fn blake3_hash(data: &[u8]) -> (r: [u8; 32])
    ensures
        r@ == blake3_digest(data@),
{
    *blake3::hash(data).as_bytes()
}

/// Calls `sha2::Sha256::digest`; the contract names its result and claims nothing more
/// of it.
#[verifier::external_body]
pub(crate) fn sha256(data: &[u8]) -> (r: [u8; 32])
    ensures
        r@ == sha256_digest(data@),
{
    <sha2::Sha256 as sha2::Digest>::digest(data).into()
}

/// Lower-case hex digit of a nibble.
pub open spec fn hex_digit(n: u8) -> char {
    if n < 10 {
        (('0' as u8) + n) as char
    } else {
        (('a' as u8) + n - 10) as char
    }
}

/// Lower-case hex encoding, two digits per byte, high nibble first.
pub open spec fn hex_lower(data: Seq<u8>) -> Seq<char>
    decreases data.len(),
{
    if data.len() == 0 {
        seq![]
    } else {
        seq![hex_digit(data[0] / 16), hex_digit(data[0] % 16)] + hex_lower(data.drop_first())
    }
}

/// Value of an ASCII hex digit of either case.
pub open spec fn hex_value(c: char) -> Option<u8> {
    if '0' <= c <= '9' {
        Some(((c as u32) - ('0' as u32)) as u8)
    } else if 'a' <= c <= 'f' {
        Some(((c as u32) - ('a' as u32) + 10) as u8)
    } else if 'A' <= c <= 'F' {
        Some(((c as u32) - ('A' as u32) + 10) as u8)
    } else {
        None
    }
}

/// Bytes of a hex string: even length, every character a hex digit of either case.
pub open spec fn hex_decoded(s: Seq<char>) -> Option<Seq<u8>> {
    if s.len() % 2 != 0 || exists|i: int| 0 <= i < s.len() && hex_value(#[trigger] s[i]) is None {
        None
    } else {
        Some(
            Seq::new(
                s.len() / 2,
                |i: int| (hex_value(s[2 * i])->Some_0 * 16 + hex_value(s[2 * i + 1])->Some_0) as u8,
            ),
        )
    }
}

/// Calls `hex::encode`, which writes each byte as two lower-case hex digits, high nibble
/// first.
#[verifier::external_body]
pub(crate) fn hex_encode(data: &[u8]) -> (r: String)
    ensures
        r@ == hex_lower(data@),
{
    hex::encode(data)
}

/// Calls `hex::decode`, which accepts an even number of hex digits of either case and
/// refuses anything else.
#[verifier::external_body]
pub(crate) fn hex_decode(s: &str) -> (r: Option<Vec<u8>>)
    ensures
        match hex_decoded(s@) {
            Some(bytes) => r matches Some(v) && v@ == bytes,
            None => r is None,
        },
{
    hex::decode(s).ok()
}

/// Whether two digests are equal.
pub fn same_hash(a: &[u8; 32], b: &[u8; 32]) -> (r: bool)
    ensures
        r == (*a == *b),
{
    let mut i: usize = 0;
    while i < 32
        invariant
            i <= 32,
            forall|j: int| 0 <= j < i ==> a[j] == b[j],
        decreases 32 - i,
    {
        if a[i] != b[i] {
            return false;
        }
        i = i + 1;
    }
    proof {
        broadcast use vstd::array::group_array_axioms;

        assert(*a =~= *b);
    }
    true
}

/// Appends `data` to `out`.
pub fn append_bytes(out: &mut Vec<u8>, data: &[u8])
    ensures
        final(out)@ == old(out)@ + data@,
{
    let mut i: usize = 0;
    while i < data.len()
        invariant
            i <= data.len(),
            out@ == old(out)@ + data@.take(i as int),
        decreases data.len() - i,
    {
        out.push(data[i]);
        i = i + 1;
        assert(out@ =~= old(out)@ + data@.take(i as int));
    }
    assert(data@.take(data.len() as int) =~= data@);
}

/// Big-endian bytes of `n`.
pub open spec fn be_bytes_u64(n: u64) -> Seq<u8> {
    Seq::new(8, |i: int| ((n as nat / pow256((7 - i) as nat)) % 256) as u8)
}

pub open spec fn pow256(k: nat) -> nat
    decreases k,
{
    if k == 0 {
        1
    } else {
        256 * pow256((k - 1) as nat)
    }
}

/// Appends the eight big-endian bytes of `n`.
pub fn append_u64_be(out: &mut Vec<u8>, n: u64)
    ensures
        final(out)@ == old(out)@ + be_bytes_u64(n),
{
    let mut k: usize = 0;
    while k < 8
        invariant
            k <= 8,
            out@ == old(out)@ + be_bytes_u64(n).take(k as int),
        decreases 8 - k,
    {
        let shift: u64 = (7 - k as u64) * 8;
        let b = ((n >> shift) & 0xff) as u8;
        proof {
            lemma_shift_byte(n, (7 - k) as nat);
        }
        out.push(b);
        k = k + 1;
        assert(out@ =~= old(out)@ + be_bytes_u64(n).take(k as int));
    }
    assert(be_bytes_u64(n).take(8) =~= be_bytes_u64(n));
}

pub proof fn lemma_shift_byte(n: u64, j: nat)
    requires
        j < 8,
    ensures
        ((n >> ((j * 8) as u64)) & 0xff) as u8 == ((n as nat / pow256(j)) % 256) as u8,
{
    assert(pow256(0) == 1);
    assert(pow256(1) == 0x100);
    assert(pow256(2) == 0x10000);
    assert(pow256(3) == 0x1000000);
    assert(pow256(4) == 0x100000000);
    assert(pow256(5) == 0x10000000000);
    assert(pow256(6) == 0x1000000000000);
    assert(pow256(7) == 0x100000000000000);
    if j == 0 {
        assert(((n >> 0u64) & 0xff) as u8 == ((n / 1) % 256) as u8) by (bit_vector);
    } else if j == 1 {
        assert(((n >> 8u64) & 0xff) as u8 == ((n / 0x100) % 256) as u8) by (bit_vector);
    } else if j == 2 {
        assert(((n >> 16u64) & 0xff) as u8 == ((n / 0x10000) % 256) as u8) by (bit_vector);
    } else if j == 3 {
        assert(((n >> 24u64) & 0xff) as u8 == ((n / 0x1000000) % 256) as u8) by (bit_vector);
    } else if j == 4 {
        assert(((n >> 32u64) & 0xff) as u8 == ((n / 0x100000000) % 256) as u8) by (bit_vector);
    } else if j == 5 {
        assert(((n >> 40u64) & 0xff) as u8 == ((n / 0x10000000000) % 256) as u8) by (bit_vector);
    } else if j == 6 {
        assert(((n >> 48u64) & 0xff) as u8 == ((n / 0x1000000000000) % 256) as u8) by (
        bit_vector);
    } else {
        assert(((n >> 56u64) & 0xff) as u8 == ((n / 0x100000000000000) % 256) as u8) by (
        bit_vector);
    }
}

/// The digest holding the 32 bytes of `v`.
pub fn digest_from_vec(v: &Vec<u8>) -> (r: [u8; 32])
    requires
        v@.len() == 32,
    ensures
        r@ == v@,
{
    let mut a: [u8; 32] = [0u8; 32];
    let mut i: usize = 0;
    while i < 32
        invariant
            i <= 32,
            v@.len() == 32,
            forall|j: int| 0 <= j < i ==> a[j] == v@[j],
        decreases 32 - i,
    {
        a[i] = v[i];
        i = i + 1;
    }
    assert(a@ =~= v@);
    a
}

/// A fresh vector holding `data`.
pub fn copy_bytes(data: &[u8]) -> (r: Vec<u8>)
    ensures
        r@ == data@,
{
    let mut out: Vec<u8> = Vec::new();
    append_bytes(&mut out, data);
    assert(out@ =~= data@);
    out
}

/// Little-endian bytes of `n`.
pub open spec fn le_bytes_u64(n: u64) -> Seq<u8> {
    Seq::new(8, |i: int| ((n as nat / pow256(i as nat)) % 256) as u8)
}

/// Appends the eight little-endian bytes of `n`.
pub fn append_u64_le(out: &mut Vec<u8>, n: u64)
    ensures
        final(out)@ == old(out)@ + le_bytes_u64(n),
{
    let mut k: usize = 0;
    while k < 8
        invariant
            k <= 8,
            out@ == old(out)@ + le_bytes_u64(n).take(k as int),
        decreases 8 - k,
    {
        let shift: u64 = k as u64 * 8;
        let b = ((n >> shift) & 0xff) as u8;
        proof {
            lemma_shift_byte(n, k as nat);
        }
        out.push(b);
        k = k + 1;
        assert(out@ =~= old(out)@ + le_bytes_u64(n).take(k as int));
    }
    assert(le_bytes_u64(n).take(8) =~= le_bytes_u64(n));
}

} // verus!
