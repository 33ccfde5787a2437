use vstd::prelude::*;

verus! {

// ---------------------------------------------------------------------------
// Little-endian 64-bit integers
// ---------------------------------------------------------------------------

/// The eight little-endian bytes of a 64-bit integer.
pub open spec fn u64_le_bytes(v: u64) -> Seq<u8> {
    seq![
        (v & 0xff) as u8,
        ((v >> 8) & 0xff) as u8,
        ((v >> 16) & 0xff) as u8,
        ((v >> 24) & 0xff) as u8,
        ((v >> 32) & 0xff) as u8,
        ((v >> 40) & 0xff) as u8,
        ((v >> 48) & 0xff) as u8,
        ((v >> 56) & 0xff) as u8,
    ]
}

/// The 64-bit integer held little-endian at offset `i` of `b`.
pub open spec fn u64_at(b: Seq<u8>, i: int) -> u64 {
    (b[i] as u64)
    | ((b[i + 1] as u64) << 8)
    | ((b[i + 2] as u64) << 16)
    | ((b[i + 3] as u64) << 24)
    | ((b[i + 4] as u64) << 32)
    | ((b[i + 5] as u64) << 40)
    | ((b[i + 6] as u64) << 48)
    | ((b[i + 7] as u64) << 56)
}

/// Reading back the eight little-endian bytes of `v` yields `v`.
pub proof fn lemma_u64_le_round(v: u64)
    ensures
        u64_at(u64_le_bytes(v), 0) == v,
{
    let b = u64_le_bytes(v);
    assert(b[0] == (v & 0xff) as u8);
    assert(b[1] == ((v >> 8) & 0xff) as u8);
    assert(b[2] == ((v >> 16) & 0xff) as u8);
    assert(b[3] == ((v >> 24) & 0xff) as u8);
    assert(b[4] == ((v >> 32) & 0xff) as u8);
    assert(b[5] == ((v >> 40) & 0xff) as u8);
    assert(b[6] == ((v >> 48) & 0xff) as u8);
    assert(b[7] == ((v >> 56) & 0xff) as u8);
    assert(((v & 0xff) as u8 as u64)
        | ((((v >> 8) & 0xff) as u8 as u64) << 8)
        | ((((v >> 16) & 0xff) as u8 as u64) << 16)
        | ((((v >> 24) & 0xff) as u8 as u64) << 24)
        | ((((v >> 32) & 0xff) as u8 as u64) << 32)
        | ((((v >> 40) & 0xff) as u8 as u64) << 40)
        | ((((v >> 48) & 0xff) as u8 as u64) << 48)
        | ((((v >> 56) & 0xff) as u8 as u64) << 56) == v) by (bit_vector);
}

/// If `b` holds the little-endian bytes of `v` at offset `i`, then reading
/// at `i` yields `v`.
pub proof fn lemma_u64_at_le(b: Seq<u8>, i: int, v: u64)
    requires
        0 <= i,
        i + 8 <= b.len(),
        b.subrange(i, i + 8) == u64_le_bytes(v),
    ensures
        u64_at(b, i) == v,
{
    let s = b.subrange(i, i + 8);
    assert forall|k: int| 0 <= k < 8 implies b[i + k] == u64_le_bytes(v)[k] by {
        assert(s[k] == b[i + k]);
    }
    lemma_u64_le_round(v);
    assert(u64_at(b, i) == u64_at(u64_le_bytes(v), 0));
}

/// Build the eight little-endian bytes of `v`.
pub fn u64_to_le(v: u64) -> (r: Vec<u8>)
    ensures
        r@ == u64_le_bytes(v),
{
    let mut r: Vec<u8> = Vec::new();
    r.push((v & 0xff) as u8);
    r.push(((v >> 8) & 0xff) as u8);
    r.push(((v >> 16) & 0xff) as u8);
    r.push(((v >> 24) & 0xff) as u8);
    r.push(((v >> 32) & 0xff) as u8);
    r.push(((v >> 40) & 0xff) as u8);
    r.push(((v >> 48) & 0xff) as u8);
    r.push(((v >> 56) & 0xff) as u8);
    proof {
        assert(r@ =~= u64_le_bytes(v));
    }
    r
}

/// Read a 64-bit little-endian integer at offset `i`.
pub fn read_u64_at(b: &Vec<u8>, i: usize) -> (r: u64)
    requires
        i + 8 <= b@.len(),
    ensures
        r == u64_at(b@, i as int),
{
    let n: usize = b.len();
    (b[i] as u64)
    | ((b[i + 1] as u64) << 8)
    | ((b[i + 2] as u64) << 16)
    | ((b[i + 3] as u64) << 24)
    | ((b[i + 4] as u64) << 32)
    | ((b[i + 5] as u64) << 40)
    | ((b[i + 6] as u64) << 48)
    | ((b[i + 7] as u64) << 56)
}

// ---------------------------------------------------------------------------
// 128-bit halves
// ---------------------------------------------------------------------------

pub open spec fn u128_hi(x: u128) -> u64 {
    (x >> 64) as u64
}

pub open spec fn u128_lo(x: u128) -> u64 {
    x as u64
}

pub open spec fn u128_join(h: u64, l: u64) -> u128 {
    ((h as u128) << 64) | (l as u128)
}

/// Joining the two halves of a 128-bit integer yields it back.
pub proof fn lemma_u128_split_join(x: u128)
    ensures
        u128_join(u128_hi(x), u128_lo(x)) == x,
{
    assert(((((x >> 64) as u64) as u128) << 64) | ((x as u64) as u128) == x) by (bit_vector);
}

// ---------------------------------------------------------------------------
// Hexadecimal text
// ---------------------------------------------------------------------------

/// The lowercase hex digit (as an ASCII byte) for a value below 16.
pub open spec fn hex_digit(n: u8) -> u8
    recommends
        n < 16,
{
    if n < 10 {
        (48 + n) as u8
    } else {
        (87 + n) as u8
    }
}

pub open spec fn is_lower_hex_digit(c: u8) -> bool {
    (48 <= c && c <= 57) || (97 <= c && c <= 102)
}

pub open spec fn is_hex_digit(c: u8) -> bool {
    is_lower_hex_digit(c) || (65 <= c && c <= 70)
}

/// The value of one ASCII hex digit.
pub open spec fn hex_val(c: u8) -> u8
    recommends
        is_hex_digit(c),
{
    if 48 <= c && c <= 57 {
        (c - 48) as u8
    } else if 97 <= c && c <= 102 {
        (c - 87) as u8
    } else {
        (c - 55) as u8
    }
}

/// Lowercase hex encoding: two digits for each byte, high digit first.
pub open spec fn hex_enc(b: Seq<u8>) -> Seq<u8>
    decreases b.len(),
{
    if b.len() == 0 {
        Seq::<u8>::empty()
    } else {
        seq![hex_digit((b[0] / 16) as u8), hex_digit((b[0] % 16) as u8)] + hex_enc(b.drop_first())
    }
}

/// An even-length string of ASCII hex digits.
pub open spec fn valid_hex(s: Seq<u8>) -> bool {
    s.len() % 2 == 0 && (forall|i: int| 0 <= i < s.len() ==> is_hex_digit(#[trigger] s[i]))
}

/// Hex decoding: each pair of digits becomes one byte.
pub open spec fn hex_dec(s: Seq<u8>) -> Seq<u8>
    decreases s.len(),
{
    if s.len() < 2 {
        Seq::<u8>::empty()
    } else {
        seq![(hex_val(s[0]) * 16 + hex_val(s[1])) as u8] + hex_dec(s.skip(2))
    }
}

pub proof fn lemma_hex_enc_len(b: Seq<u8>)
    ensures
        hex_enc(b).len() == 2 * b.len(),
    decreases b.len(),
{
    if b.len() > 0 {
        lemma_hex_enc_len(b.drop_first());
    }
}

/// Every byte of a hex encoding is a lowercase hex digit.
pub proof fn lemma_hex_enc_valid(b: Seq<u8>)
    ensures
        valid_hex(hex_enc(b)),
        forall|i: int| 0 <= i < hex_enc(b).len() ==> is_lower_hex_digit(#[trigger] hex_enc(b)[i]),
    decreases b.len(),
{
    lemma_hex_enc_len(b);
    if b.len() > 0 {
        lemma_hex_enc_valid(b.drop_first());
        let s = hex_enc(b);
        let rest = hex_enc(b.drop_first());
        assert forall|i: int| 0 <= i < s.len() implies is_lower_hex_digit(#[trigger] s[i]) by {
            if i >= 2 {
                assert(s[i] == rest[i - 2]);
            }
        }
    }
}

/// Decoding a hex encoding yields the original bytes.
pub proof fn lemma_hex_round(b: Seq<u8>)
    ensures
        hex_dec(hex_enc(b)) == b,
    decreases b.len(),
{
    if b.len() == 0 {
        assert(hex_dec(hex_enc(b)) =~= b);
    } else {
        lemma_hex_round(b.drop_first());
        lemma_hex_enc_len(b.drop_first());
        let s = hex_enc(b);
        let hi = hex_digit((b[0] / 16) as u8);
        let lo = hex_digit((b[0] % 16) as u8);
        assert(s[0] == hi);
        assert(s[1] == lo);
        assert(s.skip(2) =~= hex_enc(b.drop_first()));
        assert(hex_val(hi) == b[0] / 16);
        assert(hex_val(lo) == b[0] % 16);
        assert((b[0] / 16) * 16 + b[0] % 16 == b[0]);
        assert(hex_dec(s) =~= b);
    }
}

/// Relies on hex::encode: returns the lowercase hex encoding of the input,
/// two digits per byte, high digit first.
#[verifier::external_body]
pub(crate) fn hex_encode(b: &Vec<u8>) -> (r: Vec<u8>)
    ensures
        r@ == hex_enc(b@),
{
    hex::encode(b.as_slice()).into_bytes()
}

/// Relies on hex::decode: succeeds exactly on even-length strings of ASCII
/// hex digits, turning each digit pair into one byte.
#[verifier::external_body]
pub(crate) fn hex_decode(s: &Vec<u8>) -> (r: Option<Vec<u8>>)
    ensures
        r is Some <==> valid_hex(s@),
        r matches Some(v) ==> v@ == hex_dec(s@),
{
    match hex::decode(s.as_slice()) {
        Ok(v) => Some(v),
        Err(_) => None,
    }
}

// ---------------------------------------------------------------------------
// Small executable helpers
// ---------------------------------------------------------------------------

/// Byte-wise equality of two vectors.
pub fn bytes_eq(a: &Vec<u8>, b: &Vec<u8>) -> (r: bool)
    ensures
        r == (a@ == b@),
{
    if a.len() != b.len() {
        proof {
            assert(a@.len() != b@.len());
        }
        return false;
    }
    let n = a.len();
    let mut i: usize = 0;
    while i < n
        invariant
            n == a@.len() && n == b@.len(),
            0 <= i <= n,
            forall|j: int| 0 <= j < i ==> a@[j] == b@[j],
        decreases n - i,
    {
        if a[i] != b[i] {
            return false;
        }
        i = i + 1;
    }
    proof {
        assert(a@ =~= b@);
    }
    true
}

/// Copy the bytes of `b` from `i` (inclusive) to `j` (exclusive).
pub fn copy_range(b: &Vec<u8>, i: usize, j: usize) -> (r: Vec<u8>)
    requires
        i <= j,
        j <= b@.len(),
    ensures
        r@ == b@.subrange(i as int, j as int),
{
    let mut r: Vec<u8> = Vec::new();
    let mut k: usize = i;
    while k < j
        invariant
            i <= k <= j,
            j <= b@.len(),
            r@ == b@.subrange(i as int, k as int),
        decreases j - k,
    {
        r.push(b[k]);
        proof {
            assert(r@ =~= b@.subrange(i as int, k + 1 as int));
        }
        k = k + 1;
    }
    r
}

/// Append all of `src` to `dst`.
pub fn append_bytes(dst: &mut Vec<u8>, src: &Vec<u8>)
    ensures
        final(dst)@ == old(dst)@ + src@,
{
    let n = src.len();
    let mut k: usize = 0;
    while k < n
        invariant
            n == src@.len(),
            0 <= k <= n,
            dst@ == old(dst)@ + src@.subrange(0, k as int),
        decreases n - k,
    {
        dst.push(src[k]);
        proof {
            assert(dst@ =~= old(dst)@ + src@.subrange(0, k + 1 as int));
        }
        k = k + 1;
    }
    proof {
        assert(src@.subrange(0, n as int) =~= src@);
    }
}

} // verus!
