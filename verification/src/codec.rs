use vstd::prelude::*;
use crate::bytes::{
    u64_le_bytes, u64_at, u128_hi, u128_lo, u128_join, hex_enc, hex_dec, valid_hex,
    lemma_u64_at_le, lemma_u128_split_join, lemma_hex_enc_len, lemma_hex_enc_valid,
    lemma_hex_round,
};
use crate::state::{Address, PathKind, KeyModel, EntryModel, StateKey, DeltaEntry};
use crate::delta::{sorted_keys, lemma_sorted_canonical};

verus! {

// ---------------------------------------------------------------------------
// Binary encoding of overlay entries
// ---------------------------------------------------------------------------

/// The 32 bytes of an address: four 64-bit little-endian words, high first.
pub open spec fn enc_addr(a: Address) -> Seq<u8> {
    u64_le_bytes(u128_hi(a.hi)) + u64_le_bytes(u128_lo(a.hi))
        + u64_le_bytes(u128_hi(a.lo)) + u64_le_bytes(u128_lo(a.lo))
}

pub open spec fn kind_byte(k: PathKind) -> u8 {
    match k {
        PathKind::Resource => 0,
        PathKind::ResourceGroup => 1,
    }
}

/// Whether a key and entry have lengths that the length-prefixed binary
/// form can record.
pub open spec fn wf_pair(p: (KeyModel, EntryModel)) -> bool {
    p.0.tag.len() < 0x1_0000_0000_0000_0000
        && (p.1 matches EntryModel::Value(v) ==> v.len() < 0x1_0000_0000_0000_0000)
}

pub open spec fn wf_pairs(s: Seq<(KeyModel, EntryModel)>) -> bool {
    s.len() < 0x1_0000_0000_0000_0000
        && (forall|i: int| 0 <= i < s.len() ==> wf_pair(#[trigger] s[i]))
}

/// One entry: address, path kind, length-prefixed tag, then either a
/// tombstone byte or a value byte with the length-prefixed value.
pub open spec fn enc_entry(k: KeyModel, e: EntryModel) -> Seq<u8> {
    enc_addr(k.addr) + seq![kind_byte(k.kind)] + u64_le_bytes(k.tag.len() as u64) + k.tag
        + (match e {
            EntryModel::Tombstone => seq![1u8],
            EntryModel::Value(v) => seq![0u8] + u64_le_bytes(v.len() as u64) + v,
        })
}

/// All entries, in store order.
pub open spec fn enc_entries(s: Seq<(KeyModel, EntryModel)>) -> Seq<u8>
    decreases s.len(),
{
    if s.len() == 0 {
        Seq::<u8>::empty()
    } else {
        enc_entry(s[0].0, s[0].1) + enc_entries(s.drop_first())
    }
}

/// The whole overlay: entry count, then the entries.
pub open spec fn delta_bin(s: Seq<(KeyModel, EntryModel)>) -> Seq<u8> {
    u64_le_bytes(s.len() as u64) + enc_entries(s)
}

/// ASCII "delta v1" and a newline.
pub open spec fn delta_header() -> Seq<u8> {
    seq![0x64u8, 0x65u8, 0x6cu8, 0x74u8, 0x61u8, 0x20u8, 0x76u8, 0x31u8, 0x0au8]
}

/// The persisted delta document: a header line, then the hex of the binary
/// form as one line.
pub open spec fn delta_doc(s: Seq<(KeyModel, EntryModel)>) -> Seq<u8> {
    delta_header() + hex_enc(delta_bin(s)) + seq![0x0au8]
}

// ---------------------------------------------------------------------------
// Parsing
// ---------------------------------------------------------------------------

/// Parse one entry from the front of `b`; on success, also the remainder.
#[verifier::opaque]
pub open spec fn parse_entry(b: Seq<u8>) -> Option<((KeyModel, EntryModel), Seq<u8>)> {
    if b.len() < 42 {
        None
    } else {
        let addr = Address {
            hi: u128_join(u64_at(b, 0), u64_at(b, 8)),
            lo: u128_join(u64_at(b, 16), u64_at(b, 24)),
        };
        let kb = b[32];
        if kb != 0 && kb != 1 {
            None
        } else {
            let kind = if kb == 0 { PathKind::Resource } else { PathKind::ResourceGroup };
            let t = u64_at(b, 33) as int;
            if b.len() < 42 + t {
                None
            } else {
                let km = KeyModel { addr, kind, tag: b.subrange(41, 41 + t) };
                let eb = b[41 + t];
                if eb == 1 {
                    Some(((km, EntryModel::Tombstone), b.skip(42 + t)))
                } else if eb == 0 {
                    if b.len() < 50 + t {
                        None
                    } else {
                        let vl = u64_at(b, 42 + t) as int;
                        if b.len() < 50 + t + vl {
                            None
                        } else {
                            Some((
                                (km, EntryModel::Value(b.subrange(50 + t, 50 + t + vl))),
                                b.skip(50 + t + vl),
                            ))
                        }
                    }
                } else {
                    None
                }
            }
        }
    }
}

/// Parse exactly `n` entries, requiring that they use all of `b`.
pub open spec fn parse_entries(b: Seq<u8>, n: nat) -> Option<Seq<(KeyModel, EntryModel)>>
    decreases n,
{
    if n == 0 {
        if b.len() == 0 {
            Some(Seq::<(KeyModel, EntryModel)>::empty())
        } else {
            None
        }
    } else {
        match parse_entry(b) {
            None => None,
            Some((p, rest)) => match parse_entries(rest, (n - 1) as nat) {
                None => None,
                Some(s) => Some(seq![p] + s),
            },
        }
    }
}

pub open spec fn parse_delta_bin(b: Seq<u8>) -> Option<Seq<(KeyModel, EntryModel)>> {
    if b.len() < 8 {
        None
    } else {
        parse_entries(b.skip(8), u64_at(b, 0) as nat)
    }
}

/// Parse a persisted delta document. Strict: the header, the hex line, the
/// final newline, the entry count and the canonical key order are all
/// checked; any mismatch, including a truncated document, fails.
pub open spec fn parse_delta_doc(doc: Seq<u8>) -> Option<Seq<(KeyModel, EntryModel)>> {
    if doc.len() < 10 {
        None
    } else if doc.subrange(0, 9) != delta_header() {
        None
    } else if doc.last() != 0x0a {
        None
    } else {
        let hexpart = doc.subrange(9, doc.len() - 1);
        if !valid_hex(hexpart) {
            None
        } else {
            match parse_delta_bin(hex_dec(hexpart)) {
                None => None,
                Some(s) => if sorted_keys(s) {
                    Some(s)
                } else {
                    None
                },
            }
        }
    }
}

// ---------------------------------------------------------------------------
// Round trip: parsing a persisted document yields the entries back
// ---------------------------------------------------------------------------

/// Parsing the encoding of one entry, with anything after it, yields that
/// entry and the trailing bytes.
pub proof fn lemma_parse_entry_enc(k: KeyModel, e: EntryModel, rest: Seq<u8>)
    requires
        wf_pair((k, e)),
    ensures
        parse_entry(enc_entry(k, e) + rest) == Some(((k, e), rest)),
{
    reveal(parse_entry);
    let enc = enc_entry(k, e);
    let b = enc + rest;
    let t = k.tag.len() as int;
    assert(u64_le_bytes(k.tag.len() as u64).len() == 8);
    assert(enc_addr(k.addr).len() == 32);
    lemma_u128_split_join(k.addr.hi);
    lemma_u128_split_join(k.addr.lo);
    assert(b.subrange(0, 8) =~= u64_le_bytes(u128_hi(k.addr.hi)));
    assert(b.subrange(8, 16) =~= u64_le_bytes(u128_lo(k.addr.hi)));
    assert(b.subrange(16, 24) =~= u64_le_bytes(u128_hi(k.addr.lo)));
    assert(b.subrange(24, 32) =~= u64_le_bytes(u128_lo(k.addr.lo)));
    lemma_u64_at_le(b, 0, u128_hi(k.addr.hi));
    lemma_u64_at_le(b, 8, u128_lo(k.addr.hi));
    lemma_u64_at_le(b, 16, u128_hi(k.addr.lo));
    lemma_u64_at_le(b, 24, u128_lo(k.addr.lo));
    assert(b[32] == kind_byte(k.kind));
    assert(b.subrange(33, 41) =~= u64_le_bytes(k.tag.len() as u64));
    lemma_u64_at_le(b, 33, k.tag.len() as u64);
    assert(u64_at(b, 33) as int == t);
    assert(b.subrange(41, 41 + t) =~= k.tag);
    match e {
        EntryModel::Tombstone => {
            assert(enc.len() == 42 + t);
            assert(b[41 + t] == 1);
            assert(b.skip(42 + t) =~= rest);
        },
        EntryModel::Value(v) => {
            let vl = v.len() as int;
            assert(enc.len() == 50 + t + vl);
            assert(b[41 + t] == 0);
            assert(b.subrange(42 + t, 50 + t) =~= u64_le_bytes(v.len() as u64));
            lemma_u64_at_le(b, 42 + t, v.len() as u64);
            assert(u64_at(b, 42 + t) as int == vl);
            assert(b.subrange(50 + t, 50 + t + vl) =~= v);
            assert(b.skip(50 + t + vl) =~= rest);
        },
    }
}

#[verifier::rlimit(60)]
pub proof fn lemma_parse_entries_enc(s: Seq<(KeyModel, EntryModel)>)
    requires
        wf_pairs(s),
    ensures
        parse_entries(enc_entries(s), s.len()) == Some(s),
    decreases s.len(),
{
    if s.len() == 0 {
        assert(enc_entries(s).len() == 0);
    } else {
        let tail = s.drop_first();
        assert(wf_pairs(tail)) by {
            assert(forall|i: int| 0 <= i < tail.len() ==> (#[trigger] tail[i]) == s[i + 1]);
        }
        lemma_parse_entries_enc(tail);
        lemma_parse_entry_enc(s[0].0, s[0].1, enc_entries(tail));
        assert(s[0] == (s[0].0, s[0].1));
        assert(parse_entry(enc_entries(s)) == Some((s[0], enc_entries(tail)))) by {
            assert(enc_entries(s) == enc_entry(s[0].0, s[0].1) + enc_entries(tail));
        }
        assert(parse_entries(enc_entries(tail), tail.len()) == Some(tail));
        assert(parse_entries(enc_entries(s), s.len()) == Some(seq![s[0]] + tail));
        assert(seq![s[0]] + tail =~= s);
    }
}

/// Parsing a persisted delta document yields exactly the entries that were
/// persisted.
pub proof fn lemma_delta_doc_round(s: Seq<(KeyModel, EntryModel)>)
    requires
        wf_pairs(s),
        sorted_keys(s),
    ensures
        parse_delta_doc(delta_doc(s)) == Some(s),
{
    let bin = delta_bin(s);
    let hx = hex_enc(bin);
    let doc = delta_doc(s);
    lemma_hex_enc_len(bin);
    lemma_hex_enc_valid(bin);
    lemma_hex_round(bin);
    assert(doc.len() == 9 + hx.len() + 1);
    assert(doc.subrange(0, 9) =~= delta_header());
    assert(doc.last() == 0x0a);
    let hexpart = doc.subrange(9, doc.len() - 1);
    assert(hexpart =~= hx);
    assert(valid_hex(hexpart));
    assert(hex_dec(hexpart) == bin);
    assert(bin.len() >= 8);
    assert(bin.subrange(0, 8) =~= u64_le_bytes(s.len() as u64));
    lemma_u64_at_le(bin, 0, s.len() as u64);
    assert(u64_at(bin, 0) as nat == s.len());
    assert(bin.skip(8) =~= enc_entries(s));
    lemma_parse_entries_enc(s);
    assert(parse_delta_bin(bin) == Some(s));
}

// ---------------------------------------------------------------------------
// Executable encoding
// ---------------------------------------------------------------------------

fn enc_addr_vec(a: Address) -> (r: Vec<u8>)
    ensures
        r@ == enc_addr(a),
{
    let mut r = crate::bytes::u64_to_le((a.hi >> 64) as u64);
    let w1 = crate::bytes::u64_to_le(a.hi as u64);
    let w2 = crate::bytes::u64_to_le((a.lo >> 64) as u64);
    let w3 = crate::bytes::u64_to_le(a.lo as u64);
    crate::bytes::append_bytes(&mut r, &w1);
    crate::bytes::append_bytes(&mut r, &w2);
    crate::bytes::append_bytes(&mut r, &w3);
    proof {
        assert(r@ =~= enc_addr(a));
    }
    r
}

fn enc_entry_vec(k: &StateKey, e: &DeltaEntry) -> (r: Vec<u8>)
    ensures
        r@ == enc_entry(k@, e@),
{
    let mut r = enc_addr_vec(k.addr);
    match k.kind {
        PathKind::Resource => r.push(0u8),
        PathKind::ResourceGroup => r.push(1u8),
    }
    let tl = crate::bytes::u64_to_le(k.tag.len() as u64);
    crate::bytes::append_bytes(&mut r, &tl);
    crate::bytes::append_bytes(&mut r, &k.tag);
    match e {
        DeltaEntry::Tombstone => {
            r.push(1u8);
        },
        DeltaEntry::Value(v) => {
            r.push(0u8);
            let vl = crate::bytes::u64_to_le(v.len() as u64);
            crate::bytes::append_bytes(&mut r, &vl);
            crate::bytes::append_bytes(&mut r, v);
        },
    }
    proof {
        assert(r@ =~= enc_entry(k@, e@));
    }
    r
}

fn header_vec() -> (r: Vec<u8>)
    ensures
        r@ == delta_header(),
{
    let mut r: Vec<u8> = Vec::new();
    r.push(0x64u8);
    r.push(0x65u8);
    r.push(0x6cu8);
    r.push(0x74u8);
    r.push(0x61u8);
    r.push(0x20u8);
    r.push(0x76u8);
    r.push(0x31u8);
    r.push(0x0au8);
    proof {
        assert(r@ =~= delta_header());
    }
    r
}

/// Serialize the overlay into its persisted document form.
pub fn delta_to_doc(d: &crate::delta::Delta) -> (r: Vec<u8>)
    ensures
        r@ == delta_doc(d.models()),
{
    let pairs = d.pairs();
    let ghost ms = d.models();
    let n = pairs.len();
    let mut bin = crate::bytes::u64_to_le(n as u64);
    let mut i: usize = 0;
    while i < n
        invariant
            n == pairs@.len(),
            ms == crate::delta::pair_models(pairs@),
            0 <= i <= n,
            bin@ == u64_le_bytes(n as u64) + enc_entries(ms.take(i as int)),
        decreases n - i,
    {
        let e = enc_entry_vec(&pairs[i].0, &pairs[i].1);
        crate::bytes::append_bytes(&mut bin, &e);
        proof {
            let tk = ms.take((i as int) + 1);
            assert(tk =~= ms.take(i as int) + seq![ms[i as int]]);
            lemma_enc_entries_concat(ms.take(i as int), seq![ms[i as int]]);
            assert(enc_entries(Seq::<(KeyModel, EntryModel)>::empty()) == Seq::<u8>::empty());
            assert(enc_entries(seq![ms[i as int]]) =~= enc_entry(ms[i as int].0, ms[i as int].1)) by {
                assert(seq![ms[i as int]][0] == ms[i as int]);
                assert(seq![ms[i as int]].drop_first() =~= Seq::<(KeyModel, EntryModel)>::empty());
                assert(enc_entry(ms[i as int].0, ms[i as int].1) + Seq::<u8>::empty()
                    =~= enc_entry(ms[i as int].0, ms[i as int].1));
            }
            assert(ms[i as int] == (pairs@[i as int].0@, pairs@[i as int].1@));
            assert(bin@ =~= u64_le_bytes(n as u64) + enc_entries(tk));
        }
        i = i + 1;
    }
    proof {
        assert(ms.take(n as int) =~= ms);
        assert(ms.len() == n);
        assert(bin@ == delta_bin(ms));
    }
    let hx = crate::bytes::hex_encode(&bin);
    let mut r = header_vec();
    crate::bytes::append_bytes(&mut r, &hx);
    r.push(0x0au8);
    proof {
        assert(r@ =~= delta_doc(ms));
    }
    r
}

// ---------------------------------------------------------------------------
// Executable parsing
// ---------------------------------------------------------------------------

fn parse_entry_at(bin: &Vec<u8>, pos: usize) -> (r: Option<((StateKey, DeltaEntry), usize)>)
    requires
        pos <= bin@.len(),
    ensures
        match r {
            None => parse_entry(bin@.skip(pos as int)) is None,
            Some((kv, end)) => {
                &&& pos < end <= bin@.len()
                &&& parse_entry(bin@.skip(pos as int)) == Some((
                    (kv.0@, kv.1@),
                    bin@.skip(end as int),
                ))
            },
        },
{
    proof {
        reveal(parse_entry);
    }
    let ghost sk = bin@.skip(pos as int);
    proof {
        assert(forall|k: int| 0 <= k < sk.len() ==> #[trigger] sk[k] == bin@[pos + k]);
    }
    let n = bin.len();
    if n - pos < 42 {
        return None;
    }
    let w0 = crate::bytes::read_u64_at(bin, pos);
    let w1 = crate::bytes::read_u64_at(bin, pos + 8);
    let w2 = crate::bytes::read_u64_at(bin, pos + 16);
    let w3 = crate::bytes::read_u64_at(bin, pos + 24);
    proof {
        assert(u64_at(sk, 0) == w0);
        assert(u64_at(sk, 8) == w1);
        assert(u64_at(sk, 16) == w2);
        assert(u64_at(sk, 24) == w3);
    }
    let addr = Address {
        hi: ((w0 as u128) << 64) | (w1 as u128),
        lo: ((w2 as u128) << 64) | (w3 as u128),
    };
    let kb = bin[pos + 32];
    if kb != 0 && kb != 1 {
        return None;
    }
    let kind = if kb == 0 { PathKind::Resource } else { PathKind::ResourceGroup };
    let t64 = crate::bytes::read_u64_at(bin, pos + 33);
    proof {
        assert(u64_at(sk, 33) == t64);
    }
    if t64 > ((n - (pos + 42)) as u64) {
        proof {
            assert(sk.len() < 42 + t64 as int);
        }
        return None;
    }
    let t = t64 as usize;
    proof {
        assert(t == t64 as int);
    }
    let tag = crate::bytes::copy_range(bin, pos + 41, pos + 41 + t);
    proof {
        assert(tag@ =~= sk.subrange(41, 41 + t64 as int));
    }
    let key = StateKey { addr, kind, tag };
    let eb = bin[pos + 41 + t];
    if eb == 1 {
        proof {
            assert(bin@.skip((pos + 42 + t) as int) =~= sk.skip(42 + t64 as int));
        }
        Some(((key, DeltaEntry::Tombstone), pos + 42 + t))
    } else if eb == 0 {
        if n - (pos + 42 + t) < 8 {
            return None;
        }
        let vl64 = crate::bytes::read_u64_at(bin, pos + 42 + t);
        proof {
            assert(u64_at(sk, 42 + t64 as int) == vl64);
        }
        if vl64 > ((n - (pos + 50 + t)) as u64) {
            proof {
                assert(sk.len() < 50 + t64 as int + vl64 as int);
            }
            return None;
        }
        let vl = vl64 as usize;
        let val = crate::bytes::copy_range(bin, pos + 50 + t, pos + 50 + t + vl);
        proof {
            assert(val@ =~= sk.subrange(50 + t64 as int, 50 + t64 as int + vl64 as int));
            assert(bin@.skip((pos + 50 + t + vl) as int) =~= sk.skip(50 + t64 as int + vl64 as int));
        }
        Some(((key, DeltaEntry::Value(val)), pos + 50 + t + vl))
    } else {
        None
    }
}

/// Join a parsed prefix with the outcome on the remainder.
pub open spec fn opt_cat(
    pre: Seq<(KeyModel, EntryModel)>,
    o: Option<Seq<(KeyModel, EntryModel)>>,
) -> Option<Seq<(KeyModel, EntryModel)>> {
    match o {
        None => None,
        Some(s) => Some(pre + s),
    }
}

/// Parse a persisted delta document back into an overlay. Fails exactly
/// where the document is not one that `delta_to_doc` writes for some
/// well-formed overlay: any corruption or truncation is rejected.
pub fn doc_to_delta(doc: &Vec<u8>) -> (r: Option<crate::delta::Delta>)
    ensures
        match r {
            Some(d) => d.wf() && parse_delta_doc(doc@) == Some(d.models()),
            None => parse_delta_doc(doc@) is None,
        },
{
    let n = doc.len();
    if n < 10 {
        return None;
    }
    let hdr = header_vec();
    let front = crate::bytes::copy_range(doc, 0, 9);
    if !crate::bytes::bytes_eq(&front, &hdr) {
        return None;
    }
    if doc[n - 1] != 0x0a {
        return None;
    }
    let hexpart = crate::bytes::copy_range(doc, 9, n - 1);
    let bin = match crate::bytes::hex_decode(&hexpart) {
        None => {
            return None;
        },
        Some(b) => b,
    };
    let bn = bin.len();
    if bn < 8 {
        return None;
    }
    let count = crate::bytes::read_u64_at(&bin, 0);
    let ghost total = parse_entries(bin@.skip(8), count as nat);
    let ghost outcome = match total {
        None => None::<Seq<(KeyModel, EntryModel)>>,
        Some(s) => if sorted_keys(s) {
            Some(s)
        } else {
            None
        },
    };
    proof {
        assert(u64_at(bin@, 0) == count);
        assert(parse_delta_bin(bin@) == total);
        assert(parse_delta_doc(doc@) == outcome);
    }
    let mut pairs: Vec<(StateKey, DeltaEntry)> = Vec::new();
    let mut pos: usize = 8;
    let mut i: u64 = 0;
    while i < count
        invariant
            8 <= pos <= bin@.len(),
            0 <= i <= count,
            total == parse_entries(bin@.skip(8), count as nat),
            outcome == (match total {
                None => None::<Seq<(KeyModel, EntryModel)>>,
                Some(s) => if sorted_keys(s) {
                    Some(s)
                } else {
                    None
                },
            }),
            parse_delta_doc(doc@) == outcome,
            total == opt_cat(
                crate::delta::pair_models(pairs@),
                parse_entries(bin@.skip(pos as int), (count - i) as nat),
            ),
        decreases count - i,
    {
        match parse_entry_at(&bin, pos) {
            None => {
                proof {
                    assert(parse_entries(bin@.skip(pos as int), (count - i) as nat) is None);
                }
                return None;
            },
            Some((kv, end)) => {
                let ghost pm_old = crate::delta::pair_models(pairs@);
                let ghost p = (kv.0@, kv.1@);
                pairs.push(kv);
                proof {
                    let m = (count - i) as nat;
                    assert(parse_entries(bin@.skip(pos as int), m)
                        == opt_cat(seq![p], parse_entries(bin@.skip(end as int), (m - 1) as nat)));
                    assert(crate::delta::pair_models(pairs@) =~= pm_old + seq![p]);
                    match parse_entries(bin@.skip(end as int), (m - 1) as nat) {
                        None => {},
                        Some(s) => {
                            assert(pm_old + (seq![p] + s) =~= (pm_old + seq![p]) + s);
                        },
                    }
                }
                pos = end;
                i = i + 1;
            },
        }
    }
    if pos != bn {
        proof {
            assert(bin@.skip(pos as int).len() > 0);
            assert(parse_entries(bin@.skip(pos as int), 0) is None);
        }
        return None;
    }
    proof {
        assert(bin@.skip(pos as int).len() == 0);
        assert(parse_entries(bin@.skip(pos as int), 0) == Some(Seq::<(KeyModel, EntryModel)>::empty()));
        assert(crate::delta::pair_models(pairs@) + Seq::<(KeyModel, EntryModel)>::empty()
            =~= crate::delta::pair_models(pairs@));
        assert(total == Some(crate::delta::pair_models(pairs@)));
    }
    match crate::delta::Delta::from_pairs(pairs) {
        Some(d) => Some(d),
        None => None,
    }
}

/// A truncated delta document never loads: every strict prefix of a
/// persisted document is rejected. A cut before the header's end fails the
/// length check, and any later cut ends inside the hex line, whose bytes
/// are hex digits and so can never pass the final-newline check.
pub proof fn lemma_truncation_detected(s: Seq<(KeyModel, EntryModel)>, n: int)
    requires
        0 <= n < delta_doc(s).len(),
    ensures
        parse_delta_doc(delta_doc(s).take(n)) is None,
{
    let doc = delta_doc(s);
    let bin = delta_bin(s);
    let hx = hex_enc(bin);
    lemma_hex_enc_len(bin);
    lemma_hex_enc_valid(bin);
    assert(doc.len() == 10 + hx.len());
    let p = doc.take(n);
    if n <= 9 {
        assert(p.len() < 10);
    } else {
        assert(9 <= n - 1 < 9 + hx.len());
        assert(p.last() == doc[n - 1]);
        assert(doc[n - 1] == hx[n - 1 - 9]);
        assert(crate::bytes::is_lower_hex_digit(hx[n - 1 - 9]));
        assert(p.last() != 0x0a);
        assert(p.len() >= 10);
    }
}

/// The persisted document is a function of the key→entry mapping alone:
/// two well-formed overlays with the same mapping — however their entries
/// arrived — persist to identical documents, keeping diffs reproducible.
pub proof fn lemma_doc_deterministic(
    s1: Seq<(KeyModel, EntryModel)>,
    s2: Seq<(KeyModel, EntryModel)>,
)
    requires
        sorted_keys(s1),
        sorted_keys(s2),
        crate::delta::entries_map(s1) == crate::delta::entries_map(s2),
    ensures
        delta_doc(s1) == delta_doc(s2),
{
    lemma_sorted_canonical(s1, s2);
}

/// The encoding of a pair list distributes over concatenation.
pub proof fn lemma_enc_entries_concat(a: Seq<(KeyModel, EntryModel)>, b: Seq<(KeyModel, EntryModel)>)
    ensures
        enc_entries(a + b) == enc_entries(a) + enc_entries(b),
    decreases a.len(),
{
    if a.len() == 0 {
        assert(a + b =~= b);
        assert(enc_entries(a) + enc_entries(b) =~= enc_entries(b));
    } else {
        lemma_enc_entries_concat(a.drop_first(), b);
        assert((a + b).drop_first() =~= a.drop_first() + b);
        assert((a + b)[0] == a[0]);
        assert(enc_entry(a[0].0, a[0].1) + (enc_entries(a.drop_first()) + enc_entries(b))
            =~= (enc_entry(a[0].0, a[0].1) + enc_entries(a.drop_first())) + enc_entries(b));
    }
}

} // verus!
