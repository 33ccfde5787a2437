use vstd::prelude::*;
use crate::bytes::{
    u64_le_bytes, u64_at, u128_hi, u128_lo, u128_join, lemma_u64_at_le, lemma_u128_split_join,
    lemma_u64_le_round,
};
use crate::state::{Address, PathKind, StateKey};
use crate::codec::enc_addr;

verus! {

// ---------------------------------------------------------------------------
// Canonical storage paths
// ---------------------------------------------------------------------------

/// ASCII "balance": the tag under which an account's balance resource is
/// stored.
pub open spec fn balance_tag() -> Seq<u8> {
    seq![0x62u8, 0x61u8, 0x6cu8, 0x61u8, 0x6eu8, 0x63u8, 0x65u8]
}

/// ASCII "account": the tag under which an account's record (sequence
/// number and authentication key) is stored.
pub open spec fn account_tag() -> Seq<u8> {
    seq![0x61u8, 0x63u8, 0x63u8, 0x6fu8, 0x75u8, 0x6eu8, 0x74u8]
}

pub fn balance_tag_vec() -> (r: Vec<u8>)
    ensures
        r@ == balance_tag(),
{
    let mut r: Vec<u8> = Vec::new();
    r.push(0x62u8);
    r.push(0x61u8);
    r.push(0x6cu8);
    r.push(0x61u8);
    r.push(0x6eu8);
    r.push(0x63u8);
    r.push(0x65u8);
    proof {
        assert(r@ =~= balance_tag());
    }
    r
}

pub fn account_tag_vec() -> (r: Vec<u8>)
    ensures
        r@ == account_tag(),
{
    let mut r: Vec<u8> = Vec::new();
    r.push(0x61u8);
    r.push(0x63u8);
    r.push(0x63u8);
    r.push(0x6fu8);
    r.push(0x75u8);
    r.push(0x6eu8);
    r.push(0x74u8);
    proof {
        assert(r@ =~= account_tag());
    }
    r
}

pub open spec fn spec_balance_key(a: Address) -> crate::state::KeyModel {
    crate::state::KeyModel { addr: a, kind: PathKind::Resource, tag: balance_tag() }
}

pub open spec fn spec_account_key(a: Address) -> crate::state::KeyModel {
    crate::state::KeyModel { addr: a, kind: PathKind::Resource, tag: account_tag() }
}

pub fn balance_key(a: Address) -> (r: StateKey)
    ensures
        r@ == spec_balance_key(a),
{
    StateKey::new(a, PathKind::Resource, balance_tag_vec())
}

pub fn account_key(a: Address) -> (r: StateKey)
    ensures
        r@ == spec_account_key(a),
{
    StateKey::new(a, PathKind::Resource, account_tag_vec())
}

// ---------------------------------------------------------------------------
// Balance resource: one 64-bit amount, little-endian
// ---------------------------------------------------------------------------

pub open spec fn balance_bytes(v: u64) -> Seq<u8> {
    u64_le_bytes(v)
}

pub open spec fn spec_decode_balance(b: Seq<u8>) -> Option<u64> {
    if b.len() == 8 {
        Some(u64_at(b, 0))
    } else {
        None
    }
}

pub fn encode_balance(v: u64) -> (r: Vec<u8>)
    ensures
        r@ == balance_bytes(v),
{
    crate::bytes::u64_to_le(v)
}

/// Decode a balance resource; fails on any other shape.
pub fn decode_balance(b: &Vec<u8>) -> (r: Option<u64>)
    ensures
        r == spec_decode_balance(b@),
{
    if b.len() == 8 {
        Some(crate::bytes::read_u64_at(b, 0))
    } else {
        None
    }
}

/// A balance round-trips through its resource bytes.
pub proof fn lemma_balance_round(v: u64)
    ensures
        spec_decode_balance(balance_bytes(v)) == Some(v),
{
    lemma_u64_le_round(v);
}

// ---------------------------------------------------------------------------
// Account resource: sequence number and authentication key
// ---------------------------------------------------------------------------

#[derive(Clone, Copy, PartialEq, Eq, Structural, Debug)]
pub struct AccountResource {
    pub sequence_number: u64,
    pub auth_key: Address,
}

pub open spec fn account_bytes(a: AccountResource) -> Seq<u8> {
    u64_le_bytes(a.sequence_number) + enc_addr(a.auth_key)
}

pub open spec fn spec_decode_account(b: Seq<u8>) -> Option<AccountResource> {
    if b.len() == 40 {
        Some(AccountResource {
            sequence_number: u64_at(b, 0),
            auth_key: Address {
                hi: u128_join(u64_at(b, 8), u64_at(b, 16)),
                lo: u128_join(u64_at(b, 24), u64_at(b, 32)),
            },
        })
    } else {
        None
    }
}

pub fn encode_account(a: AccountResource) -> (r: Vec<u8>)
    ensures
        r@ == account_bytes(a),
{
    let mut r = crate::bytes::u64_to_le(a.sequence_number);
    let w0 = crate::bytes::u64_to_le((a.auth_key.hi >> 64) as u64);
    let w1 = crate::bytes::u64_to_le(a.auth_key.hi as u64);
    let w2 = crate::bytes::u64_to_le((a.auth_key.lo >> 64) as u64);
    let w3 = crate::bytes::u64_to_le(a.auth_key.lo as u64);
    crate::bytes::append_bytes(&mut r, &w0);
    crate::bytes::append_bytes(&mut r, &w1);
    crate::bytes::append_bytes(&mut r, &w2);
    crate::bytes::append_bytes(&mut r, &w3);
    proof {
        assert(r@ =~= account_bytes(a));
    }
    r
}

/// Decode an account resource; fails on any other shape.
pub fn decode_account(b: &Vec<u8>) -> (r: Option<AccountResource>)
    ensures
        r == spec_decode_account(b@),
{
    if b.len() == 40 {
        Some(AccountResource {
            sequence_number: crate::bytes::read_u64_at(b, 0),
            auth_key: Address {
                hi: ((crate::bytes::read_u64_at(b, 8) as u128) << 64)
                    | (crate::bytes::read_u64_at(b, 16) as u128),
                lo: ((crate::bytes::read_u64_at(b, 24) as u128) << 64)
                    | (crate::bytes::read_u64_at(b, 32) as u128),
            },
        })
    } else {
        None
    }
}

/// An account record round-trips through its resource bytes.
pub proof fn lemma_account_round(a: AccountResource)
    ensures
        spec_decode_account(account_bytes(a)) == Some(a),
{
    let b = account_bytes(a);
    assert(b.subrange(0, 8) =~= u64_le_bytes(a.sequence_number));
    assert(b.subrange(8, 16) =~= u64_le_bytes(u128_hi(a.auth_key.hi)));
    assert(b.subrange(16, 24) =~= u64_le_bytes(u128_lo(a.auth_key.hi)));
    assert(b.subrange(24, 32) =~= u64_le_bytes(u128_hi(a.auth_key.lo)));
    assert(b.subrange(32, 40) =~= u64_le_bytes(u128_lo(a.auth_key.lo)));
    lemma_u64_at_le(b, 0, a.sequence_number);
    lemma_u64_at_le(b, 8, u128_hi(a.auth_key.hi));
    lemma_u64_at_le(b, 16, u128_lo(a.auth_key.hi));
    lemma_u64_at_le(b, 24, u128_hi(a.auth_key.lo));
    lemma_u64_at_le(b, 32, u128_lo(a.auth_key.lo));
    lemma_u128_split_join(a.auth_key.hi);
    lemma_u128_split_join(a.auth_key.lo);
}

// ---------------------------------------------------------------------------
// Resource groups: one stored blob multiplexing several tagged members
// ---------------------------------------------------------------------------

pub open spec fn enc_member(tag: Seq<u8>, val: Seq<u8>) -> Seq<u8> {
    u64_le_bytes(tag.len() as u64) + tag + u64_le_bytes(val.len() as u64) + val
}

pub open spec fn wf_member(m: (Seq<u8>, Seq<u8>)) -> bool {
    m.0.len() < 0x1_0000_0000_0000_0000 && m.1.len() < 0x1_0000_0000_0000_0000
}

pub open spec fn enc_members(ms: Seq<(Seq<u8>, Seq<u8>)>) -> Seq<u8>
    decreases ms.len(),
{
    if ms.len() == 0 {
        Seq::<u8>::empty()
    } else {
        enc_member(ms[0].0, ms[0].1) + enc_members(ms.drop_first())
    }
}

/// Parse a group blob into its tagged members; any malformed byte fails.
#[verifier::opaque]
pub open spec fn parse_members(b: Seq<u8>) -> Option<Seq<(Seq<u8>, Seq<u8>)>>
    decreases b.len(),
{
    if b.len() == 0 {
        Some(Seq::<(Seq<u8>, Seq<u8>)>::empty())
    } else if b.len() < 16 {
        None
    } else {
        let t = u64_at(b, 0) as int;
        if b.len() < 16 + t {
            None
        } else {
            let tag = b.subrange(8, 8 + t);
            let vl = u64_at(b, 8 + t) as int;
            if b.len() < 16 + t + vl {
                None
            } else {
                let val = b.subrange(16 + t, 16 + t + vl);
                match parse_members(b.skip(16 + t + vl)) {
                    None => None,
                    Some(ms) => Some(seq![(tag, val)] + ms),
                }
            }
        }
    }
}

/// The first member carrying `tag`, if any.
pub open spec fn group_find(ms: Seq<(Seq<u8>, Seq<u8>)>, tag: Seq<u8>) -> Option<Seq<u8>>
    decreases ms.len(),
{
    if ms.len() == 0 {
        None
    } else if ms[0].0 == tag {
        Some(ms[0].1)
    } else {
        group_find(ms.drop_first(), tag)
    }
}

/// Parsing an encoded member list yields it back.
#[verifier::rlimit(100)]
pub proof fn lemma_parse_members_enc(ms: Seq<(Seq<u8>, Seq<u8>)>)
    requires
        forall|i: int| 0 <= i < ms.len() ==> wf_member(#[trigger] ms[i]),
    ensures
        parse_members(enc_members(ms)) == Some(ms),
    decreases ms.len(),
{
    reveal(parse_members);
    if ms.len() == 0 {
    } else {
        let tail = ms.drop_first();
        assert(forall|i: int| 0 <= i < tail.len() ==> (#[trigger] tail[i]) == ms[i + 1]);
        lemma_parse_members_enc(tail);
        let tag = ms[0].0;
        let val = ms[0].1;
        let t = tag.len() as int;
        let vl = val.len() as int;
        let b = enc_members(ms);
        assert(b == enc_member(tag, val) + enc_members(tail));
        assert(enc_member(tag, val).len() == 16 + t + vl);
        assert(b.subrange(0, 8) =~= u64_le_bytes(tag.len() as u64));
        lemma_u64_at_le(b, 0, tag.len() as u64);
        assert(b.subrange(8, 8 + t) =~= tag);
        assert(b.subrange(8 + t, 16 + t) =~= u64_le_bytes(val.len() as u64));
        lemma_u64_at_le(b, 8 + t, val.len() as u64);
        assert(b.subrange(16 + t, 16 + t + vl) =~= val);
        assert(b.skip(16 + t + vl) =~= enc_members(tail));
        assert(parse_members(b.skip(16 + t + vl)) == Some(tail));
        assert(ms[0] == (tag, val));
        assert(seq![ms[0]] + tail =~= ms);
        assert(parse_members(b) == Some(seq![(tag, val)] + tail));
    }
}

/// Build a group blob from members.
pub fn encode_group(ms: &Vec<(Vec<u8>, Vec<u8>)>) -> (r: Vec<u8>)
    ensures
        r@ == enc_members(member_models(ms@)),
{
    let ghost gms = member_models(ms@);
    let n = ms.len();
    let mut r: Vec<u8> = Vec::new();
    let mut i: usize = 0;
    while i < n
        invariant
            n == ms@.len(),
            gms == member_models(ms@),
            0 <= i <= n,
            r@ == enc_members(gms.take(i as int)),
        decreases n - i,
    {
        let tl = crate::bytes::u64_to_le(ms[i].0.len() as u64);
        crate::bytes::append_bytes(&mut r, &tl);
        crate::bytes::append_bytes(&mut r, &ms[i].0);
        let vl = crate::bytes::u64_to_le(ms[i].1.len() as u64);
        crate::bytes::append_bytes(&mut r, &vl);
        crate::bytes::append_bytes(&mut r, &ms[i].1);
        proof {
            let tk = gms.take((i as int) + 1);
            assert(tk =~= gms.take(i as int) + seq![gms[i as int]]);
            lemma_enc_members_concat(gms.take(i as int), seq![gms[i as int]]);
            assert(enc_members(Seq::<(Seq<u8>, Seq<u8>)>::empty()) == Seq::<u8>::empty());
            assert(enc_members(seq![gms[i as int]]) =~= enc_member(gms[i as int].0, gms[i as int].1)) by {
                assert(seq![gms[i as int]][0] == gms[i as int]);
                assert(seq![gms[i as int]].drop_first() =~= Seq::<(Seq<u8>, Seq<u8>)>::empty());
                assert(enc_member(gms[i as int].0, gms[i as int].1) + Seq::<u8>::empty()
                    =~= enc_member(gms[i as int].0, gms[i as int].1));
            }
            assert(gms[i as int] == (ms@[i as int].0@, ms@[i as int].1@));
            assert(r@ =~= enc_members(tk));
        }
        i = i + 1;
    }
    proof {
        assert(gms.take(n as int) =~= gms);
    }
    r
}

pub open spec fn member_models(s: Seq<(Vec<u8>, Vec<u8>)>) -> Seq<(Seq<u8>, Seq<u8>)> {
    s.map_values(|p: (Vec<u8>, Vec<u8>)| (p.0@, p.1@))
}

pub open spec fn opt_mcat(
    pre: Seq<(Seq<u8>, Seq<u8>)>,
    o: Option<Seq<(Seq<u8>, Seq<u8>)>>,
) -> Option<Seq<(Seq<u8>, Seq<u8>)>> {
    match o {
        None => None,
        Some(s) => Some(pre + s),
    }
}

pub proof fn lemma_enc_members_concat(a: Seq<(Seq<u8>, Seq<u8>)>, b: Seq<(Seq<u8>, Seq<u8>)>)
    ensures
        enc_members(a + b) == enc_members(a) + enc_members(b),
    decreases a.len(),
{
    if a.len() == 0 {
        assert(a + b =~= b);
        assert(enc_members(a) + enc_members(b) =~= enc_members(b));
    } else {
        lemma_enc_members_concat(a.drop_first(), b);
        assert((a + b).drop_first() =~= a.drop_first() + b);
        assert((a + b)[0] == a[0]);
        assert(enc_member(a[0].0, a[0].1) + (enc_members(a.drop_first()) + enc_members(b))
            =~= (enc_member(a[0].0, a[0].1) + enc_members(a.drop_first())) + enc_members(b));
    }
}

/// Parse one member at `pos`.
fn parse_member_at(b: &Vec<u8>, pos: usize) -> (r: Option<((Vec<u8>, Vec<u8>), usize)>)
    requires
        pos < b@.len(),
    ensures
        match r {
            None => parse_members(b@.skip(pos as int)) is None,
            Some((m, end)) => {
                &&& pos < end <= b@.len()
                &&& parse_members(b@.skip(pos as int)) == opt_mcat(
                    seq![(m.0@, m.1@)],
                    parse_members(b@.skip(end as int)),
                )
            },
        },
{
    proof {
        reveal(parse_members);
    }
    let ghost sk = b@.skip(pos as int);
    proof {
        assert(forall|k: int| 0 <= k < sk.len() ==> #[trigger] sk[k] == b@[pos + k]);
    }
    let n = b.len();
    if n - pos < 16 {
        return None;
    }
    let t64 = crate::bytes::read_u64_at(b, pos);
    proof {
        assert(u64_at(sk, 0) == t64);
    }
    if t64 > ((n - (pos + 16)) as u64) {
        proof {
            assert(sk.len() < 16 + t64 as int);
        }
        return None;
    }
    let t = t64 as usize;
    let tag = crate::bytes::copy_range(b, pos + 8, pos + 8 + t);
    proof {
        assert(tag@ =~= sk.subrange(8, 8 + t64 as int));
    }
    let vl64 = crate::bytes::read_u64_at(b, pos + 8 + t);
    proof {
        assert(u64_at(sk, 8 + t64 as int) == vl64);
    }
    if vl64 > ((n - (pos + 16 + t)) as u64) {
        proof {
            assert(sk.len() < 16 + t64 as int + vl64 as int);
        }
        return None;
    }
    let vl = vl64 as usize;
    let val = crate::bytes::copy_range(b, pos + 16 + t, pos + 16 + t + vl);
    proof {
        assert(val@ =~= sk.subrange(16 + t64 as int, 16 + t64 as int + vl64 as int));
        assert(b@.skip((pos + 16 + t + vl) as int) =~= sk.skip(16 + t64 as int + vl64 as int));
    }
    Some(((tag, val), pos + 16 + t + vl))
}

/// Demultiplex one member out of a group blob: the first member carrying
/// `tag`, or `None` if the group has none; a malformed blob is an error.
pub fn group_lookup(blob: &Vec<u8>, tag: &Vec<u8>) -> (r: Result<Option<Vec<u8>>, ()>)
    ensures
        match r {
            Err(()) => parse_members(blob@) is None,
            Ok(o) => {
                &&& parse_members(blob@) is Some
                &&& (o matches Some(v) ==> group_find(parse_members(blob@).unwrap(), tag@)
                    == Some(v@))
                &&& (o is None ==> group_find(parse_members(blob@).unwrap(), tag@) is None)
            },
        },
{
    let ghost total = parse_members(blob@);
    let mut acc: Vec<(Vec<u8>, Vec<u8>)> = Vec::new();
    let mut pos: usize = 0;
    let n = blob.len();
    proof {
        assert(blob@.skip(0) =~= blob@);
        assert(member_models(acc@) =~= Seq::<(Seq<u8>, Seq<u8>)>::empty());
        match total {
            None => {},
            Some(s) => {
                assert(member_models(acc@) + s =~= s);
            },
        }
    }
    while pos < n
        invariant
            0 <= pos <= n,
            n == blob@.len(),
            total == parse_members(blob@),
            total == opt_mcat(member_models(acc@), parse_members(blob@.skip(pos as int))),
        decreases n - pos,
    {
        match parse_member_at(blob, pos) {
            None => {
                return Err(());
            },
            Some((m, end)) => {
                let ghost pm_old = member_models(acc@);
                let ghost p = (m.0@, m.1@);
                acc.push(m);
                proof {
                    assert(member_models(acc@) =~= pm_old + seq![p]);
                    match parse_members(blob@.skip(end as int)) {
                        None => {},
                        Some(s) => {
                            assert(pm_old + (seq![p] + s) =~= (pm_old + seq![p]) + s);
                        },
                    }
                }
                pos = end;
            },
        }
    }
    proof {
        reveal(parse_members);
        assert(blob@.skip(pos as int).len() == 0);
        assert(parse_members(blob@.skip(pos as int)) == Some(Seq::<(Seq<u8>, Seq<u8>)>::empty()));
        assert(member_models(acc@) + Seq::<(Seq<u8>, Seq<u8>)>::empty() =~= member_models(acc@));
        assert(total == Some(member_models(acc@)));
    }
    let ghost ms = member_models(acc@);
    proof {
        assert(ms.skip(0) =~= ms);
    }
    let cnt = acc.len();
    let mut i: usize = 0;
    while i < cnt
        invariant
            0 <= i <= cnt,
            cnt == acc@.len(),
            ms == member_models(acc@),
            parse_members(blob@) == Some(ms),
            forall|j: int| 0 <= j < i ==> (#[trigger] ms[j]).0 != tag@,
            group_find(ms, tag@) == group_find(ms.skip(i as int), tag@),
        decreases cnt - i,
    {
        if crate::bytes::bytes_eq(&acc[i].0, tag) {
            let v = crate::bytes::copy_range(&acc[i].1, 0, acc[i].1.len());
            proof {
                assert(ms[i as int] == (acc@[i as int].0@, acc@[i as int].1@));
                assert(ms.skip(i as int)[0] == ms[i as int]);
                assert(group_find(ms.skip(i as int), tag@) == Some(ms[i as int].1));
                assert(v@ =~= acc@[i as int].1@);
            }
            return Ok(Some(v));
        }
        proof {
            assert(ms.skip(i as int)[0] == ms[i as int]);
            assert(ms.skip(i as int).drop_first() =~= ms.skip((i as int) + 1));
        }
        i = i + 1;
    }
    proof {
        assert(ms.skip(cnt as int).len() == 0);
    }
    Ok(None)
}

} // verus!
