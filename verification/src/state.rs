use vstd::prelude::*;

verus! {

/// An account address on the ledger: 32 bytes, held as two 128-bit halves.
#[derive(Clone, Copy, PartialEq, Eq, Structural, Debug)]
pub struct Address {
    pub hi: u128,
    pub lo: u128,
}

impl Address {
    pub fn new(hi: u128, lo: u128) -> (r: Address)
        ensures
            r == (Address { hi, lo }),
    {
        Address { hi, lo }
    }
}

/// Deterministic derivation of a dependent object's address from an owner
/// address and a seed address. The ledger derives such addresses with a
/// cryptographic digest; this library needs only a fixed deterministic
/// function of the two inputs.
pub open spec fn spec_derive_object_address(owner: Address, seed: Address) -> Address {
    Address {
        hi: owner.hi ^ ((seed.lo << 64) | (seed.lo >> 64)) ^ 0xfe,
        lo: owner.lo ^ ((seed.hi << 1) | (seed.hi >> 127)) ^ 0x0d,
    }
}

pub fn derive_object_address(owner: Address, seed: Address) -> (r: Address)
    ensures
        r == spec_derive_object_address(owner, seed),
{
    Address {
        hi: owner.hi ^ ((seed.lo << 64) | (seed.lo >> 64)) ^ 0xfe,
        lo: owner.lo ^ ((seed.hi << 1) | (seed.hi >> 127)) ^ 0x0d,
    }
}

/// One step of the byte fold behind `spec_auth_key_of`.
pub open spec fn fold_step(acc: u128, b: u8) -> u128 {
    ((acc << 8) | (acc >> 120)) ^ (b as u128)
}

/// Fold a byte string into a 128-bit accumulator, left to right.
pub open spec fn spec_fold128(b: Seq<u8>, seed: u128) -> u128
    decreases b.len(),
{
    if b.len() == 0 {
        seed
    } else {
        fold_step(spec_fold128(b.drop_last(), seed), b.last())
    }
}

/// The authentication key recorded for an account, derived deterministically
/// from the account's public key bytes. The ledger derives it with a
/// cryptographic digest of the key material; this library needs only a fixed
/// deterministic function.
pub open spec fn spec_auth_key_of(pk: Seq<u8>) -> Address {
    Address { hi: spec_fold128(pk, 0x11), lo: spec_fold128(pk, 0x47) }
}

fn fold128(b: &Vec<u8>, seed: u128) -> (r: u128)
    ensures
        r == spec_fold128(b@, seed),
{
    let n = b.len();
    let mut acc: u128 = seed;
    let mut i: usize = 0;
    while i < n
        invariant
            n == b@.len(),
            0 <= i <= n,
            acc == spec_fold128(b@.subrange(0, i as int), seed),
        decreases n - i,
    {
        proof {
            assert(b@.subrange(0, i + 1 as int).drop_last() =~= b@.subrange(0, i as int));
            assert(b@.subrange(0, i + 1 as int).last() == b@[i as int]);
        }
        acc = ((acc << 8) | (acc >> 120)) ^ (b[i] as u128);
        i = i + 1;
    }
    proof {
        assert(b@.subrange(0, n as int) =~= b@);
    }
    acc
}

pub fn auth_key_of(pk: &Vec<u8>) -> (r: Address)
    ensures
        r == spec_auth_key_of(pk@),
{
    Address { hi: fold128(pk, 0x11), lo: fold128(pk, 0x47) }
}

/// Whether a storage path names a plain resource or a resource group.
#[derive(Clone, Copy, PartialEq, Eq, Structural, Debug)]
pub enum PathKind {
    Resource,
    ResourceGroup,
}

/// Identifies one stored state entry: an account address plus a typed
/// storage path (a resource tag or a resource-group tag).
#[derive(Clone, Debug)]
pub struct StateKey {
    pub addr: Address,
    pub kind: PathKind,
    pub tag: Vec<u8>,
}

/// The mathematical model of a state key.
pub struct KeyModel {
    pub addr: Address,
    pub kind: PathKind,
    pub tag: Seq<u8>,
}

impl View for StateKey {
    type V = KeyModel;

    open spec fn view(&self) -> KeyModel {
        KeyModel { addr: self.addr, kind: self.kind, tag: self.tag@ }
    }
}

impl StateKey {
    pub fn new(addr: Address, kind: PathKind, tag: Vec<u8>) -> (r: StateKey)
        ensures
            r@ == (KeyModel { addr, kind, tag: tag@ }),
    {
        StateKey { addr, kind, tag }
    }

    /// A copy with the same model.
    pub fn duplicate(&self) -> (r: StateKey)
        ensures
            r@ == self@,
    {
        let tag = crate::bytes::copy_range(&self.tag, 0, self.tag.len());
        proof {
            assert(self.tag@.subrange(0, self.tag@.len() as int) =~= self.tag@);
        }
        StateKey { addr: self.addr, kind: self.kind, tag }
    }

    /// Whether this key comes strictly before `other` in the store order.
    pub fn key_before(&self, other: &StateKey) -> (r: bool)
        ensures
            r == key_lt(self@, other@),
    {
        if self.addr.hi != other.addr.hi {
            return self.addr.hi < other.addr.hi;
        }
        if self.addr.lo != other.addr.lo {
            return self.addr.lo < other.addr.lo;
        }
        let ra: u8 = match self.kind {
            PathKind::Resource => 0,
            PathKind::ResourceGroup => 1,
        };
        let rb: u8 = match other.kind {
            PathKind::Resource => 0,
            PathKind::ResourceGroup => 1,
        };
        if ra != rb {
            return ra < rb;
        }
        bytes_before(&self.tag, &other.tag)
    }

    /// Structural equality of two keys.
    pub fn key_eq(&self, other: &StateKey) -> (r: bool)
        ensures
            r == (self@ == other@),
    {
        let kinds_match = match (self.kind, other.kind) {
            (PathKind::Resource, PathKind::Resource) => true,
            (PathKind::ResourceGroup, PathKind::ResourceGroup) => true,
            _ => false,
        };
        let r = self.addr == other.addr && kinds_match && crate::bytes::bytes_eq(&self.tag, &other.tag);
        proof {
            if r {
                assert(self@ == other@);
            } else {
                assert(self@ != other@);
            }
        }
        r
    }
}

/// Strict lexicographic order on byte strings; a proper prefix comes first.
pub open spec fn bytes_lt(x: Seq<u8>, y: Seq<u8>) -> bool
    decreases x.len(),
{
    if y.len() == 0 {
        false
    } else if x.len() == 0 {
        true
    } else if x[0] < y[0] {
        true
    } else if x[0] > y[0] {
        false
    } else {
        bytes_lt(x.drop_first(), y.drop_first())
    }
}

pub proof fn lemma_bytes_lt_connex(x: Seq<u8>, y: Seq<u8>)
    ensures
        bytes_lt(x, y) || bytes_lt(y, x) || x == y,
    decreases x.len(),
{
    if x.len() == 0 && y.len() == 0 {
        assert(x =~= y);
    } else if x.len() > 0 && y.len() > 0 && x[0] == y[0] {
        lemma_bytes_lt_connex(x.drop_first(), y.drop_first());
        if x.drop_first() == y.drop_first() {
            assert(seq![x[0]] + x.drop_first() =~= x);
            assert(seq![y[0]] + y.drop_first() =~= y);
            assert(x == y);
        }
    }
}

pub proof fn lemma_bytes_lt_irrefl(x: Seq<u8>)
    ensures
        !bytes_lt(x, x),
    decreases x.len(),
{
    if x.len() > 0 {
        lemma_bytes_lt_irrefl(x.drop_first());
    }
}

pub proof fn lemma_bytes_lt_trans(x: Seq<u8>, y: Seq<u8>, z: Seq<u8>)
    requires
        bytes_lt(x, y),
        bytes_lt(y, z),
    ensures
        bytes_lt(x, z),
    decreases x.len(),
{
    if x.len() > 0 && y.len() > 0 && z.len() > 0 && x[0] == y[0] && y[0] == z[0] {
        lemma_bytes_lt_trans(x.drop_first(), y.drop_first(), z.drop_first());
    }
}

/// Whether `x` comes strictly before `y` lexicographically.
pub fn bytes_before(x: &Vec<u8>, y: &Vec<u8>) -> (r: bool)
    ensures
        r == bytes_lt(x@, y@),
{
    let xn = x.len();
    let yn = y.len();
    let n: usize = if xn < yn { xn } else { yn };
    let mut i: usize = 0;
    proof {
        assert(x@.skip(0) =~= x@);
        assert(y@.skip(0) =~= y@);
    }
    while i < n
        invariant
            n <= xn && n <= yn,
            xn == x@.len() && yn == y@.len(),
            0 <= i <= n,
            bytes_lt(x@, y@) == bytes_lt(x@.skip(i as int), y@.skip(i as int)),
        decreases n - i,
    {
        proof {
            assert(x@.skip(i as int)[0] == x@[i as int]);
            assert(y@.skip(i as int)[0] == y@[i as int]);
        }
        if x[i] < y[i] {
            return true;
        }
        if x[i] > y[i] {
            return false;
        }
        proof {
            assert(x@.skip(i as int).drop_first() =~= x@.skip((i as int) + 1));
            assert(y@.skip(i as int).drop_first() =~= y@.skip((i as int) + 1));
        }
        i = i + 1;
    }
    proof {
        if xn <= yn {
            assert(x@.skip(n as int).len() == 0);
        } else {
            assert(y@.skip(n as int).len() == 0);
        }
    }
    xn < yn
}

/// The position of a path kind in the key order.
pub open spec fn kind_rank(k: PathKind) -> int {
    match k {
        PathKind::Resource => 0,
        PathKind::ResourceGroup => 1,
    }
}

/// The strict total order on keys the overlay is kept in: address halves,
/// then path kind, then the tag lexicographically.
pub open spec fn key_lt(a: KeyModel, b: KeyModel) -> bool {
    if a.addr.hi != b.addr.hi {
        a.addr.hi < b.addr.hi
    } else if a.addr.lo != b.addr.lo {
        a.addr.lo < b.addr.lo
    } else if kind_rank(a.kind) != kind_rank(b.kind) {
        kind_rank(a.kind) < kind_rank(b.kind)
    } else {
        bytes_lt(a.tag, b.tag)
    }
}

pub proof fn lemma_key_lt_connex(a: KeyModel, b: KeyModel)
    ensures
        key_lt(a, b) || key_lt(b, a) || a == b,
{
    if a.addr.hi == b.addr.hi && a.addr.lo == b.addr.lo && kind_rank(a.kind) == kind_rank(b.kind) {
        lemma_bytes_lt_connex(a.tag, b.tag);
        if a.tag == b.tag {
            assert(a.addr == b.addr);
            assert(a.kind == b.kind);
        }
    }
}

pub proof fn lemma_key_lt_irrefl(a: KeyModel)
    ensures
        !key_lt(a, a),
{
    lemma_bytes_lt_irrefl(a.tag);
}

pub proof fn lemma_key_lt_trans(a: KeyModel, b: KeyModel, c: KeyModel)
    requires
        key_lt(a, b),
        key_lt(b, c),
    ensures
        key_lt(a, c),
{
    if a.addr == b.addr && b.addr == c.addr && a.kind == b.kind && b.kind == c.kind {
        lemma_bytes_lt_trans(a.tag, b.tag, c.tag);
    }
}

/// One overlay entry: a concrete value or an explicit deletion marker.
#[derive(Clone, Debug)]
pub enum DeltaEntry {
    Value(Vec<u8>),
    Tombstone,
}

/// The mathematical model of an overlay entry.
pub enum EntryModel {
    Value(Seq<u8>),
    Tombstone,
}

impl View for DeltaEntry {
    type V = EntryModel;

    open spec fn view(&self) -> EntryModel {
        match self {
            DeltaEntry::Value(v) => EntryModel::Value(v@),
            DeltaEntry::Tombstone => EntryModel::Tombstone,
        }
    }
}

impl DeltaEntry {
    /// A copy with the same model.
    pub fn duplicate(&self) -> (r: DeltaEntry)
        ensures
            r@ == self@,
    {
        match self {
            DeltaEntry::Value(v) => {
                let w = crate::bytes::copy_range(v, 0, v.len());
                proof {
                    assert(v@.subrange(0, v@.len() as int) =~= v@);
                }
                DeltaEntry::Value(w)
            },
            DeltaEntry::Tombstone => DeltaEntry::Tombstone,
        }
    }

    /// Structural equality of two entries.
    pub fn entry_eq(&self, other: &DeltaEntry) -> (r: bool)
        ensures
            r == (self@ == other@),
    {
        match (self, other) {
            (DeltaEntry::Value(a), DeltaEntry::Value(b)) => crate::bytes::bytes_eq(a, b),
            (DeltaEntry::Tombstone, DeltaEntry::Tombstone) => true,
            _ => false,
        }
    }
}

} // verus!
