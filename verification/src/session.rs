use vstd::prelude::*;
use crate::bytes::{
    u64_le_bytes, u64_at, hex_enc, hex_dec, valid_hex, lemma_u64_at_le, lemma_hex_enc_len,
    lemma_hex_enc_valid, lemma_hex_round,
};
use crate::state::{Address, StateKey, DeltaEntry, KeyModel, EntryModel, spec_auth_key_of};
use crate::delta::{Delta, pair_models, overwrite};
use crate::view::{ReadModel, ReadResult, combined_lookup, combined_get};
use crate::errors::{SimError, Outcome};
use crate::resource::{
    spec_balance_key, spec_account_key, balance_key, account_key, balance_bytes,
    spec_decode_balance, decode_balance, encode_balance, account_bytes, spec_decode_account,
    decode_account, encode_account, AccountResource,
};
use crate::txn::{SignedTransaction, TxnModel, ExecStatus, ExecContext, PayloadOutcome,
    spec_validate, validate_transaction};
use crate::codec::{delta_doc, parse_delta_doc};

verus! {

/// The chain identifier a fresh local session uses.
pub const DEFAULT_CHAIN_ID: u64 = 126;

/// A session's configuration, frozen at creation: the remote endpoint (absent
/// for a purely local session), the baseline version the fork is pinned to,
/// an optional API key, and the chain identifier.
pub struct SessionConfig {
    pub remote_url: Option<Vec<u8>>,
    pub baseline_version: u64,
    pub api_key: Option<Vec<u8>>,
    pub chain_id: u64,
}

pub struct ConfigModel {
    pub remote_url: Option<Seq<u8>>,
    pub baseline_version: u64,
    pub api_key: Option<Seq<u8>>,
    pub chain_id: u64,
}

impl View for SessionConfig {
    type V = ConfigModel;

    open spec fn view(&self) -> ConfigModel {
        ConfigModel {
            remote_url: match self.remote_url {
                Some(ref u) => Some(u@),
                None => None,
            },
            baseline_version: self.baseline_version,
            api_key: match self.api_key {
                Some(ref k) => Some(k@),
                None => None,
            },
            chain_id: self.chain_id,
        }
    }
}

// ---------------------------------------------------------------------------
// Config document codec
// ---------------------------------------------------------------------------

pub open spec fn opt_flag(o: Option<Seq<u8>>) -> u8 {
    match o {
        None => 0,
        Some(_) => 1,
    }
}

pub open spec fn opt_bytes(o: Option<Seq<u8>>) -> Seq<u8> {
    match o {
        None => Seq::<u8>::empty(),
        Some(s) => s,
    }
}

pub open spec fn wf_config(c: ConfigModel) -> bool {
    opt_bytes(c.remote_url).len() < 0x1_0000_0000_0000_0000
        && opt_bytes(c.api_key).len() < 0x1_0000_0000_0000_0000
}

pub open spec fn config_bin(c: ConfigModel) -> Seq<u8> {
    seq![opt_flag(c.remote_url)]
        + u64_le_bytes(opt_bytes(c.remote_url).len() as u64) + opt_bytes(c.remote_url)
        + u64_le_bytes(c.baseline_version)
        + seq![opt_flag(c.api_key)]
        + u64_le_bytes(opt_bytes(c.api_key).len() as u64) + opt_bytes(c.api_key)
        + u64_le_bytes(c.chain_id)
}

/// ASCII "config v1" and a newline.
pub open spec fn config_header() -> Seq<u8> {
    seq![0x63u8, 0x6fu8, 0x6eu8, 0x66u8, 0x69u8, 0x67u8, 0x20u8, 0x76u8, 0x31u8, 0x0au8]
}

pub open spec fn config_doc(c: ConfigModel) -> Seq<u8> {
    config_header() + hex_enc(config_bin(c)) + seq![0x0au8]
}

#[verifier::opaque]
pub open spec fn parse_config_bin(b: Seq<u8>) -> Option<ConfigModel> {
    if b.len() < 34 {
        None
    } else if b[0] != 0 && b[0] != 1 {
        None
    } else {
        let ul = u64_at(b, 1) as int;
        if b[0] == 0 && ul != 0 {
            None
        } else if b.len() < 34 + ul {
            None
        } else {
            let url = b.subrange(9, 9 + ul);
            let ver = u64_at(b, 9 + ul);
            let hk = b[17 + ul];
            if hk != 0 && hk != 1 {
                None
            } else {
                let kl = u64_at(b, 18 + ul) as int;
                if hk == 0 && kl != 0 {
                    None
                } else if b.len() != 34 + ul + kl {
                    None
                } else {
                    let key = b.subrange(26 + ul, 26 + ul + kl);
                    let chain = u64_at(b, 26 + ul + kl);
                    Some(ConfigModel {
                        remote_url: if b[0] == 1 { Some(url) } else { None },
                        baseline_version: ver,
                        api_key: if hk == 1 { Some(key) } else { None },
                        chain_id: chain,
                    })
                }
            }
        }
    }
}

pub open spec fn parse_config_doc(doc: Seq<u8>) -> Option<ConfigModel> {
    if doc.len() < 11 {
        None
    } else if doc.subrange(0, 10) != config_header() {
        None
    } else if doc.last() != 0x0a {
        None
    } else {
        let hexpart = doc.subrange(10, doc.len() - 1);
        if !valid_hex(hexpart) {
            None
        } else {
            parse_config_bin(hex_dec(hexpart))
        }
    }
}

/// Parsing a persisted configuration document yields the configuration back.
#[verifier::rlimit(100)]
pub proof fn lemma_config_doc_round(c: ConfigModel)
    requires
        wf_config(c),
    ensures
        parse_config_doc(config_doc(c)) == Some(c),
{
    reveal(parse_config_bin);
    let bin = config_bin(c);
    let ul = opt_bytes(c.remote_url).len() as int;
    let kl = opt_bytes(c.api_key).len() as int;
    assert(bin.len() == 34 + ul + kl);
    assert(bin[0] == opt_flag(c.remote_url));
    assert(bin.subrange(1, 9) =~= u64_le_bytes(opt_bytes(c.remote_url).len() as u64));
    lemma_u64_at_le(bin, 1, opt_bytes(c.remote_url).len() as u64);
    assert(bin.subrange(9, 9 + ul) =~= opt_bytes(c.remote_url));
    assert(bin.subrange(9 + ul, 17 + ul) =~= u64_le_bytes(c.baseline_version));
    lemma_u64_at_le(bin, 9 + ul, c.baseline_version);
    assert(bin[17 + ul] == opt_flag(c.api_key));
    assert(bin.subrange(18 + ul, 26 + ul) =~= u64_le_bytes(opt_bytes(c.api_key).len() as u64));
    lemma_u64_at_le(bin, 18 + ul, opt_bytes(c.api_key).len() as u64);
    assert(bin.subrange(26 + ul, 26 + ul + kl) =~= opt_bytes(c.api_key));
    assert(bin.subrange(26 + ul + kl, 34 + ul + kl) =~= u64_le_bytes(c.chain_id));
    lemma_u64_at_le(bin, 26 + ul + kl, c.chain_id);
    assert(parse_config_bin(bin) == Some(c));
    let doc = config_doc(c);
    lemma_hex_enc_len(bin);
    lemma_hex_enc_valid(bin);
    lemma_hex_round(bin);
    assert(doc.subrange(0, 10) =~= config_header());
    assert(doc.last() == 0x0a);
    assert(doc.subrange(10, doc.len() - 1) =~= hex_enc(bin));
}

fn config_header_vec() -> (r: Vec<u8>)
    ensures
        r@ == config_header(),
{
    let mut r: Vec<u8> = Vec::new();
    r.push(0x63u8);
    r.push(0x6fu8);
    r.push(0x6eu8);
    r.push(0x66u8);
    r.push(0x69u8);
    r.push(0x67u8);
    r.push(0x20u8);
    r.push(0x76u8);
    r.push(0x31u8);
    r.push(0x0au8);
    proof {
        assert(r@ =~= config_header());
    }
    r
}

/// Serialize a configuration into its persisted document form.
pub fn config_to_doc(c: &SessionConfig) -> (r: Vec<u8>)
    ensures
        r@ == config_doc(c@),
{
    let mut bin: Vec<u8> = Vec::new();
    match &c.remote_url {
        Some(u) => {
            bin.push(1u8);
            let l = crate::bytes::u64_to_le(u.len() as u64);
            crate::bytes::append_bytes(&mut bin, &l);
            crate::bytes::append_bytes(&mut bin, u);
        },
        None => {
            bin.push(0u8);
            let l = crate::bytes::u64_to_le(0u64);
            crate::bytes::append_bytes(&mut bin, &l);
        },
    }
    let v = crate::bytes::u64_to_le(c.baseline_version);
    crate::bytes::append_bytes(&mut bin, &v);
    match &c.api_key {
        Some(k) => {
            bin.push(1u8);
            let l = crate::bytes::u64_to_le(k.len() as u64);
            crate::bytes::append_bytes(&mut bin, &l);
            crate::bytes::append_bytes(&mut bin, k);
        },
        None => {
            bin.push(0u8);
            let l = crate::bytes::u64_to_le(0u64);
            crate::bytes::append_bytes(&mut bin, &l);
        },
    }
    let ch = crate::bytes::u64_to_le(c.chain_id);
    crate::bytes::append_bytes(&mut bin, &ch);
    proof {
        assert(bin@ =~= config_bin(c@));
    }
    let hx = crate::bytes::hex_encode(&bin);
    let mut r = config_header_vec();
    crate::bytes::append_bytes(&mut r, &hx);
    r.push(0x0au8);
    proof {
        assert(r@ =~= config_doc(c@));
    }
    r
}

/// Parse a persisted configuration document; strict, any mismatch fails.
pub fn doc_to_config(doc: &Vec<u8>) -> (r: Option<SessionConfig>)
    ensures
        match r {
            Some(c) => parse_config_doc(doc@) == Some(c@),
            None => parse_config_doc(doc@) is None,
        },
{
    proof {
        reveal(parse_config_bin);
    }
    let n = doc.len();
    if n < 11 {
        return None;
    }
    let hdr = config_header_vec();
    let front = crate::bytes::copy_range(doc, 0, 10);
    if !crate::bytes::bytes_eq(&front, &hdr) {
        return None;
    }
    if doc[n - 1] != 0x0a {
        return None;
    }
    let hexpart = crate::bytes::copy_range(doc, 10, n - 1);
    let bin = match crate::bytes::hex_decode(&hexpart) {
        None => {
            return None;
        },
        Some(b) => b,
    };
    let bn = bin.len();
    if bn < 34 {
        return None;
    }
    let hu = bin[0];
    if hu != 0 && hu != 1 {
        return None;
    }
    let ul64 = crate::bytes::read_u64_at(&bin, 1);
    if hu == 0 && ul64 != 0 {
        return None;
    }
    if ul64 > ((bn - 34) as u64) {
        proof {
            assert(bin@.len() < 34 + ul64 as int);
        }
        return None;
    }
    let ul = ul64 as usize;
    let url = crate::bytes::copy_range(&bin, 9, 9 + ul);
    let ver = crate::bytes::read_u64_at(&bin, 9 + ul);
    let hk = bin[17 + ul];
    if hk != 0 && hk != 1 {
        return None;
    }
    let kl64 = crate::bytes::read_u64_at(&bin, 18 + ul);
    if hk == 0 && kl64 != 0 {
        return None;
    }
    if kl64 != ((bn - 34 - ul) as u64) {
        proof {
            assert(bin@.len() != 34 + ul64 as int + kl64 as int);
        }
        return None;
    }
    let kl = kl64 as usize;
    let key = crate::bytes::copy_range(&bin, 26 + ul, 26 + ul + kl);
    let chain = crate::bytes::read_u64_at(&bin, 26 + ul + kl);
    let cfg = SessionConfig {
        remote_url: if hu == 1 { Some(url) } else { None },
        baseline_version: ver,
        api_key: if hk == 1 { Some(key) } else { None },
        chain_id: chain,
    };
    proof {
        assert(url@ =~= bin@.subrange(9, 9 + ul64 as int));
        assert(key@ =~= bin@.subrange(26 + ul64 as int, 26 + ul64 as int + kl64 as int));
        assert(parse_config_bin(bin@) == Some(cfg@));
    }
    Some(cfg)
}

// ---------------------------------------------------------------------------
// The session itself
// ---------------------------------------------------------------------------

/// A simulation session: a frozen configuration, the persisted overlay, and
/// the in-memory memo of remote answers at the baseline version. The memo is
/// never persisted and is only read after the overlay misses.
pub struct Session {
    config: SessionConfig,
    delta: Delta,
    cache: Delta,
}

/// The model of an optional byte string.
pub open spec fn opt_view(o: Option<Vec<u8>>) -> Option<Seq<u8>> {
    match o {
        Some(k) => Some(k@),
        None => None,
    }
}

/// A freshly created forked session: empty overlay and memo, the given
/// endpoint and baseline, the default chain id.
pub open spec fn fresh_forked(s: Session, url: Seq<u8>, base: u64, key: Option<Seq<u8>>) -> bool {
    &&& s.wf()
    &&& s.is_forked()
    &&& s.cfg().remote_url == Some(url)
    &&& s.cfg().baseline_version == base
    &&& s.cfg().api_key == key
    &&& s.cfg().chain_id == DEFAULT_CHAIN_ID
    &&& s.delta_map() == Map::<KeyModel, EntryModel>::empty()
    &&& s.cache_map() == Map::<KeyModel, EntryModel>::empty()
}

impl Session {
    pub closed spec fn cfg(&self) -> ConfigModel {
        self.config@
    }

    pub closed spec fn delta_map(&self) -> Map<KeyModel, EntryModel> {
        self.delta@
    }

    pub closed spec fn delta_models(&self) -> Seq<(KeyModel, EntryModel)> {
        self.delta.models()
    }

    /// The memoized remote answers: a value, or a tombstone recording
    /// confirmed absence.
    pub closed spec fn cache_map(&self) -> Map<KeyModel, EntryModel> {
        self.cache@
    }

    pub open spec fn is_forked(&self) -> bool {
        self.cfg().remote_url is Some
    }

    pub closed spec fn wf(&self) -> bool {
        self.delta.wf() && self.cache.wf() && wf_config(self.cfg())
    }

    /// Reads and writes other than remote memo updates leave these alone.
    pub open spec fn same_store(pre: Session, post: Session) -> bool {
        post.cfg() == pre.cfg() && post.delta_models() == pre.delta_models()
            && post.delta_map() == pre.delta_map() && post.cache_map() == pre.cache_map()
    }

    /// Create a purely local session: default configuration, empty overlay.
    /// `already_exists` reports whether the storage location already holds a
    /// session; creation is refused then.
    pub fn init(already_exists: bool) -> (r: Result<Session, SimError>)
        ensures
            already_exists <==> r == Result::<Session, SimError>::Err(SimError::DuplicateSession),
            match r {
                Ok(s) => {
                    &&& s.wf()
                    &&& !s.is_forked()
                    &&& s.cfg().baseline_version == 0
                    &&& s.cfg().api_key is None
                    &&& s.cfg().chain_id == DEFAULT_CHAIN_ID
                    &&& s.delta_map() == Map::<KeyModel, EntryModel>::empty()
                    &&& s.cache_map() == Map::<KeyModel, EntryModel>::empty()
                },
                Err(e) => e == SimError::DuplicateSession,
            },
    {
        if already_exists {
            return Err(SimError::DuplicateSession);
        }
        Ok(Session {
            config: SessionConfig {
                remote_url: None,
                baseline_version: 0,
                api_key: None,
                chain_id: DEFAULT_CHAIN_ID,
            },
            delta: Delta::new(),
            cache: Delta::new(),
        })
    }

    /// Create a session forked from remote state. `remote_latest` is the
    /// newest version the remote reported, or `None` where it could not be
    /// reached; the requested version must be confirmed by the remote, else
    /// the baseline is invalid. An unstated version forks at the newest.
    pub fn init_with_remote_state(
        already_exists: bool,
        url: Vec<u8>,
        requested_version: Option<u64>,
        api_key: Option<Vec<u8>>,
        remote_latest: Option<u64>,
    ) -> (r: Result<Session, SimError>)
        requires
            url@.len() < 0x1_0000_0000_0000_0000,
            api_key matches Some(k) ==> k@.len() < 0x1_0000_0000_0000_0000,
        ensures
            already_exists ==> r == Result::<Session, SimError>::Err(SimError::DuplicateSession),
            !already_exists ==> (match remote_latest {
                None => r == Result::<Session, SimError>::Err(SimError::FetchError),
                Some(lat) => match requested_version {
                    Some(v) => if v > lat {
                        r == Result::<Session, SimError>::Err(SimError::InvalidBaseline)
                    } else {
                        (match r {
                            Ok(s) => fresh_forked(s, url@, v, opt_view(api_key)),
                            Err(_) => false,
                        })
                    },
                    None => (match r {
                        Ok(s) => fresh_forked(s, url@, lat, opt_view(api_key)),
                        Err(_) => false,
                    }),
                },
            }),
    {
        if already_exists {
            return Err(SimError::DuplicateSession);
        }
        let latest = match remote_latest {
            None => {
                return Err(SimError::FetchError);
            },
            Some(l) => l,
        };
        let version = match requested_version {
            Some(v) => {
                if v > latest {
                    return Err(SimError::InvalidBaseline);
                }
                v
            },
            None => latest,
        };
        Ok(Session {
            config: SessionConfig {
                remote_url: Some(url),
                baseline_version: version,
                api_key,
                chain_id: DEFAULT_CHAIN_ID,
            },
            delta: Delta::new(),
            cache: Delta::new(),
        })
    }

    /// Reconstruct a session from its persisted documents. `None` means the
    /// storage location holds no session; a document that does not parse is
    /// corrupt — never read as an empty overlay.
    pub fn load(docs: Option<(Vec<u8>, Vec<u8>)>) -> (r: Result<Session, SimError>)
        ensures
            docs is None <==> r == Result::<Session, SimError>::Err(SimError::SessionNotFound),
            match r {
                Ok(s) => {
                    &&& docs matches Some(d)
                    &&& s.wf()
                    &&& parse_config_doc(d.0@) == Some(s.cfg())
                    &&& parse_delta_doc(d.1@) == Some(s.delta_models())
                    &&& s.cache_map() == Map::<KeyModel, EntryModel>::empty()
                },
                Err(e) => e == SimError::SessionNotFound || e == SimError::CorruptState,
            },
            docs matches Some(d) && (parse_config_doc(d.0@) is None || parse_delta_doc(d.1@) is None)
                ==> r == Result::<Session, SimError>::Err(SimError::CorruptState),
            docs matches Some(d) && parse_config_doc(d.0@) is Some && parse_delta_doc(d.1@) is Some
                ==> r is Ok,
    {
        let (config_bytes, delta_bytes) = match docs {
            None => {
                return Err(SimError::SessionNotFound);
            },
            Some(d) => d,
        };
        let config = match doc_to_config(&config_bytes) {
            None => {
                return Err(SimError::CorruptState);
            },
            Some(c) => c,
        };
        let delta = match crate::codec::doc_to_delta(&delta_bytes) {
            None => {
                return Err(SimError::CorruptState);
            },
            Some(d) => d,
        };
        proof {
            lemma_parsed_config_wf(config_bytes@, config@);
        }
        Ok(Session { config, delta, cache: Delta::new() })
    }

    /// The two persisted documents: configuration and overlay. The caller
    /// writes each with a write-then-replace so a crash leaves the previous
    /// durable version intact. Both documents parse back to exactly what
    /// was persisted, so `load` on them is obliged to succeed.
    pub fn persist(&self) -> (r: (Vec<u8>, Vec<u8>))
        requires
            self.wf(),
        ensures
            r.0@ == config_doc(self.cfg()),
            r.1@ == delta_doc(self.delta_models()),
            parse_config_doc(r.0@) == Some(self.cfg()),
            parse_delta_doc(r.1@) == Some(self.delta_models()),
    {
        proof {
            lemma_config_doc_round(self.cfg());
            crate::codec::lemma_delta_doc_round(self.delta_models());
        }
        (config_to_doc(&self.config), crate::codec::delta_to_doc(&self.delta))
    }

    /// Record the remote source's answer for `k` at the frozen baseline:
    /// the fetched value, or `None` for confirmed absence. The overlay is
    /// untouched, so a later overlay write still takes precedence.
    pub fn note_remote(&mut self, k: StateKey, v: Option<Vec<u8>>)
        requires
            old(self).wf(),
        ensures
            final(self).wf(),
            final(self).cfg() == old(self).cfg(),
            final(self).delta_models() == old(self).delta_models(),
            final(self).delta_map() == old(self).delta_map(),
            final(self).cache_map() == old(self).cache_map().insert(k@, match v {
                Some(b) => EntryModel::Value(b@),
                None => EntryModel::Tombstone,
            }),
    {
        match v {
            Some(b) => self.cache.put(k, b),
            None => self.cache.delete(k),
        }
    }

    /// One combined read: overlay first (a tombstone is absence), then the
    /// remote memo, then absent locally or `NeedsRemote` when forked.
    pub fn read_state(&self, k: &StateKey) -> (r: ReadResult)
        requires
            self.wf(),
        ensures
            r@ == combined_lookup(self.delta_map(), self.cache_map(), self.is_forked(), k@),
    {
        combined_get(&self.delta, &self.cache, self.config.remote_url.is_some(), k)
    }

    /// The combined view's answer for `k` in this session.
    pub open spec fn spec_read(&self, k: KeyModel) -> ReadModel {
        combined_lookup(self.delta_map(), self.cache_map(), self.is_forked(), k)
    }

    /// The account's current sequence number through the combined view; an
    /// absent account reads as zero.
    pub fn get_sequence_number(&self, a: Address) -> (r: Outcome<u64>)
        requires
            self.wf(),
        ensures
            match self.spec_read(spec_account_key(a)) {
                ReadModel::Unknown => r matches Outcome::NeedRemote(k) && k@ == spec_account_key(a),
                ReadModel::Absent => r matches Outcome::Done(s) && s == 0,
                ReadModel::Value(b) => match spec_decode_account(b) {
                    Some(acct) => r matches Outcome::Done(s) && s == acct.sequence_number,
                    None => r matches Outcome::Failed(e) && e == SimError::DecodeError,
                },
            },
    {
        let key = account_key(a);
        match self.read_state(&key) {
            ReadResult::NeedsRemote => Outcome::NeedRemote(key),
            ReadResult::Absent => Outcome::Done(0),
            ReadResult::Value(b) => match decode_account(&b) {
                Some(acct) => Outcome::Done(acct.sequence_number),
                None => Outcome::Failed(SimError::DecodeError),
            },
        }
    }

    /// A raw resource read through the combined view.
    pub fn view_resource(&self, a: Address, tag: &Vec<u8>) -> (r: Outcome<Option<Vec<u8>>>)
        requires
            self.wf(),
        ensures
            ({
                let key = KeyModel { addr: a, kind: crate::state::PathKind::Resource, tag: tag@ };
                match self.spec_read(key) {
                    ReadModel::Unknown => r matches Outcome::NeedRemote(k) && k@ == key,
                    ReadModel::Absent => r matches Outcome::Done(o) && o is None,
                    ReadModel::Value(b) => r matches Outcome::Done(o) && o matches Some(v) && v@ == b,
                }
            }),
    {
        let key = StateKey::new(a, crate::state::PathKind::Resource,
            crate::bytes::copy_range(tag, 0, tag.len()));
        proof {
            assert(tag@.subrange(0, tag@.len() as int) =~= tag@);
        }
        match self.read_state(&key) {
            ReadResult::NeedsRemote => Outcome::NeedRemote(key),
            ReadResult::Absent => Outcome::Done(None),
            ReadResult::Value(b) => Outcome::Done(Some(b)),
        }
    }

    /// The whole stored blob of a resource group. With a seed, the group is
    /// read at the derived object address; reading with `Some(seed)` at
    /// `a` and reading with `None` at `derive_object_address(a, seed)` are
    /// the same query.
    pub fn view_resource_group(
        &self,
        a: Address,
        group_tag: &Vec<u8>,
        derived_seed: Option<Address>,
    ) -> (r: Outcome<Option<Vec<u8>>>)
        requires
            self.wf(),
        ensures
            ({
                let key = spec_group_key(a, group_tag@, derived_seed);
                match self.spec_read(key) {
                    ReadModel::Unknown => r matches Outcome::NeedRemote(k) && k@ == key,
                    ReadModel::Absent => r matches Outcome::Done(o) && o is None,
                    ReadModel::Value(b) => r matches Outcome::Done(o) && o matches Some(v) && v@ == b,
                }
            }),
    {
        let resolved = match derived_seed {
            Some(seed) => crate::state::derive_object_address(a, seed),
            None => a,
        };
        let key = StateKey::new(resolved, crate::state::PathKind::ResourceGroup,
            crate::bytes::copy_range(group_tag, 0, group_tag.len()));
        proof {
            assert(group_tag@.subrange(0, group_tag@.len() as int) =~= group_tag@);
        }
        match self.read_state(&key) {
            ReadResult::NeedsRemote => Outcome::NeedRemote(key),
            ReadResult::Absent => Outcome::Done(None),
            ReadResult::Value(b) => Outcome::Done(Some(b)),
        }
    }

    /// One member of a resource group, demultiplexed out of the stored
    /// blob: only the sub-entry under `member_tag` is returned, never the
    /// whole container.
    pub fn view_group_member(
        &self,
        a: Address,
        group_tag: &Vec<u8>,
        member_tag: &Vec<u8>,
        derived_seed: Option<Address>,
    ) -> (r: Outcome<Option<Vec<u8>>>)
        requires
            self.wf(),
        ensures
            ({
                let key = spec_group_key(a, group_tag@, derived_seed);
                match self.spec_read(key) {
                    ReadModel::Unknown => r matches Outcome::NeedRemote(k) && k@ == key,
                    ReadModel::Absent => r matches Outcome::Done(o) && o is None,
                    ReadModel::Value(b) => match crate::resource::parse_members(b) {
                        None => r matches Outcome::Failed(e) && e == SimError::DecodeError,
                        Some(ms) => match crate::resource::group_find(ms, member_tag@) {
                            Some(v) => r matches Outcome::Done(o) && o matches Some(w) && w@ == v,
                            None => r matches Outcome::Done(o) && o is None,
                        },
                    },
                }
            }),
    {
        match self.view_resource_group(a, group_tag, derived_seed) {
            Outcome::NeedRemote(k) => Outcome::NeedRemote(k),
            Outcome::Failed(e) => Outcome::Failed(e),
            Outcome::Done(None) => Outcome::Done(None),
            Outcome::Done(Some(blob)) => match crate::resource::group_lookup(&blob, member_tag) {
                Err(()) => Outcome::Failed(SimError::DecodeError),
                Ok(o) => Outcome::Done(o),
            },
        }
    }

    /// Read the current balance (an absent resource is a zero balance),
    /// add `amount`, and write the updated resource through the overlay.
    /// The remote source's own value for the key is never altered.
    pub fn fund_account(&mut self, a: Address, amount: u64) -> (r: Outcome<u64>)
        requires
            old(self).wf(),
        ensures
            final(self).wf(),
            final(self).cfg() == old(self).cfg(),
            final(self).cache_map() == old(self).cache_map(),
            ({
                let key = spec_balance_key(a);
                match spec_current_balance(old(self).spec_read(key)) {
                    BalanceRead::Unknown => r matches Outcome::NeedRemote(k) && k@ == key
                        && Session::same_store(*old(self), *final(self)),
                    BalanceRead::Malformed => r matches Outcome::Failed(e)
                        && e == SimError::DecodeError
                        && Session::same_store(*old(self), *final(self)),
                    BalanceRead::Current(cur) => if cur + amount > u64::MAX {
                        r matches Outcome::Failed(e) && e == SimError::BalanceOverflow
                            && Session::same_store(*old(self), *final(self))
                    } else {
                        r matches Outcome::Done(nb) && nb == cur + amount
                            && final(self).delta_map() == old(self).delta_map().insert(
                                key,
                                EntryModel::Value(balance_bytes((cur + amount) as u64)),
                            )
                    },
                }
            }),
    {
        let key = balance_key(a);
        let cur: u64 = match self.read_state(&key) {
            ReadResult::NeedsRemote => {
                return Outcome::NeedRemote(key);
            },
            ReadResult::Absent => 0,
            ReadResult::Value(b) => match decode_balance(&b) {
                Some(v) => v,
                None => {
                    return Outcome::Failed(SimError::DecodeError);
                },
            },
        };
        if amount > u64::MAX - cur {
            return Outcome::Failed(SimError::BalanceOverflow);
        }
        let nb = cur + amount;
        self.delta.put(key, encode_balance(nb));
        Outcome::Done(nb)
    }

    /// As `fund_account`, but first synthesizes a minimal account record
    /// (sequence number zero, authentication key derived from the public
    /// key) when the combined view has none for `a`.
    pub fn create_and_fund_account(
        &mut self,
        a: Address,
        public_key: &Vec<u8>,
        amount: u64,
    ) -> (r: Outcome<u64>)
        requires
            old(self).wf(),
        ensures
            final(self).wf(),
            final(self).cfg() == old(self).cfg(),
            final(self).cache_map() == old(self).cache_map(),
            ({
                let akey = spec_account_key(a);
                let bkey = spec_balance_key(a);
                let mid = (match old(self).spec_read(akey) {
                    ReadModel::Absent => old(self).delta_map().insert(
                        akey,
                        EntryModel::Value(account_bytes(AccountResource {
                            sequence_number: 0,
                            auth_key: spec_auth_key_of(public_key@),
                        })),
                    ),
                    _ => old(self).delta_map(),
                });
                match old(self).spec_read(akey) {
                    ReadModel::Unknown => r matches Outcome::NeedRemote(k) && k@ == akey
                        && Session::same_store(*old(self), *final(self)),
                    _ => match spec_current_balance(old(self).spec_read(bkey)) {
                        BalanceRead::Unknown => r matches Outcome::NeedRemote(k) && k@ == bkey
                            && Session::same_store(*old(self), *final(self)),
                        BalanceRead::Malformed => r matches Outcome::Failed(e)
                            && e == SimError::DecodeError
                            && Session::same_store(*old(self), *final(self)),
                        BalanceRead::Current(cur) => if cur + amount > u64::MAX {
                            r matches Outcome::Failed(e) && e == SimError::BalanceOverflow
                                && Session::same_store(*old(self), *final(self))
                        } else {
                            r matches Outcome::Done(nb) && nb == cur + amount
                                && final(self).delta_map() == mid.insert(
                                    bkey,
                                    EntryModel::Value(balance_bytes((cur + amount) as u64)),
                                )
                        },
                    },
                }
            }),
    {
        let akey = account_key(a);
        let need_create: bool = match self.read_state(&akey) {
            ReadResult::NeedsRemote => {
                return Outcome::NeedRemote(akey);
            },
            ReadResult::Absent => true,
            ReadResult::Value(_) => false,
        };
        let bkey = balance_key(a);
        let cur: u64 = match self.read_state(&bkey) {
            ReadResult::NeedsRemote => {
                return Outcome::NeedRemote(bkey);
            },
            ReadResult::Absent => 0,
            ReadResult::Value(b) => match decode_balance(&b) {
                Some(v) => v,
                None => {
                    return Outcome::Failed(SimError::DecodeError);
                },
            },
        };
        if amount > u64::MAX - cur {
            return Outcome::Failed(SimError::BalanceOverflow);
        }
        let nb = cur + amount;
        if need_create {
            let fresh = AccountResource {
                sequence_number: 0,
                auth_key: crate::state::auth_key_of(public_key),
            };
            self.delta.put(akey, encode_account(fresh));
        }
        self.delta.put(bkey, encode_balance(nb));
        Outcome::Done(nb)
    }

    /// Run one signed transaction against the combined view. The admission
    /// check (signature verdict, chain id, expiration, exact sequence-number
    /// match) is decided here; the payload's effect is whatever the external
    /// virtual machine reported for it. On kept success the write-set and
    /// the sender's advanced sequence number are committed to the overlay;
    /// a kept failure or a discard changes nothing. That a kept failure
    /// debits no gas from the sender is a deliberate policy of this model,
    /// not an oversight.
    pub fn execute_transaction(
        &mut self,
        stxn: &SignedTransaction,
        ctx: ExecContext,
        outcome: PayloadOutcome,
    ) -> (r: Outcome<ExecStatus>)
        requires
            old(self).wf(),
        ensures
            final(self).wf(),
            final(self).cfg() == old(self).cfg(),
            final(self).cache_map() == old(self).cache_map(),
            ({
                let t = stxn.txn@;
                let akey = spec_account_key(t.sender);
                match spec_current_account(old(self).spec_read(akey), stxn.public_key@) {
                    AccountRead::Unknown => r matches Outcome::NeedRemote(k) && k@ == akey
                        && Session::same_store(*old(self), *final(self)),
                    AccountRead::Malformed => r matches Outcome::Failed(e)
                        && e == SimError::DecodeError
                        && Session::same_store(*old(self), *final(self)),
                    AccountRead::Current(acct) => match spec_validate(
                        t,
                        acct.sequence_number,
                        ctx.now_secs,
                        old(self).cfg().chain_id,
                        ctx.signature_valid,
                        ctx.simulate,
                    ) {
                        Some(reason) => r matches Outcome::Done(st)
                            && st == (ExecStatus::Discarded { reason })
                            && Session::same_store(*old(self), *final(self)),
                        None => match outcome {
                            PayloadOutcome::Abort { code, gas_used } => r matches Outcome::Done(st)
                                && st == (ExecStatus::KeptFailure { code, gas_used })
                                && Session::same_store(*old(self), *final(self)),
                            PayloadOutcome::Success { write_set, gas_used } => r matches
                                Outcome::Done(st)
                                && st == (ExecStatus::KeptSuccess { gas_used })
                                && final(self).delta_map() == overwrite(
                                    old(self).delta_map(),
                                    pair_models(write_set@),
                                ).insert(
                                    akey,
                                    EntryModel::Value(account_bytes(AccountResource {
                                        sequence_number: (acct.sequence_number + 1) as u64,
                                        auth_key: acct.auth_key,
                                    })),
                                ),
                        },
                    },
                }
            }),
    {
        let akey = account_key(stxn.txn.sender);
        let acct: AccountResource = match self.read_state(&akey) {
            ReadResult::NeedsRemote => {
                return Outcome::NeedRemote(akey);
            },
            ReadResult::Absent => AccountResource {
                sequence_number: 0,
                auth_key: crate::state::auth_key_of(&stxn.public_key),
            },
            ReadResult::Value(b) => match decode_account(&b) {
                Some(acct) => acct,
                None => {
                    return Outcome::Failed(SimError::DecodeError);
                },
            },
        };
        match validate_transaction(
            &stxn.txn,
            acct.sequence_number,
            ctx.now_secs,
            self.config.chain_id,
            ctx.signature_valid,
            ctx.simulate,
        ) {
            Some(reason) => Outcome::Done(ExecStatus::Discarded { reason }),
            None => match outcome {
                PayloadOutcome::Abort { code, gas_used } => Outcome::Done(ExecStatus::KeptFailure {
                    code,
                    gas_used,
                }),
                PayloadOutcome::Success { write_set, gas_used } => {
                    self.delta.apply_write_set(&write_set);
                    let bumped = AccountResource {
                        sequence_number: acct.sequence_number + 1,
                        auth_key: acct.auth_key,
                    };
                    self.delta.put(akey, encode_account(bumped));
                    Outcome::Done(ExecStatus::KeptSuccess { gas_used })
                },
            },
        }
    }
}

/// A fresh purely local session.
pub open spec fn fresh_local(s: Session) -> bool {
    &&& s.wf()
    &&& !s.is_forked()
    &&& s.cfg().baseline_version == 0
    &&& s.cfg().api_key is None
    &&& s.cfg().chain_id == DEFAULT_CHAIN_ID
    &&& s.delta_map() == Map::<KeyModel, EntryModel>::empty()
    &&& s.cache_map() == Map::<KeyModel, EntryModel>::empty()
}

/// A request to create a session: local when no endpoint is named, forked
/// from the endpoint's state otherwise. An unstated version forks at the
/// newest version the remote reports.
pub struct Init {
    pub network_url: Option<Vec<u8>>,
    pub network_version: Option<u64>,
    pub api_key: Option<Vec<u8>>,
}

impl Init {
    /// Carry the request out. `already_exists` reports whether the storage
    /// location already holds a session; `remote_latest` is the newest
    /// version the remote reported, where one was asked.
    pub fn run(self, already_exists: bool, remote_latest: Option<u64>) -> (r: Result<
        Session,
        SimError,
    >)
        ensures
            already_exists ==> r == Result::<Session, SimError>::Err(SimError::DuplicateSession),
            !already_exists ==> (match self.network_url {
                None => (match r {
                    Ok(s) => fresh_local(s),
                    Err(_) => false,
                }),
                Some(u) => (match remote_latest {
                    None => r == Result::<Session, SimError>::Err(SimError::FetchError),
                    Some(lat) => match self.network_version {
                        Some(v) => if v > lat {
                            r == Result::<Session, SimError>::Err(SimError::InvalidBaseline)
                        } else {
                            (match r {
                                Ok(s) => fresh_forked(s, u@, v, opt_view(self.api_key)),
                                Err(_) => false,
                            })
                        },
                        None => (match r {
                            Ok(s) => fresh_forked(s, u@, lat, opt_view(self.api_key)),
                            Err(_) => false,
                        }),
                    },
                }),
            }),
    {
        match self.network_url {
            None => Session::init(already_exists),
            Some(url) => {
                let ul = url.len();
                let _kl: usize = match &self.api_key {
                    Some(k) => k.len(),
                    None => 0,
                };
                proof {
                    assert(url@.len() == ul);
                }
                Session::init_with_remote_state(
                    already_exists,
                    url,
                    self.network_version,
                    self.api_key,
                    remote_latest,
                )
            },
        }
    }
}

/// What a combined read says about a balance: the current amount (zero when
/// absent), bytes of the wrong shape, or not fetched yet.
pub enum BalanceRead {
    Current(u64),
    Malformed,
    Unknown,
}

pub open spec fn spec_current_balance(rd: ReadModel) -> BalanceRead {
    match rd {
        ReadModel::Absent => BalanceRead::Current(0),
        ReadModel::Unknown => BalanceRead::Unknown,
        ReadModel::Value(b) => match spec_decode_balance(b) {
            Some(v) => BalanceRead::Current(v),
            None => BalanceRead::Malformed,
        },
    }
}

/// What a combined read says about an account: its record (a fresh one for
/// an absent account, keyed by the given public key), bytes of the wrong
/// shape, or not fetched yet.
pub enum AccountRead {
    Current(AccountResource),
    Malformed,
    Unknown,
}

pub open spec fn spec_current_account(rd: ReadModel, pk: Seq<u8>) -> AccountRead {
    match rd {
        ReadModel::Absent => AccountRead::Current(AccountResource {
            sequence_number: 0,
            auth_key: spec_auth_key_of(pk),
        }),
        ReadModel::Unknown => AccountRead::Unknown,
        ReadModel::Value(b) => match spec_decode_account(b) {
            Some(a) => AccountRead::Current(a),
            None => AccountRead::Malformed,
        },
    }
}

/// The key a resource-group read resolves to: with a seed, the group tag at
/// the derived object address; without one, at the given address itself.
pub open spec fn spec_group_key(a: Address, group_tag: Seq<u8>, seed: Option<Address>) -> KeyModel {
    KeyModel {
        addr: match seed {
            Some(s) => crate::state::spec_derive_object_address(a, s),
            None => a,
        },
        kind: crate::state::PathKind::ResourceGroup,
        tag: group_tag,
    }
}

/// Reading a group with a seed at `a` is the same query as reading it
/// without one at the derived object address.
pub proof fn lemma_group_indirection(a: Address, group_tag: Seq<u8>, seed: Address)
    ensures
        spec_group_key(a, group_tag, Some(seed))
            == spec_group_key(crate::state::spec_derive_object_address(a, seed), group_tag, None),
{
}

/// Replay protection: once a transaction with sequence number `n` has been
/// kept successfully, the sender's account records `n + 1`, so running the
/// same transaction again is discarded for its now-stale sequence number —
/// whatever write-set the first run committed alongside.
pub proof fn lemma_replay_protection(
    d: Map<KeyModel, EntryModel>,
    c: Map<KeyModel, EntryModel>,
    forked: bool,
    t: TxnModel,
    ws: Seq<(KeyModel, EntryModel)>,
    auth: Address,
    now2: u64,
    chain: u64,
    sig2: bool,
    sim2: bool,
)
    requires
        t.sequence_number < u64::MAX,
        sim2 || sig2,
        t.chain_id == chain,
        t.expiration_secs > now2,
    ensures
        ({
            let bumped = AccountResource {
                sequence_number: (t.sequence_number + 1) as u64,
                auth_key: auth,
            };
            let d2 = overwrite(d, ws).insert(
                spec_account_key(t.sender),
                EntryModel::Value(account_bytes(bumped)),
            );
            let rd = combined_lookup(d2, c, forked, spec_account_key(t.sender));
            &&& rd == ReadModel::Value(account_bytes(bumped))
            &&& spec_current_account(rd, Seq::<u8>::empty()) == AccountRead::Current(bumped)
            &&& spec_validate(t, bumped.sequence_number, now2, chain, sig2, sim2)
                == Some(crate::txn::DiscardReason::SequenceNumberTooOld)
        }),
{
    let bumped = AccountResource {
        sequence_number: (t.sequence_number + 1) as u64,
        auth_key: auth,
    };
    crate::resource::lemma_account_round(bumped);
}

/// A parsed configuration is well-formed: its recorded lengths came out of
/// a document, so they fit the length prefixes.
pub proof fn lemma_parsed_config_wf(doc: Seq<u8>, c: ConfigModel)
    requires
        parse_config_doc(doc) == Some(c),
    ensures
        wf_config(c),
{
    reveal(parse_config_bin);
}

} // verus!
