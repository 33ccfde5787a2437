use sim_session::state::{Address, StateKey, PathKind, derive_object_address};
use sim_session::session::{Session, Init, DEFAULT_CHAIN_ID};
use sim_session::errors::{SimError, Outcome};
use sim_session::resource::{balance_key, encode_balance, encode_group};
use sim_session::txn::{
    make_transaction, SignedTransaction, ExecContext, PayloadOutcome, ExecStatus, DiscardReason,
};
use sim_session::view::ReadResult;

fn addr(n: u128) -> Address {
    Address::new(0, n)
}

fn local_session() -> Session {
    Session::init(false).expect("fresh location")
}

fn forked_session() -> Session {
    Session::init_with_remote_state(
        false,
        b"https://example.invalid/api".to_vec(),
        Some(5),
        None,
        Some(10),
    )
    .expect("fork at a confirmed version")
}

fn signed(txn: sim_session::txn::Transaction) -> SignedTransaction {
    SignedTransaction {
        txn,
        public_key: vec![1; 32],
        signature: vec![0; 64],
    }
}

#[test]
fn init_refuses_duplicate() {
    assert_eq!(
        Session::init(true).err(),
        Some(SimError::DuplicateSession)
    );
}

#[test]
fn init_with_remote_state_checks_baseline() {
    let r = Session::init_with_remote_state(
        false,
        b"https://example.invalid".to_vec(),
        Some(11),
        None,
        Some(10),
    );
    assert_eq!(r.err(), Some(SimError::InvalidBaseline));
    let r = Session::init_with_remote_state(
        false,
        b"https://example.invalid".to_vec(),
        Some(1),
        None,
        None,
    );
    assert_eq!(r.err(), Some(SimError::FetchError));
}

#[test]
fn load_missing_session_is_not_found() {
    assert_eq!(Session::load(None).err(), Some(SimError::SessionNotFound));
}

#[test]
fn session_documents_round_trip() {
    let mut s = forked_session();
    match s.fund_account(addr(1), 500) {
        Outcome::NeedRemote(k) => {
            s.note_remote(k, None);
        },
        _ => panic!("a forked session must ask for the uncached balance"),
    }
    match s.fund_account(addr(1), 500) {
        Outcome::Done(nb) => assert_eq!(nb, 500),
        _ => panic!("funding after the remote answered"),
    }
    let (config_doc, delta_doc) = s.persist();
    let s2 = Session::load(Some((config_doc.clone(), delta_doc.clone()))).expect("loadable");
    let (config_doc2, delta_doc2) = s2.persist();
    assert_eq!(config_doc, config_doc2);
    assert_eq!(delta_doc, delta_doc2);
}

#[test]
fn truncated_session_delta_is_corrupt_state() {
    let mut s = local_session();
    match s.fund_account(addr(1), 500) {
        Outcome::Done(nb) => assert_eq!(nb, 500),
        _ => panic!("local funding needs no remote"),
    }
    let (config_doc, delta_doc) = s.persist();
    let truncated = delta_doc[..delta_doc.len() - 3].to_vec();
    assert_eq!(
        Session::load(Some((config_doc, truncated))).err(),
        Some(SimError::CorruptState)
    );
}

#[test]
fn funding_scenario_overlays_remote_balance() {
    // Fork at a version where the account holds 2_000_000 remotely.
    let mut s = forked_session();
    let a = addr(42);
    let k = balance_key(a);
    s.note_remote(k, Some(encode_balance(2_000_000)));
    match s.fund_account(a, 1_000_000) {
        Outcome::Done(nb) => assert_eq!(nb, 3_000_000),
        _ => panic!("first funding"),
    }
    match s.fund_account(a, 500_000) {
        Outcome::Done(nb) => assert_eq!(nb, 3_500_000),
        _ => panic!("second funding"),
    }
    match s.view_resource(a, &b"balance".to_vec()) {
        Outcome::Done(Some(bytes)) => {
            assert_eq!(bytes, encode_balance(3_500_000));
        },
        _ => panic!("balance must be visible through the combined view"),
    }
}

#[test]
fn funding_malformed_balance_is_decode_error() {
    let mut s = forked_session();
    let a = addr(42);
    s.note_remote(balance_key(a), Some(vec![1, 2, 3]));
    match s.fund_account(a, 1) {
        Outcome::Failed(e) => assert_eq!(e, SimError::DecodeError),
        _ => panic!("three bytes are not a balance"),
    }
}

#[test]
fn funding_overflow_is_reported() {
    let mut s = local_session();
    let a = addr(42);
    match s.fund_account(a, u64::MAX) {
        Outcome::Done(nb) => assert_eq!(nb, u64::MAX),
        _ => panic!("first funding"),
    }
    match s.fund_account(a, 1) {
        Outcome::Failed(e) => assert_eq!(e, SimError::BalanceOverflow),
        _ => panic!("the balance cannot grow past its width"),
    }
}

#[test]
fn absent_account_sequence_number_is_zero() {
    let s = local_session();
    match s.get_sequence_number(addr(9)) {
        Outcome::Done(n) => assert_eq!(n, 0),
        _ => panic!("a local session answers directly"),
    }
}

#[test]
fn create_and_fund_synthesizes_account() {
    let mut s = local_session();
    let a = addr(9);
    match s.create_and_fund_account(a, &vec![7; 32], 1000) {
        Outcome::Done(nb) => assert_eq!(nb, 1000),
        _ => panic!("creation"),
    }
    match s.get_sequence_number(a) {
        Outcome::Done(n) => assert_eq!(n, 0),
        _ => panic!("fresh account starts at zero"),
    }
    match s.view_resource(a, &b"account".to_vec()) {
        Outcome::Done(Some(bytes)) => assert_eq!(bytes.len(), 40),
        _ => panic!("account record written"),
    }
}

#[test]
fn replay_protection_discards_second_run() {
    let mut s = local_session();
    let a = addr(10);
    match s.create_and_fund_account(a, &vec![7; 32], 10_000) {
        Outcome::Done(_) => {},
        _ => panic!("setup"),
    }
    let txn = make_transaction(a, 0, b"payload".to_vec(), 100_000, 100, 1000, DEFAULT_CHAIN_ID);
    let stxn = signed(txn);
    let ctx = ExecContext::checked(1000, true);
    let outcome = PayloadOutcome::Success {
        write_set: Vec::new(),
        gas_used: 7,
    };
    match s.execute_transaction(&stxn, ctx, outcome) {
        Outcome::Done(ExecStatus::KeptSuccess { gas_used }) => assert_eq!(gas_used, 7),
        _ => panic!("first run is kept"),
    }
    match s.get_sequence_number(a) {
        Outcome::Done(n) => assert_eq!(n, 1),
        _ => panic!("sequence number advanced"),
    }
    let txn2 = make_transaction(a, 0, b"payload".to_vec(), 100_000, 100, 1000, DEFAULT_CHAIN_ID);
    let ctx2 = ExecContext::checked(1000, true);
    let outcome2 = PayloadOutcome::Success {
        write_set: Vec::new(),
        gas_used: 7,
    };
    match s.execute_transaction(&signed(txn2), ctx2, outcome2) {
        Outcome::Done(ExecStatus::Discarded { reason }) => {
            assert_eq!(reason, DiscardReason::SequenceNumberTooOld);
        },
        _ => panic!("the replay must be discarded"),
    }
}

#[test]
fn execution_admission_checks() {
    let mut s = local_session();
    let a = addr(11);
    // Wrong chain id.
    let txn = make_transaction(a, 0, vec![], 100_000, 100, 1000, DEFAULT_CHAIN_ID + 1);
    let out = PayloadOutcome::Success { write_set: Vec::new(), gas_used: 0 };
    match s.execute_transaction(&signed(txn), ExecContext::checked(1000, true), out) {
        Outcome::Done(ExecStatus::Discarded { reason }) => {
            assert_eq!(reason, DiscardReason::ChainIdMismatch);
        },
        _ => panic!("chain mismatch"),
    }
    // Expired: the clock is already past the expiration.
    let txn = make_transaction(a, 0, vec![], 100_000, 100, 1000, DEFAULT_CHAIN_ID);
    let out = PayloadOutcome::Success { write_set: Vec::new(), gas_used: 0 };
    match s.execute_transaction(&signed(txn), ExecContext::checked(5000, true), out) {
        Outcome::Done(ExecStatus::Discarded { reason }) => {
            assert_eq!(reason, DiscardReason::TransactionExpired);
        },
        _ => panic!("expired"),
    }
    // Future sequence number.
    let txn = make_transaction(a, 3, vec![], 100_000, 100, 1000, DEFAULT_CHAIN_ID);
    let out = PayloadOutcome::Success { write_set: Vec::new(), gas_used: 0 };
    match s.execute_transaction(&signed(txn), ExecContext::checked(1000, true), out) {
        Outcome::Done(ExecStatus::Discarded { reason }) => {
            assert_eq!(reason, DiscardReason::SequenceNumberTooNew);
        },
        _ => panic!("too new"),
    }
    // Bad signature with full checking; the explicit simulate flag waives it.
    let txn = make_transaction(a, 0, vec![], 100_000, 100, 1000, DEFAULT_CHAIN_ID);
    let out = PayloadOutcome::Success { write_set: Vec::new(), gas_used: 0 };
    match s.execute_transaction(&signed(txn), ExecContext::checked(1000, false), out) {
        Outcome::Done(ExecStatus::Discarded { reason }) => {
            assert_eq!(reason, DiscardReason::InvalidSignature);
        },
        _ => panic!("signature must be checked by default"),
    }
}

#[test]
fn kept_failure_changes_nothing() {
    let mut s = local_session();
    let a = addr(12);
    match s.create_and_fund_account(a, &vec![7; 32], 10_000) {
        Outcome::Done(_) => {},
        _ => panic!("setup"),
    }
    let (_, delta_before) = s.persist();
    let txn = make_transaction(a, 0, vec![], 100_000, 100, 1000, DEFAULT_CHAIN_ID);
    let out = PayloadOutcome::Abort { code: 4016, gas_used: 3 };
    match s.execute_transaction(&signed(txn), ExecContext::checked(1000, true), out) {
        Outcome::Done(ExecStatus::KeptFailure { code, gas_used }) => {
            assert_eq!(code, 4016);
            assert_eq!(gas_used, 3);
        },
        _ => panic!("kept failure"),
    }
    let (_, delta_after) = s.persist();
    assert_eq!(delta_before, delta_after);
}

#[test]
fn group_indirection_matches_derived_address() {
    let mut s = forked_session();
    let owner = addr(21);
    let seed = addr(5);
    let derived = derive_object_address(owner, seed);
    let members = vec![(b"fungible".to_vec(), vec![9, 9])];
    let blob = encode_group(&members);
    let gk = StateKey::new(derived, PathKind::ResourceGroup, b"object_group".to_vec());
    s.note_remote(gk, Some(blob));
    let via_seed = s.view_resource_group(owner, &b"object_group".to_vec(), Some(seed));
    let direct = s.view_resource_group(derived, &b"object_group".to_vec(), None);
    match (via_seed, direct) {
        (Outcome::Done(Some(a)), Outcome::Done(Some(b))) => assert_eq!(a, b),
        _ => panic!("both reads must resolve to the same stored group"),
    }
    match s.view_group_member(owner, &b"object_group".to_vec(), &b"fungible".to_vec(), Some(seed)) {
        Outcome::Done(Some(v)) => assert_eq!(v, vec![9, 9]),
        _ => panic!("member through the derived address"),
    }
}

#[test]
fn forked_session_asks_for_uncached_keys() {
    let s = forked_session();
    let k = balance_key(addr(1));
    match s.read_state(&k) {
        ReadResult::NeedsRemote => {},
        _ => panic!("an uncached key in a forked session needs a fetch"),
    }
}

#[test]
fn init_request_dispatches() {
    let local = Init { network_url: None, network_version: None, api_key: None };
    assert!(local.run(false, None).is_ok());
    let forked = Init {
        network_url: Some(b"https://example.invalid".to_vec()),
        network_version: None,
        api_key: Some(b"demo-api-key".to_vec()),
    };
    assert!(forked.run(false, Some(33)).is_ok());
    let dup = Init { network_url: None, network_version: None, api_key: None };
    assert_eq!(dup.run(true, None).err(), Some(SimError::DuplicateSession));
}
