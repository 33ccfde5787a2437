use sim_session::state::{Address, StateKey, PathKind, DeltaEntry, derive_object_address};
use sim_session::delta::Delta;
use sim_session::codec::{delta_to_doc, doc_to_delta};
use sim_session::view::{combined_get, ReadResult};
use sim_session::resource::{
    encode_balance, decode_balance, encode_account, decode_account, AccountResource, encode_group,
    group_lookup,
};
use sim_session::remote::{retry_decision, RetryDecision};

fn addr(n: u128) -> Address {
    Address::new(0, n)
}

fn key(a: Address, tag: &[u8]) -> StateKey {
    StateKey::new(a, PathKind::Resource, tag.to_vec())
}

#[test]
fn put_then_get_overrides_remote() {
    let mut delta = Delta::new();
    let mut cache = Delta::new();
    let k = key(addr(7), b"balance");
    // The remote source holds something else for the same key.
    cache.put(key(addr(7), b"balance"), vec![9, 9, 9]);
    delta.put(key(addr(7), b"balance"), vec![1, 2, 3]);
    match combined_get(&delta, &cache, true, &k) {
        ReadResult::Value(v) => assert_eq!(v, vec![1, 2, 3]),
        _ => panic!("expected the overlay's value"),
    }
}

#[test]
fn delete_shadows_remote_value() {
    let mut delta = Delta::new();
    let mut cache = Delta::new();
    let k = key(addr(7), b"balance");
    cache.put(key(addr(7), b"balance"), vec![9, 9, 9]);
    delta.delete(key(addr(7), b"balance"));
    match combined_get(&delta, &cache, true, &k) {
        ReadResult::Absent => {},
        _ => panic!("a tombstone must read as absent, never fall through"),
    }
}

#[test]
fn delta_doc_round_trip() {
    let mut delta = Delta::new();
    delta.put(key(addr(1), b"balance"), vec![0, 1, 2, 3, 4, 5, 6, 7]);
    delta.put(key(addr(2), b"account"), vec![]);
    delta.delete(key(addr(3), b"gone"));
    delta.put(
        StateKey::new(addr(4), PathKind::ResourceGroup, b"group".to_vec()),
        vec![0xff; 33],
    );
    let doc = delta_to_doc(&delta);
    let back = doc_to_delta(&doc).expect("a persisted overlay must load");
    assert_eq!(back.entry_count(), 4);
    match back.get(&key(addr(1), b"balance")) {
        Some(DeltaEntry::Value(v)) => assert_eq!(*v, vec![0, 1, 2, 3, 4, 5, 6, 7]),
        _ => panic!("missing entry"),
    }
    match back.get(&key(addr(2), b"account")) {
        Some(DeltaEntry::Value(v)) => assert_eq!(*v, Vec::<u8>::new()),
        _ => panic!("missing empty value"),
    }
    match back.get(&key(addr(3), b"gone")) {
        Some(e) => assert!(e.entry_eq(&DeltaEntry::Tombstone)),
        None => panic!("tombstone must round-trip"),
    }
    let gk = StateKey::new(addr(4), PathKind::ResourceGroup, b"group".to_vec());
    match back.get(&gk) {
        Some(DeltaEntry::Value(v)) => assert_eq!(v.len(), 33),
        _ => panic!("group entry must round-trip"),
    }
    // The persisted form is deterministic.
    assert_eq!(delta_to_doc(&back), doc);
}

#[test]
fn persisted_form_depends_only_on_mapping() {
    // Same key→entry mapping reached through different histories.
    let mut d1 = Delta::new();
    let mut d2 = Delta::new();
    d1.put(key(addr(1), b"a"), vec![1]);
    d1.put(key(addr(2), b"b"), vec![2]);
    d1.delete(key(addr(3), b"c"));
    d2.delete(key(addr(3), b"c"));
    d2.put(key(addr(2), b"b"), vec![2]);
    d2.put(key(addr(1), b"a"), vec![1]);
    assert_eq!(delta_to_doc(&d1), delta_to_doc(&d2));
    // Updating an existing key moves nothing out of place.
    d1.put(key(addr(1), b"a"), vec![9]);
    let mut d3 = Delta::new();
    d3.delete(key(addr(3), b"c"));
    d3.put(key(addr(1), b"a"), vec![9]);
    d3.put(key(addr(2), b"b"), vec![2]);
    assert_eq!(delta_to_doc(&d1), delta_to_doc(&d3));
}

#[test]
fn empty_write_set_changes_nothing() {
    let mut delta = Delta::new();
    delta.put(key(addr(1), b"balance"), vec![1]);
    delta.delete(key(addr(2), b"x"));
    let before = delta_to_doc(&delta);
    let ws: Vec<(StateKey, DeltaEntry)> = Vec::new();
    delta.apply_write_set(&ws);
    assert_eq!(delta_to_doc(&delta), before);
}

#[test]
fn write_set_applies_all_entries() {
    let mut delta = Delta::new();
    delta.put(key(addr(1), b"a"), vec![1]);
    let ws = vec![
        (key(addr(1), b"a"), DeltaEntry::Value(vec![2])),
        (key(addr(2), b"b"), DeltaEntry::Value(vec![3])),
        (key(addr(1), b"c"), DeltaEntry::Tombstone),
    ];
    delta.apply_write_set(&ws);
    assert_eq!(delta.entry_count(), 3);
    match delta.get(&key(addr(1), b"a")) {
        Some(DeltaEntry::Value(v)) => assert_eq!(*v, vec![2]),
        _ => panic!("overwritten entry"),
    }
    match delta.get(&key(addr(1), b"c")) {
        Some(DeltaEntry::Tombstone) => {},
        _ => panic!("tombstone from write-set"),
    }
}

#[test]
fn truncated_delta_doc_never_loads() {
    let mut delta = Delta::new();
    delta.put(key(addr(1), b"balance"), vec![7; 12]);
    delta.delete(key(addr(2), b"gone"));
    let doc = delta_to_doc(&delta);
    for cut in 0..doc.len() {
        let truncated = doc[..cut].to_vec();
        assert!(
            doc_to_delta(&truncated).is_none(),
            "a document truncated to {} bytes must be rejected",
            cut
        );
    }
}

#[test]
fn corrupted_delta_doc_never_loads() {
    let mut delta = Delta::new();
    delta.put(key(addr(1), b"balance"), vec![7; 12]);
    let doc = delta_to_doc(&delta);
    // Flip one hex digit's byte into a non-digit.
    let mut bad = doc.clone();
    bad[10] = b'!';
    assert!(doc_to_delta(&bad).is_none());
}

#[test]
fn empty_delta_doc_is_exact() {
    // The document is the header line, then one line of lowercase hex: here
    // only the zero entry count. A hex layer that handed its input through
    // unchanged would not survive this comparison, nor the strict parse.
    let delta = Delta::new();
    let doc = delta_to_doc(&delta);
    assert_eq!(doc, b"delta v1\n0000000000000000\n".to_vec());
    let back = doc_to_delta(&doc).expect("an empty overlay must load");
    assert_eq!(back.entry_count(), 0);
}

#[test]
fn balance_resource_round_trip() {
    let b = encode_balance(123_456_789);
    assert_eq!(decode_balance(&b), Some(123_456_789));
    assert_eq!(decode_balance(&vec![1, 2, 3]), None);
}

#[test]
fn account_resource_round_trip() {
    let a = AccountResource {
        sequence_number: 42,
        auth_key: Address::new(5, 6),
    };
    let b = encode_account(a);
    assert_eq!(decode_account(&b), Some(a));
    assert_eq!(decode_account(&vec![0; 39]), None);
}

#[test]
fn group_lookup_returns_only_one_member() {
    let members = vec![
        (b"fungible".to_vec(), vec![1, 2, 3]),
        (b"metadata".to_vec(), vec![4, 5]),
    ];
    let blob = encode_group(&members);
    assert_eq!(
        group_lookup(&blob, &b"fungible".to_vec()),
        Ok(Some(vec![1, 2, 3]))
    );
    assert_eq!(group_lookup(&blob, &b"metadata".to_vec()), Ok(Some(vec![4, 5])));
    assert_eq!(group_lookup(&blob, &b"other".to_vec()), Ok(None));
    // A malformed blob is a decode error, not an absence.
    assert_eq!(group_lookup(&vec![1, 2, 3], &b"fungible".to_vec()), Err(()));
}

#[test]
fn derived_object_address_is_deterministic() {
    let owner = addr(77);
    let seed = addr(12345);
    let d1 = derive_object_address(owner, seed);
    let d2 = derive_object_address(owner, seed);
    assert_eq!(d1, d2);
    assert_ne!(derive_object_address(owner, addr(2)), d1);
}

#[test]
fn retry_backoff_doubles_then_gives_up() {
    assert_eq!(
        retry_decision(0, 5, 100),
        RetryDecision::Retry { delay_ms: 100 }
    );
    assert_eq!(
        retry_decision(1, 5, 100),
        RetryDecision::Retry { delay_ms: 200 }
    );
    assert_eq!(
        retry_decision(3, 5, 100),
        RetryDecision::Retry { delay_ms: 800 }
    );
    assert_eq!(retry_decision(5, 5, 100), RetryDecision::GiveUp);
    assert_eq!(retry_decision(9, 5, 100), RetryDecision::GiveUp);
}
