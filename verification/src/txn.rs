use vstd::prelude::*;
use crate::state::{Address, StateKey, DeltaEntry};

verus! {

/// A transaction as the executor adapter sees it. The payload is opaque
/// here: the external virtual machine interprets it.
pub struct Transaction {
    pub sender: Address,
    pub sequence_number: u64,
    pub payload: Vec<u8>,
    pub max_gas: u64,
    pub gas_unit_price: u64,
    pub expiration_secs: u64,
    pub chain_id: u64,
}

pub struct TxnModel {
    pub sender: Address,
    pub sequence_number: u64,
    pub payload: Seq<u8>,
    pub max_gas: u64,
    pub gas_unit_price: u64,
    pub expiration_secs: u64,
    pub chain_id: u64,
}

impl View for Transaction {
    type V = TxnModel;

    open spec fn view(&self) -> TxnModel {
        TxnModel {
            sender: self.sender,
            sequence_number: self.sequence_number,
            payload: self.payload@,
            max_gas: self.max_gas,
            gas_unit_price: self.gas_unit_price,
            expiration_secs: self.expiration_secs,
            chain_id: self.chain_id,
        }
    }
}

/// A transaction with its authenticator. The cryptographic layer that
/// checks the signature is outside the library; the executor is told its
/// verdict.
pub struct SignedTransaction {
    pub txn: Transaction,
    pub public_key: Vec<u8>,
    pub signature: Vec<u8>,
}

/// Why the virtual machine discarded a transaction before any state effect.
#[derive(Clone, Copy, PartialEq, Eq, Structural, Debug)]
pub enum DiscardReason {
    InvalidSignature,
    ChainIdMismatch,
    TransactionExpired,
    SequenceNumberTooOld,
    SequenceNumberTooNew,
    SequenceNumberTooBig,
}

/// The admission check run before the payload executes: signature (unless
/// the explicit simulate flag waives it), chain id, expiration, and an
/// exact sequence-number match against the account's current value.
pub open spec fn spec_validate(
    t: TxnModel,
    current_seq: u64,
    now_secs: u64,
    chain_id: u64,
    signature_valid: bool,
    simulate: bool,
) -> Option<DiscardReason> {
    if !simulate && !signature_valid {
        Some(DiscardReason::InvalidSignature)
    } else if t.chain_id != chain_id {
        Some(DiscardReason::ChainIdMismatch)
    } else if t.expiration_secs <= now_secs {
        Some(DiscardReason::TransactionExpired)
    } else if t.sequence_number < current_seq {
        Some(DiscardReason::SequenceNumberTooOld)
    } else if t.sequence_number > current_seq {
        Some(DiscardReason::SequenceNumberTooNew)
    } else if t.sequence_number == u64::MAX {
        Some(DiscardReason::SequenceNumberTooBig)
    } else {
        None
    }
}

pub fn validate_transaction(
    t: &Transaction,
    current_seq: u64,
    now_secs: u64,
    chain_id: u64,
    signature_valid: bool,
    simulate: bool,
) -> (r: Option<DiscardReason>)
    ensures
        r == spec_validate(t@, current_seq, now_secs, chain_id, signature_valid, simulate),
{
    if !simulate && !signature_valid {
        Some(DiscardReason::InvalidSignature)
    } else if t.chain_id != chain_id {
        Some(DiscardReason::ChainIdMismatch)
    } else if t.expiration_secs <= now_secs {
        Some(DiscardReason::TransactionExpired)
    } else if t.sequence_number < current_seq {
        Some(DiscardReason::SequenceNumberTooOld)
    } else if t.sequence_number > current_seq {
        Some(DiscardReason::SequenceNumberTooNew)
    } else if t.sequence_number == u64::MAX {
        Some(DiscardReason::SequenceNumberTooBig)
    } else {
        None
    }
}

/// How long a freshly built transaction stays valid.
pub const DEFAULT_TXN_VALIDITY_SECS: u64 = 600;

/// Relies on std::time::SystemTime::now, read against the Unix epoch: a
/// pre-epoch clock comes back as the `Err` case and is mapped to a negative
/// reading, so the call returns on every clock state. Nothing is promised
/// of the reading.
#[verifier::external_body]
fn now_timestamp() -> (r: i64) {
    match std::time::SystemTime::now().duration_since(std::time::UNIX_EPOCH) {
        Ok(d) => i64::try_from(d.as_secs()).unwrap_or(i64::MAX),
        Err(_) => -1,
    }
}

/// A clock reading as unsigned seconds; anything before the epoch is zero.
pub fn clamp_secs(t: i64) -> (r: u64)
    ensures
        t < 0 ==> r == 0,
        t >= 0 ==> r == t,
{
    if t < 0 {
        0
    } else {
        t as u64
    }
}

/// Seconds since the epoch now, by the machine's clock. The value depends
/// on the clock; nothing further is promised of it.
pub fn current_time_secs() -> (r: u64) {
    clamp_secs(now_timestamp())
}

/// Relies on rand::random: draws one uniformly random word. Nothing is
/// promised of the value.
#[verifier::external_body]
fn random_word() -> (r: u128) {
    rand::random::<u128>()
}

/// A randomly drawn address, for a sender no profile names. The value
/// depends on the generator; nothing further is promised of it.
pub fn random_address() -> (r: Address) {
    Address { hi: random_word(), lo: random_word() }
}

/// The sender to run under: the provided one, else a random address.
pub fn choose_sender(provided: Option<Address>) -> (r: Address)
    ensures
        provided matches Some(a) ==> r == a,
{
    match provided {
        Some(a) => a,
        None => random_address(),
    }
}

/// `now + validity`, saturating at the largest representable time.
pub open spec fn spec_expiration(now_secs: u64, validity_secs: u64) -> u64 {
    if now_secs + validity_secs > u64::MAX {
        u64::MAX
    } else {
        (now_secs + validity_secs) as u64
    }
}

/// Assemble a transaction that expires `DEFAULT_TXN_VALIDITY_SECS` after
/// the given clock reading.
pub fn make_transaction(
    sender: Address,
    sequence_number: u64,
    payload: Vec<u8>,
    max_gas: u64,
    gas_unit_price: u64,
    now_secs: u64,
    chain_id: u64,
) -> (r: Transaction)
    ensures
        r@ == (TxnModel {
            sender,
            sequence_number,
            payload: payload@,
            max_gas,
            gas_unit_price,
            expiration_secs: spec_expiration(now_secs, DEFAULT_TXN_VALIDITY_SECS),
            chain_id,
        }),
{
    let expiration_secs = if DEFAULT_TXN_VALIDITY_SECS > u64::MAX - now_secs {
        u64::MAX
    } else {
        now_secs + DEFAULT_TXN_VALIDITY_SECS
    };
    Transaction {
        sender,
        sequence_number,
        payload,
        max_gas,
        gas_unit_price,
        expiration_secs,
        chain_id,
    }
}

/// What the external virtual machine reported for a payload it ran.
pub enum PayloadOutcome {
    Success { write_set: Vec<(StateKey, DeltaEntry)>, gas_used: u64 },
    Abort { code: u64, gas_used: u64 },
}

/// The executor adapter's verdict on one transaction.
#[derive(Clone, Debug)]
pub enum ExecStatus {
    KeptSuccess { gas_used: u64 },
    KeptFailure { code: u64, gas_used: u64 },
    Discarded { reason: DiscardReason },
}

/// The circumstances of one execution: the clock reading and the
/// cryptographic layer's verdict on the signature. `simulate` is the
/// explicit flag that waives signature checking; it is off by default.
pub struct ExecContext {
    pub now_secs: u64,
    pub signature_valid: bool,
    pub simulate: bool,
}

impl ExecContext {
    /// The default context performs full signature checking.
    pub fn checked(now_secs: u64, signature_valid: bool) -> (r: ExecContext)
        ensures
            r.now_secs == now_secs,
            r.signature_valid == signature_valid,
            !r.simulate,
    {
        ExecContext { now_secs, signature_valid, simulate: false }
    }
}

} // verus!
