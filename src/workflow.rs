//! The transfer workflow: move an amount of the native coin from the sender
//! to a recipient.
//!
//! The workflow is a state machine. `start_transfer` checks the recipient
//! and gives the first state; `TransferState::step` takes the outcome of
//! the last action and gives the next state and the next action. The caller
//! performs each action against the network (list the sender's coins, query
//! the reference gas price, sign the state's intent, submit it) and hands the
//! outcome back as an event. Nothing is submitted before the intent is signed,
//! and nothing is retried: the first failure ends the run.

use crate::address::{address_bytes, is_address_text, parse_address, Address};
use crate::amount::{parse_amount, parse_amount_spec, AmountError};
use vstd::prelude::*;

verus! {

/// Gas budget used when the caller gives none.
pub const DEFAULT_GAS_BUDGET: u64 = 5_000_000;

/// A reference to an on-chain object: its identifier, version and content digest.
#[derive(Clone, Debug, PartialEq, Eq)]
pub struct ObjectRef {
    pub object_id: Vec<u8>,
    pub version: u64,
    pub digest: Vec<u8>,
}

/// What is signed and submitted: a transfer of `amount` smallest units from
/// `sender` to `recipient`, paid for with `gas_coin`.
#[derive(Clone, Debug, PartialEq, Eq)]
pub struct TransferIntent {
    pub sender: Address,
    pub recipient: Address,
    pub amount: u64,
    pub gas_coin: ObjectRef,
    pub gas_budget: u64,
    pub gas_price: u64,
}

/// Why a transfer ended without confirmation.
#[derive(Clone, Debug, PartialEq, Eq)]
pub enum TransferError {
    /// The recipient text is not an address.
    InvalidRecipient,
    /// The amount text was not accepted.
    InvalidAmount(AmountError),
    /// The sender has no coin to pay gas with.
    NoFundsAvailable,
    /// A network call failed: the coin listing, the gas price query, or the
    /// submission (a conflict over the gas coin included).
    Network,
    /// The node executed the transaction, with this digest, and it failed.
    ExecutionFailed(Vec<u8>),
}

/// Where a transfer stands.
#[derive(Clone, Debug, PartialEq, Eq)]
pub enum TransferState {
    /// Recipient checked; waiting for the sender's coins. The amount text is
    /// scaled once a gas coin and price are known.
    AwaitingCoins {
        sender: Address,
        recipient: Address,
        amount: String,
        gas_budget: u64,
        gas_price: Option<u64>,
    },
    /// Gas coin chosen; waiting for the network's reference gas price.
    AwaitingPrice {
        sender: Address,
        recipient: Address,
        amount: String,
        gas_budget: u64,
        gas_coin: ObjectRef,
    },
    /// Intent built; waiting for its signature.
    AwaitingSignature { intent: TransferIntent },
    /// Signed intent submitted; waiting for its execution.
    AwaitingExecution { intent: TransferIntent, signature: Vec<u8> },
    /// Executed successfully, with this digest.
    Confirmed { digest: Vec<u8> },
    /// Ended without confirmation.
    Failed { error: TransferError },
}

/// The outcome of the last action, handed back by the caller.
#[derive(Clone, Debug, PartialEq, Eq)]
pub enum TransferEvent {
    /// The sender's coins of the native asset, in the order the node gave them.
    CoinsListed(Vec<ObjectRef>),
    /// The network's reference gas price.
    ReferencePrice(u64),
    /// The signature over the state's intent.
    Signed(Vec<u8>),
    /// The node executed the submitted transaction.
    Executed { digest: Vec<u8>, success: bool },
    /// The network call of the last action failed.
    NetworkFailed,
}

/// What the caller is to do next.
#[derive(Clone, Copy, Debug, PartialEq, Eq)]
pub enum TransferAction {
    /// List the sender's coins of the native asset.
    FetchCoins,
    /// Query the network's reference gas price.
    FetchReferencePrice,
    /// Sign the intent of the state.
    Sign,
    /// Submit the signed intent of the state, waiting for its effects.
    Submit,
    /// The transfer is confirmed; the state holds its digest.
    Finish,
    /// The transfer failed; the state holds the error.
    Abort,
    /// The event did not fit the state, which is kept: nothing to do.
    Ignore,
}

pub open spec fn gas_budget_or_default(gas_budget: Option<u64>) -> u64 {
    match gas_budget {
        Some(b) => b,
        None => DEFAULT_GAS_BUDGET,
    }
}

/// The first state and action of a transfer of the amount written `amount`
/// from `sender` to the address written `recipient`. The gas price is the
/// caller's when given, else the network's reference price.
pub open spec fn started(
    sender: Address,
    recipient: Seq<char>,
    amount: Seq<char>,
    gas_budget: Option<u64>,
    gas_price: Option<u64>,
    s: TransferState,
    a: TransferAction,
) -> bool {
    if !is_address_text(recipient) {
        s == (TransferState::Failed { error: TransferError::InvalidRecipient })
            && a == TransferAction::Abort
    } else {
        a == TransferAction::FetchCoins && match s {
            TransferState::AwaitingCoins { sender: s0, recipient: r, amount: m, gas_budget: b, gas_price: p } => {
                s0 == sender && r.wf() && r.bytes@ == address_bytes(recipient) && m@ == amount
                    && b == gas_budget_or_default(gas_budget) && p
                    == gas_price
            },
            _ => false,
        }
    }
}

/// The state and action once the gas coin and price are known: the intent
/// to sign, with the amount text scaled to smallest units, or the failure for
/// an amount text that was refused.
pub open spec fn built(
    sender: Address,
    recipient: Address,
    amount: Seq<char>,
    gas_coin: ObjectRef,
    gas_budget: u64,
    gas_price: u64,
) -> (TransferState, TransferAction) {
    match parse_amount_spec(amount) {
        Ok(m) => (
            TransferState::AwaitingSignature {
                intent: TransferIntent { sender, recipient, amount: m, gas_coin, gas_budget, gas_price },
            },
            TransferAction::Sign,
        ),
        Err(e) => (
            TransferState::Failed { error: TransferError::InvalidAmount(e) },
            TransferAction::Abort,
        ),
    }
}

/// The next state and action of a transfer in state `s` on event `e`.
pub open spec fn next(s: TransferState, e: TransferEvent) -> (TransferState, TransferAction) {
    match s {
        TransferState::AwaitingCoins { sender, recipient, amount, gas_budget, gas_price } => {
            match e {
                TransferEvent::CoinsListed(coins) => {
                    if coins@.len() == 0 {
                        (
                            TransferState::Failed { error: TransferError::NoFundsAvailable },
                            TransferAction::Abort,
                        )
                    } else {
                        match gas_price {
                            Some(p) => built(sender, recipient, amount@, coins@[0], gas_budget, p),
                            None => (
                                TransferState::AwaitingPrice {
                                    sender,
                                    recipient,
                                    amount,
                                    gas_budget,
                                    gas_coin: coins@[0],
                                },
                                TransferAction::FetchReferencePrice,
                            ),
                        }
                    }
                },
                TransferEvent::NetworkFailed => (
                    TransferState::Failed { error: TransferError::Network },
                    TransferAction::Abort,
                ),
                _ => (s, TransferAction::Ignore),
            }
        },
        TransferState::AwaitingPrice { sender, recipient, amount, gas_budget, gas_coin } => {
            match e {
                TransferEvent::ReferencePrice(p) => built(
                    sender,
                    recipient,
                    amount@,
                    gas_coin,
                    gas_budget,
                    p,
                ),
                TransferEvent::NetworkFailed => (
                    TransferState::Failed { error: TransferError::Network },
                    TransferAction::Abort,
                ),
                _ => (s, TransferAction::Ignore),
            }
        },
        TransferState::AwaitingSignature { intent } => {
            match e {
                TransferEvent::Signed(signature) => (
                    TransferState::AwaitingExecution { intent, signature },
                    TransferAction::Submit,
                ),
                _ => (s, TransferAction::Ignore),
            }
        },
        TransferState::AwaitingExecution { intent, signature } => {
            match e {
                TransferEvent::Executed { digest, success } => {
                    if success {
                        (TransferState::Confirmed { digest }, TransferAction::Finish)
                    } else {
                        (
                            TransferState::Failed { error: TransferError::ExecutionFailed(digest) },
                            TransferAction::Abort,
                        )
                    }
                },
                TransferEvent::NetworkFailed => (
                    TransferState::Failed { error: TransferError::Network },
                    TransferAction::Abort,
                ),
                _ => (s, TransferAction::Ignore),
            }
        },
        TransferState::Confirmed { .. } => (s, TransferAction::Ignore),
        TransferState::Failed { .. } => (s, TransferAction::Ignore),
    }
}

fn build(
    sender: Address,
    recipient: Address,
    amount: &str,
    gas_coin: ObjectRef,
    gas_budget: u64,
    gas_price: u64,
) -> (r: (TransferState, TransferAction))
    ensures
        r == built(sender, recipient, amount@, gas_coin, gas_budget, gas_price),
{
    match parse_amount(amount) {
        Ok(m) => (
            TransferState::AwaitingSignature {
                intent: TransferIntent { sender, recipient, amount: m, gas_coin, gas_budget, gas_price },
            },
            TransferAction::Sign,
        ),
        Err(e) => (
            TransferState::Failed { error: TransferError::InvalidAmount(e) },
            TransferAction::Abort,
        ),
    }
}

/// Starts a transfer of the amount written `amount` (in whole coins, see
/// `parse_amount`) from `sender` to the address written `recipient`.
/// Without a `gas_budget` the default budget is used; without a `gas_price`
/// the network's reference price is fetched.
pub fn start_transfer(
    sender: Address,
    recipient: &str,
    amount: &str,
    gas_budget: Option<u64>,
    gas_price: Option<u64>,
) -> (r: (TransferState, TransferAction))
    ensures
        started(sender, recipient@, amount@, gas_budget, gas_price, r.0, r.1),
{
    let recipient_addr = match parse_address(recipient) {
        Some(a) => a,
        None => {
            return (
                TransferState::Failed { error: TransferError::InvalidRecipient },
                TransferAction::Abort,
            );
        },
    };
    let amount_text = String::from_str(amount);
    let budget = match gas_budget {
        Some(b) => b,
        None => DEFAULT_GAS_BUDGET,
    };
    (
        TransferState::AwaitingCoins {
            sender,
            recipient: recipient_addr,
            amount: amount_text,
            gas_budget: budget,
            gas_price,
        },
        TransferAction::FetchCoins,
    )
}

impl TransferState {
    /// Takes the outcome of the last action and gives the next state and
    /// action: the first listed coin pays the gas, and any failure ends the
    /// transfer.
    pub fn step(self, e: TransferEvent) -> (r: (TransferState, TransferAction))
        ensures
            r == next(self, e),
    {
        match self {
            TransferState::AwaitingCoins { sender, recipient, amount, gas_budget, gas_price } => {
                match e {
                    TransferEvent::CoinsListed(coins) => {
                        if coins.len() == 0 {
                            (
                                TransferState::Failed { error: TransferError::NoFundsAvailable },
                                TransferAction::Abort,
                            )
                        } else {
                            let mut coins = coins;
                            let gas_coin = coins.remove(0);
                            match gas_price {
                                Some(p) => build(sender, recipient, amount.as_str(), gas_coin, gas_budget, p),
                                None => (
                                    TransferState::AwaitingPrice {
                                        sender,
                                        recipient,
                                        amount,
                                        gas_budget,
                                        gas_coin,
                                    },
                                    TransferAction::FetchReferencePrice,
                                ),
                            }
                        }
                    },
                    TransferEvent::NetworkFailed => (
                        TransferState::Failed { error: TransferError::Network },
                        TransferAction::Abort,
                    ),
                    _ => (
                        TransferState::AwaitingCoins {
                            sender,
                            recipient,
                            amount,
                            gas_budget,
                            gas_price,
                        },
                        TransferAction::Ignore,
                    ),
                }
            },
            TransferState::AwaitingPrice { sender, recipient, amount, gas_budget, gas_coin } => {
                match e {
                    TransferEvent::ReferencePrice(p) => build(
                        sender,
                        recipient,
                        amount.as_str(),
                        gas_coin,
                        gas_budget,
                        p,
                    ),
                    TransferEvent::NetworkFailed => (
                        TransferState::Failed { error: TransferError::Network },
                        TransferAction::Abort,
                    ),
                    _ => (
                        TransferState::AwaitingPrice {
                            sender,
                            recipient,
                            amount,
                            gas_budget,
                            gas_coin,
                        },
                        TransferAction::Ignore,
                    ),
                }
            },
            TransferState::AwaitingSignature { intent } => {
                match e {
                    TransferEvent::Signed(signature) => (
                        TransferState::AwaitingExecution { intent, signature },
                        TransferAction::Submit,
                    ),
                    _ => (TransferState::AwaitingSignature { intent }, TransferAction::Ignore),
                }
            },
            TransferState::AwaitingExecution { intent, signature } => {
                match e {
                    TransferEvent::Executed { digest, success } => {
                        if success {
                            (TransferState::Confirmed { digest }, TransferAction::Finish)
                        } else {
                            (
                                TransferState::Failed {
                                    error: TransferError::ExecutionFailed(digest),
                                },
                                TransferAction::Abort,
                            )
                        }
                    },
                    TransferEvent::NetworkFailed => (
                        TransferState::Failed { error: TransferError::Network },
                        TransferAction::Abort,
                    ),
                    _ => (
                        TransferState::AwaitingExecution { intent, signature },
                        TransferAction::Ignore,
                    ),
                }
            },
            TransferState::Confirmed { digest } => (
                TransferState::Confirmed { digest },
                TransferAction::Ignore,
            ),
            TransferState::Failed { error } => (
                TransferState::Failed { error },
                TransferAction::Ignore,
            ),
        }
    }
}

/// A transfer has been submitted, or has ended.
pub open spec fn is_submitted_or_ended(s: TransferState) -> bool {
    s is AwaitingExecution || s is Confirmed || s is Failed
}

/// A transfer that has ended stays as it is and asks for nothing more.
pub proof fn lemma_ended_is_final(s: TransferState, e: TransferEvent)
    requires
        s is Confirmed || s is Failed,
    ensures
        next(s, e) == (s, TransferAction::Ignore),
{
}

/// A transfer whose recipient text is no address fails with
/// `InvalidRecipient` at its start, before any network call, and asks for
/// nothing more whatever comes after.
pub proof fn lemma_invalid_recipient_stops_before_network(
    sender: Address,
    recipient: Seq<char>,
    amount: Seq<char>,
    gas_budget: Option<u64>,
    gas_price: Option<u64>,
    s: TransferState,
    a: TransferAction,
    e: TransferEvent,
)
    requires
        !is_address_text(recipient),
        started(sender, recipient, amount, gas_budget, gas_price, s, a),
    ensures
        s == (TransferState::Failed { error: TransferError::InvalidRecipient }),
        a == TransferAction::Abort,
        next(s, e) == (s, TransferAction::Ignore),
{
}

/// A sender with no coins makes the transfer fail with `NoFundsAvailable`,
/// whatever its amount text, with neither signing nor submission, and it asks
/// for nothing more.
pub proof fn lemma_empty_inventory_stops_before_signing(
    s: TransferState,
    coins: Vec<ObjectRef>,
    e: TransferEvent,
)
    requires
        s is AwaitingCoins,
        coins@.len() == 0,
    ensures
        next(s, TransferEvent::CoinsListed(coins)) == (
            TransferState::Failed { error: TransferError::NoFundsAvailable },
            TransferAction::Abort,
        ),
        next(next(s, TransferEvent::CoinsListed(coins)).0, e).1 == TransferAction::Ignore,
{
}

/// Once submitted, a transfer is never submitted again: every later state is
/// a submitted or ended one, and no later action is a submission.
pub proof fn lemma_submitted_once(s: TransferState, e: TransferEvent)
    requires
        is_submitted_or_ended(s),
    ensures
        is_submitted_or_ended(next(s, e).0),
        next(s, e).1 != TransferAction::Submit,
{
}

/// A submission that the network refuses (a conflict over the gas coin
/// among others) fails the transfer with `Network`, without a digest.
pub proof fn lemma_refused_submission_is_network_error(s: TransferState)
    requires
        s is AwaitingExecution,
    ensures
        next(s, TransferEvent::NetworkFailed) == (
            TransferState::Failed { error: TransferError::Network },
            TransferAction::Abort,
        ),
{
}

/// A transfer with valid input and an explicit gas price, whose sender has
/// coins, builds its intent from the first coin, the scaled amount, the given
/// price and budget, submits it once after signing, and on successful
/// execution returns the node's digest unchanged.
pub proof fn lemma_transfer_with_explicit_price(
    sender: Address,
    recipient: Seq<char>,
    amount: Seq<char>,
    gas_budget: u64,
    gas_price: u64,
    s0: TransferState,
    a0: TransferAction,
    coins: Vec<ObjectRef>,
    signature: Vec<u8>,
    digest: Vec<u8>,
)
    requires
        is_address_text(recipient),
        parse_amount_spec(amount) is Ok,
        started(sender, recipient, amount, Some(gas_budget), Some(gas_price), s0, a0),
        coins@.len() > 0,
    ensures
        a0 == TransferAction::FetchCoins,
        ({
            let (s1, a1) = next(s0, TransferEvent::CoinsListed(coins));
            let (s2, a2) = next(s1, TransferEvent::Signed(signature));
            let (s3, a3) = next(s2, TransferEvent::Executed { digest, success: true });
            &&& a1 == TransferAction::Sign
            &&& a2 == TransferAction::Submit
            &&& a3 == TransferAction::Finish
            &&& s3 == (TransferState::Confirmed { digest })
            &&& s2 matches TransferState::AwaitingExecution { intent, signature: sig }
            &&& sig == signature
            &&& intent.sender == sender
            &&& intent.recipient.bytes@ == address_bytes(recipient)
            &&& intent.amount == parse_amount_spec(amount)->Ok_0
            &&& intent.gas_coin == coins@[0]
            &&& intent.gas_budget == gas_budget
            &&& intent.gas_price == gas_price
        }),
{
}

} // verus!
