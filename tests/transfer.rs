use sui_wallet::address::{parse_address, Address};
use sui_wallet::amount::AmountError;
use sui_wallet::workflow::{
    start_transfer, ObjectRef, TransferAction, TransferError, TransferEvent, TransferIntent,
    TransferState, DEFAULT_GAS_BUDGET,
};

fn address(byte: &str) -> Address {
    parse_address(&format!("0x{}", byte.repeat(32))).unwrap()
}

fn coin(id: u8, version: u64) -> ObjectRef {
    ObjectRef { object_id: vec![id; 32], version, digest: vec![id; 32] }
}

/// A stand-in for the network: it holds the sender's coins, the reference
/// gas price, and the coins that submitted transactions have consumed.
struct FakeNode {
    coins: Vec<ObjectRef>,
    reference_price: u64,
    fail_listing: bool,
    consumed: Vec<ObjectRef>,
    list_calls: usize,
    price_calls: usize,
    sign_calls: usize,
    submissions: Vec<TransferIntent>,
}

impl FakeNode {
    fn new(coins: Vec<ObjectRef>, reference_price: u64) -> FakeNode {
        FakeNode {
            coins,
            reference_price,
            fail_listing: false,
            consumed: Vec::new(),
            list_calls: 0,
            price_calls: 0,
            sign_calls: 0,
            submissions: Vec::new(),
        }
    }

    /// Performs one action of a run and gives the event it produced.
    fn perform(&mut self, state: &TransferState, action: TransferAction) -> Option<TransferEvent> {
        match action {
            TransferAction::FetchCoins => {
                self.list_calls += 1;
                if self.fail_listing {
                    Some(TransferEvent::NetworkFailed)
                } else {
                    Some(TransferEvent::CoinsListed(self.coins.clone()))
                }
            }
            TransferAction::FetchReferencePrice => {
                self.price_calls += 1;
                Some(TransferEvent::ReferencePrice(self.reference_price))
            }
            TransferAction::Sign => {
                self.sign_calls += 1;
                Some(TransferEvent::Signed(vec![7; 64]))
            }
            TransferAction::Submit => {
                let intent = match state {
                    TransferState::AwaitingExecution { intent, .. } => intent.clone(),
                    _ => panic!("submission without a signed intent"),
                };
                self.submissions.push(intent.clone());
                if self.consumed.contains(&intent.gas_coin) {
                    Some(TransferEvent::NetworkFailed)
                } else {
                    self.consumed.push(intent.gas_coin.clone());
                    Some(TransferEvent::Executed { digest: vec![0xd1; 32], success: true })
                }
            }
            _ => None,
        }
    }
}

fn run(node: &mut FakeNode, start: (TransferState, TransferAction)) -> TransferState {
    let (mut state, mut action) = start;
    while let Some(event) = node.perform(&state, action) {
        let (s, a) = state.step(event);
        state = s;
        action = a;
    }
    state
}

fn recipient_text() -> String {
    format!("0x{}", "22".repeat(32))
}

#[test]
fn explicit_price_transfer_submits_once_and_returns_the_digest() {
    let mut node = FakeNode::new(vec![coin(1, 5)], 750);
    let start = start_transfer(address("11"), &recipient_text(), "0.25", Some(3_000_000), Some(1_000));
    let end = run(&mut node, start);
    assert_eq!(end, TransferState::Confirmed { digest: vec![0xd1; 32] });
    assert_eq!(node.submissions.len(), 1);
    let intent = &node.submissions[0];
    assert_eq!(intent.amount, 250_000_000);
    assert_eq!(intent.gas_price, 1_000);
    assert_eq!(intent.gas_budget, 3_000_000);
    assert_eq!(intent.gas_coin, coin(1, 5));
    assert_eq!(intent.sender, address("11"));
    assert_eq!(intent.recipient, address("22"));
    assert_eq!(node.price_calls, 0);
}

#[test]
fn missing_price_and_budget_use_reference_price_and_default_budget() {
    let mut node = FakeNode::new(vec![coin(3, 1), coin(4, 1)], 750);
    let start = start_transfer(address("11"), &recipient_text(), "2", None, None);
    let end = run(&mut node, start);
    assert!(matches!(end, TransferState::Confirmed { .. }));
    assert_eq!(node.price_calls, 1);
    let intent = &node.submissions[0];
    assert_eq!(intent.gas_price, 750);
    assert_eq!(intent.gas_budget, DEFAULT_GAS_BUDGET);
    assert_eq!(intent.gas_coin, coin(3, 1));
    assert_eq!(intent.amount, 2_000_000_000);
}

#[test]
fn malformed_recipient_fails_before_any_network_call() {
    let bad_hex = format!("0x{}zz", "0".repeat(62));
    for text in ["", "0x1234", "hello", bad_hex.as_str()] {
        let mut node = FakeNode::new(vec![coin(1, 5)], 750);
        let start = start_transfer(address("11"), text, "1", None, Some(1_000));
        assert_eq!(start.1, TransferAction::Abort);
        let end = run(&mut node, start);
        assert_eq!(end, TransferState::Failed { error: TransferError::InvalidRecipient });
        assert_eq!(node.list_calls, 0);
        assert_eq!(node.sign_calls, 0);
        assert_eq!(node.submissions.len(), 0);
    }
}

#[test]
fn malformed_amount_fails_after_the_coins_are_listed() {
    let mut node = FakeNode::new(vec![coin(1, 5)], 750);
    let start = start_transfer(address("11"), &recipient_text(), "1.5.0", None, None);
    assert_eq!(start.1, TransferAction::FetchCoins);
    let end = run(&mut node, start);
    assert_eq!(
        end,
        TransferState::Failed { error: TransferError::InvalidAmount(AmountError::Malformed) }
    );
    assert_eq!(node.list_calls, 1);
    assert_eq!(node.sign_calls, 0);
    assert_eq!(node.submissions.len(), 0);
}

#[test]
fn tiny_amount_with_many_digits_is_transferred_as_zero_units() {
    let mut node = FakeNode::new(vec![coin(1, 5)], 750);
    let start = start_transfer(
        address("11"),
        &recipient_text(),
        "0.000000000000000000000000000001",
        None,
        Some(1_000),
    );
    let end = run(&mut node, start);
    assert!(matches!(end, TransferState::Confirmed { .. }));
    assert_eq!(node.submissions.len(), 1);
    assert_eq!(node.submissions[0].amount, 0);
}

#[test]
fn empty_inventory_fails_whatever_the_amount() {
    for amount in ["1", "-1", "1e9", "99999999999999999999"] {
        let mut node = FakeNode::new(Vec::new(), 750);
        let start = start_transfer(address("11"), &recipient_text(), amount, None, None);
        let end = run(&mut node, start);
        assert_eq!(end, TransferState::Failed { error: TransferError::NoFundsAvailable });
        assert_eq!(node.sign_calls, 0);
        assert_eq!(node.submissions.len(), 0);
    }
}

#[test]
fn empty_inventory_fails_without_signing_or_submitting() {
    let mut node = FakeNode::new(Vec::new(), 750);
    let start = start_transfer(address("11"), &recipient_text(), "1", None, Some(1_000));
    let end = run(&mut node, start);
    assert_eq!(end, TransferState::Failed { error: TransferError::NoFundsAvailable });
    assert_eq!(node.list_calls, 1);
    assert_eq!(node.sign_calls, 0);
    assert_eq!(node.submissions.len(), 0);
}

#[test]
fn failed_coin_listing_is_a_network_error() {
    let mut node = FakeNode::new(vec![coin(1, 5)], 750);
    node.fail_listing = true;
    let start = start_transfer(address("11"), &recipient_text(), "1", None, None);
    let end = run(&mut node, start);
    assert_eq!(end, TransferState::Failed { error: TransferError::Network });
    assert_eq!(node.submissions.len(), 0);
}

#[test]
fn racing_transfers_over_one_gas_coin_surface_a_network_error() {
    let mut node = FakeNode::new(vec![coin(9, 2)], 750);
    let (mut first, mut first_action) =
        start_transfer(address("11"), &recipient_text(), "1", None, Some(1_000));
    let (mut second, mut second_action) =
        start_transfer(address("11"), &recipient_text(), "2", None, Some(1_000));
    // Both select the one coin before either submits.
    while first_action != TransferAction::Submit {
        let e = node.perform(&first, first_action).unwrap();
        let (s, a) = first.step(e);
        first = s;
        first_action = a;
    }
    while second_action != TransferAction::Submit {
        let e = node.perform(&second, second_action).unwrap();
        let (s, a) = second.step(e);
        second = s;
        second_action = a;
    }
    let first_end = run(&mut node, (first, first_action));
    let second_end = run(&mut node, (second, second_action));
    assert!(matches!(first_end, TransferState::Confirmed { .. }));
    assert_eq!(second_end, TransferState::Failed { error: TransferError::Network });
    assert_eq!(node.submissions.len(), 2);
    assert_eq!(node.consumed.len(), 1);
}

#[test]
fn failed_execution_reports_its_digest() {
    let state = TransferState::AwaitingExecution {
        intent: TransferIntent {
            sender: address("11"),
            recipient: address("22"),
            amount: 1,
            gas_coin: coin(1, 1),
            gas_budget: 10,
            gas_price: 1,
        },
        signature: vec![1; 64],
    };
    let (s, a) = state.step(TransferEvent::Executed { digest: vec![5; 32], success: false });
    assert_eq!(s, TransferState::Failed { error: TransferError::ExecutionFailed(vec![5; 32]) });
    assert_eq!(a, TransferAction::Abort);
}

#[test]
fn events_that_do_not_fit_are_ignored() {
    let start = start_transfer(address("11"), &recipient_text(), "1", None, None);
    let (s, a) = start.0.clone().step(TransferEvent::Signed(vec![1]));
    assert_eq!(s, start.0);
    assert_eq!(a, TransferAction::Ignore);
    let failed = TransferState::Failed { error: TransferError::Network };
    let (s, a) = failed.clone().step(TransferEvent::ReferencePrice(3));
    assert_eq!(s, failed);
    assert_eq!(a, TransferAction::Ignore);
}

#[test]
fn amount_is_scaled_once_gas_coin_and_price_are_known() {
    let (s, a) = start_transfer(address("11"), &"cd".repeat(32), "0.0000000015", Some(9), None);
    assert_eq!(a, TransferAction::FetchCoins);
    assert_eq!(
        s,
        TransferState::AwaitingCoins {
            sender: address("11"),
            recipient: address("cd"),
            amount: "0.0000000015".to_string(),
            gas_budget: 9,
            gas_price: None,
        }
    );
    let (s, a) = s.step(TransferEvent::CoinsListed(vec![coin(1, 5)]));
    assert_eq!(a, TransferAction::FetchReferencePrice);
    let (s, a) = s.step(TransferEvent::ReferencePrice(40));
    assert_eq!(a, TransferAction::Sign);
    match s {
        TransferState::AwaitingSignature { intent } => {
            assert_eq!(intent.amount, 2);
            assert_eq!(intent.gas_price, 40);
            assert_eq!(intent.gas_budget, 9);
            assert_eq!(intent.recipient, address("cd"));
        }
        other => panic!("unexpected state {:?}", other),
    }
}
