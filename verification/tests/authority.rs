use fast_core::authority::{
    BridgeAuthorityState, BridgeShardState, DummyEscrowVerifier, EscrowVerifier,
};
use fast_core::base_types::{
    ChainId, CrossChainTransfer, InteropTxId, KeyPair, Pubkey, ShardId, Signature,
};
use fast_core::committee::Committee;
use fast_core::error::FastPayError;
use fast_core::message::{
    CertifiedCrossChainTransferOrder, CrossChainSignatureAggregator, CrossChainTransferOrder,
    CrossShardCrossChainUpdate, SignedCrossChainTransferOrder,
};
use tokio::sync::mpsc::UnboundedReceiver;

struct Refusing;

impl EscrowVerifier for Refusing {
    fn verify_escrow(&self, _transfer: &CrossChainTransfer) -> Result<bool, FastPayError> {
        Ok(false)
    }
}

struct Failing;

impl EscrowVerifier for Failing {
    fn verify_escrow(&self, _transfer: &CrossChainTransfer) -> Result<bool, FastPayError> {
        Err(FastPayError::CommunicationError)
    }
}

fn seeds() -> [u8; 4] {
    [11, 12, 13, 14]
}

fn committee() -> Committee {
    Committee::new(
        seeds().iter().map(|seed| (KeyPair::from([*seed; 32]).public(), 1usize)).collect(),
    )
}

type Authority = BridgeAuthorityState<DummyEscrowVerifier>;
type Bus = UnboundedReceiver<CrossShardCrossChainUpdate>;

fn authority(seed: u8, shards: u32) -> (Authority, Bus) {
    let secret = KeyPair::from([seed; 32]);
    BridgeAuthorityState::new(secret.public(), secret, committee(), shards, DummyEscrowVerifier)
}

fn authorities() -> Vec<(Authority, Bus)> {
    seeds().iter().map(|seed| authority(*seed, 16)).collect()
}

fn order_of(sender_seed: u8, amount: u64, nonce: u64) -> CrossChainTransferOrder {
    let sender = KeyPair::from([sender_seed; 32]);
    let recipient = Pubkey([3u8; 32]);
    let token_mint = Pubkey([4u8; 32]);
    let transfer = CrossChainTransfer {
        source_chain: ChainId(1),
        destination_chain: ChainId(2),
        sender: sender.public(),
        recipient,
        amount,
        token_mint,
        interop_tx_id: InteropTxId::generate(
            ChainId(1),
            ChainId(2),
            sender.public(),
            recipient,
            amount,
            token_mint,
            nonce,
        ),
        escrow_account: Pubkey([5u8; 32]),
        nonce,
    };
    CrossChainTransferOrder::new(transfer, &sender)
}

fn certify(
    order: &CrossChainTransferOrder,
    votes: &[SignedCrossChainTransferOrder],
) -> Option<CertifiedCrossChainTransferOrder> {
    let committee = committee();
    let mut aggregator = CrossChainSignatureAggregator::try_new(*order, &committee).unwrap();
    for vote in votes {
        if let Some(certificate) = aggregator.append(vote.authority, vote.signature).unwrap() {
            return Some(certificate);
        }
    }
    None
}

fn deliver(state: &mut Authority, bus: &mut Bus) -> usize {
    let mut delivered = 0;
    while let Ok(update) = bus.try_recv() {
        state.handle_cross_shard_update(update).unwrap();
        delivered += 1;
    }
    delivered
}

fn is_processed(state: &Authority, shard: ShardId, order: &CrossChainTransferOrder) -> bool {
    state.shard_states[&shard]
        .processed_transfers
        .contains(&order.transfer.interop_tx_id.0)
}

fn is_pending(state: &Authority, shard: ShardId, order: &CrossChainTransferOrder) -> bool {
    state.shard_states[&shard]
        .pending_transfers
        .contains_key(&order.transfer.interop_tx_id.0)
}

#[test]
fn new_shard_is_empty() {
    let shard = BridgeShardState::new(7);
    assert_eq!(shard.shard_id, 7);
    assert_eq!(shard.processed_transfers.len(), 0);
    assert_eq!(shard.pending_transfers.len(), 0);
}

#[test]
fn new_authority_has_one_empty_state_for_each_shard() {
    let (state, _bus) = authority(11, 16);
    assert_eq!(state.name, KeyPair::from([11u8; 32]).public());
    assert_eq!(state.number_of_shards, 16);
    assert_eq!(state.shard_states.len(), 16);
    for (index, shard) in state.shard_states.iter() {
        assert_eq!(shard.shard_id, *index);
        assert!(*index < 16);
        assert_eq!(shard.processed_transfers.len(), 0);
        assert_eq!(shard.pending_transfers.len(), 0);
    }
    let (none, _bus) = authority(11, 0);
    assert_eq!(none.shard_states.len(), 0);
}

#[test]
fn shard_of_a_transfer_ignores_the_number_of_shards() {
    let (state, _bus) = authority(11, 4);
    let order = order_of(2, 1000, 0);
    assert_eq!(state.get_shard_id(&order.transfer), 1);
    assert!(state.in_shard(&order.transfer, 1));
    assert!(!state.in_shard(&order.transfer, 0));
    let mut transfer = order.transfer;
    transfer.sender.0[0] = 0xff;
    assert_eq!(state.get_shard_id(&transfer), 15);
    assert!(state.in_shard(&transfer, 15));
}

#[test]
fn happy_path() {
    let order = order_of(2, 1000, 0);
    assert_eq!(order.transfer.sender.0[0], 129);
    let shard = order.transfer.shard_id();
    assert_eq!(shard, 1);
    let mut all = authorities();
    // Every authority votes on the owning shard.
    let mut votes = Vec::new();
    for (state, _) in all.iter_mut() {
        let signed = state.handle_cross_chain_transfer_order(order, shard).unwrap();
        assert_eq!(signed.value, order);
        assert_eq!(signed.value.signature, order.signature);
        assert_eq!(signed.authority, state.name);
        assert_eq!(signed.check(&committee()), Ok(1));
        assert!(is_pending(state, shard, &order));
        assert!(!is_processed(state, shard, &order));
        votes.push(signed);
    }
    assert_eq!(votes.len(), 4);
    let certificate = certify(&order, &votes).unwrap();
    assert_eq!(certificate.signatures.len(), 3);
    assert_eq!(certificate.check(&committee()), Ok(()));
    // The certificate reaches every shard of every authority over its bus.
    for (state, bus) in all.iter_mut() {
        state.propagate_certified_transfer(certificate.clone()).unwrap();
        assert_eq!(deliver(state, bus), 16);
        for index in 0..16u32 {
            assert!(is_processed(state, index, &order));
            assert_eq!(state.shard_states[&index].processed_transfers.len(), 1);
            assert_eq!(state.shard_states[&index].pending_transfers.len(), 0);
        }
    }
}

#[test]
fn one_silent_authority_does_not_stop_the_certificate() {
    let order = order_of(2, 1000, 0);
    let mut all = authorities();
    let mut votes = Vec::new();
    for (index, (state, _)) in all.iter_mut().enumerate() {
        if index == 1 {
            continue;
        }
        votes.push(state.handle_cross_chain_transfer_order(order, 1).unwrap());
    }
    assert_eq!(votes.len(), 3);
    let certificate = certify(&order, &votes).unwrap();
    assert_eq!(certificate.check(&committee()), Ok(()));
    // The silent authority accepts the certificate too.
    let (state, bus) = &mut all[1];
    state.propagate_certified_transfer(certificate).unwrap();
    assert_eq!(deliver(state, bus), 16);
    assert!(is_processed(state, 1, &order));
}

#[test]
fn two_votes_make_no_certificate() {
    let order = order_of(2, 1000, 0);
    let mut all = authorities();
    let mut votes = Vec::new();
    for (state, _) in all.iter_mut().take(2) {
        votes.push(state.handle_cross_chain_transfer_order(order, 1).unwrap());
    }
    assert!(certify(&order, &votes).is_none());
}

#[test]
fn replay_votes_again_until_the_certificate_is_known() {
    let order = order_of(2, 1000, 0);
    let mut all = authorities();
    let first = all[0].0.handle_cross_chain_transfer_order(order, 1).unwrap();
    let second = all[0].0.handle_cross_chain_transfer_order(order, 1).unwrap();
    assert_eq!(first.value.transfer, second.value.transfer);
    assert_eq!(first.value.signature, second.value.signature);
    assert_eq!(first.authority, second.authority);
    assert_eq!(first.signature, second.signature);
    assert_eq!(all[0].0.shard_states[&1].pending_transfers.len(), 1);
    let mut votes = vec![first];
    for (state, _) in all.iter_mut().skip(1) {
        votes.push(state.handle_cross_chain_transfer_order(order, 1).unwrap());
    }
    let certificate = certify(&order, &votes).unwrap();
    let (state, bus) = &mut all[0];
    state.propagate_certified_transfer(certificate).unwrap();
    deliver(state, bus);
    assert_eq!(
        state.handle_cross_chain_transfer_order(order, 1),
        Err(FastPayError::CertificateAlreadyExists)
    );
    assert!(!is_pending(state, 1, &order));
    assert!(is_processed(state, 1, &order));
}

#[test]
fn order_for_another_shard_is_refused() {
    // Look for a sender whose key begins with a byte of shard 0.
    let mut order = order_of(2, 1000, 0);
    let mut seed = 0u8;
    while order.transfer.shard_id() != 0 {
        seed += 1;
        order = order_of(seed, 1000, 0);
    }
    let (mut state, _bus) = authority(11, 16);
    assert_eq!(
        state.handle_cross_chain_transfer_order(order, 1),
        Err(FastPayError::WrongShard)
    );
    for shard in state.shard_states.values() {
        assert_eq!(shard.pending_transfers.len(), 0);
        assert_eq!(shard.processed_transfers.len(), 0);
    }
    assert!(state.handle_cross_chain_transfer_order(order, 0).is_ok());
    assert!(is_pending(&state, 0, &order));
    assert_eq!(state.shard_states[&1].pending_transfers.len(), 0);
}

#[test]
fn order_for_a_shard_that_is_not_run_is_refused() {
    let order = order_of(2, 1000, 0);
    let (mut state, _bus) = authority(11, 1);
    assert_eq!(
        state.handle_cross_chain_transfer_order(order, 1),
        Err(FastPayError::ShardStateNotFound)
    );
    // The wrong shard is found out first.
    assert_eq!(
        state.handle_cross_chain_transfer_order(order, 0),
        Err(FastPayError::WrongShard)
    );
    assert_eq!(state.shard_states[&0].pending_transfers.len(), 0);
}

#[test]
fn order_with_a_bad_signature_is_refused() {
    let mut order = order_of(2, 1000, 0);
    order.signature.0[1] ^= 1;
    let (mut state, _bus) = authority(11, 16);
    assert!(matches!(
        state.handle_cross_chain_transfer_order(order, 1),
        Err(FastPayError::InvalidSignature { .. })
    ));
    assert!(matches!(state.admit_order(&order, 1), Err(FastPayError::InvalidSignature { .. })));
    assert!(!is_pending(&state, 1, &order));
}

#[test]
fn order_without_escrow_is_refused_with_its_amount() {
    let order = order_of(2, 1000, 0);
    let secret = KeyPair::from([11u8; 32]);
    let (mut refusing, _bus) =
        BridgeAuthorityState::new(secret.public(), secret, committee(), 16, Refusing);
    assert_eq!(
        refusing.handle_cross_chain_transfer_order(order, 1),
        Err(FastPayError::InvalidTransferAmount { error: String::from("1000") })
    );
    assert_eq!(refusing.shard_states[&1].pending_transfers.len(), 0);
    let secret = KeyPair::from([11u8; 32]);
    let (mut failing, _bus) =
        BridgeAuthorityState::new(secret.public(), secret, committee(), 16, Failing);
    let large = order_of(2, u64::MAX, 0);
    assert_eq!(
        failing.handle_cross_chain_transfer_order(large, 1),
        Err(FastPayError::InvalidTransferAmount { error: String::from("18446744073709551615") })
    );
    assert_eq!(failing.shard_states[&1].pending_transfers.len(), 0);
}

#[test]
fn recorded_order_follows_the_answer_of_the_oracle() {
    let order = order_of(2, 250, 0);
    let (mut state, _bus) = authority(11, 16);
    assert_eq!(state.admit_order(&order, 1), Ok(()));
    assert_eq!(
        state.record_order(order, 1, Ok(false)),
        Err(FastPayError::InvalidTransferAmount { error: String::from("250") })
    );
    assert_eq!(
        state.record_order(order, 1, Err(FastPayError::UnknownSigner)),
        Err(FastPayError::InvalidTransferAmount { error: String::from("250") })
    );
    assert!(!is_pending(&state, 1, &order));
    let signed = state.record_order(order, 1, Ok(true)).unwrap();
    assert_eq!(signed.value, order);
    assert_eq!(signed.signature, Signature::new(&order.transfer, &KeyPair::from([11u8; 32])));
    assert!(is_pending(&state, 1, &order));
}

#[test]
fn update_is_idempotent() {
    let order = order_of(2, 1000, 0);
    let mut all = authorities();
    let votes: Vec<SignedCrossChainTransferOrder> = all
        .iter_mut()
        .map(|(state, _)| state.handle_cross_chain_transfer_order(order, 1).unwrap())
        .collect();
    let certificate = certify(&order, &votes).unwrap();
    let (state, _bus) = &mut all[0];
    let update = CrossShardCrossChainUpdate { shard_id: 1, transfer_certificate: certificate };
    assert_eq!(state.handle_cross_shard_update(update.clone()), Ok(()));
    assert!(is_processed(state, 1, &order));
    assert!(!is_pending(state, 1, &order));
    assert_eq!(state.handle_cross_shard_update(update), Ok(()));
    assert_eq!(state.shard_states[&1].processed_transfers.len(), 1);
    assert_eq!(state.shard_states[&1].pending_transfers.len(), 0);
    // The other shards have not heard of it.
    assert!(!is_processed(state, 0, &order));
}

#[test]
fn update_without_an_order_marks_the_transfer() {
    let order = order_of(2, 1000, 0);
    let mut all = authorities();
    let votes: Vec<SignedCrossChainTransferOrder> = all
        .iter_mut()
        .take(3)
        .map(|(state, _)| state.handle_cross_chain_transfer_order(order, 1).unwrap())
        .collect();
    let certificate = certify(&order, &votes).unwrap();
    let (state, _bus) = &mut all[3];
    let update = CrossShardCrossChainUpdate { shard_id: 5, transfer_certificate: certificate };
    assert_eq!(state.handle_cross_shard_update(update), Ok(()));
    assert!(is_processed(state, 5, &order));
    assert_eq!(state.shard_states[&5].pending_transfers.len(), 0);
}

#[test]
fn update_is_refused_for_unknown_shard_or_bad_certificate() {
    let order = order_of(2, 1000, 0);
    let mut all = authorities();
    let votes: Vec<SignedCrossChainTransferOrder> = all
        .iter_mut()
        .map(|(state, _)| state.handle_cross_chain_transfer_order(order, 1).unwrap())
        .collect();
    let certificate = certify(&order, &votes).unwrap();
    let (state, _bus) = &mut all[0];
    let update =
        CrossShardCrossChainUpdate { shard_id: 16, transfer_certificate: certificate.clone() };
    assert_eq!(state.handle_cross_shard_update(update), Err(FastPayError::ShardStateNotFound));
    let mut short = certificate.clone();
    short.signatures.pop();
    let update = CrossShardCrossChainUpdate { shard_id: 1, transfer_certificate: short };
    assert_eq!(
        state.handle_cross_shard_update(update),
        Err(FastPayError::InvalidCrossShardUpdate)
    );
    let mut forged = certificate;
    forged.signatures[0].1 .0[0] ^= 1;
    let update = CrossShardCrossChainUpdate { shard_id: 1, transfer_certificate: forged };
    assert_eq!(
        state.handle_cross_shard_update(update),
        Err(FastPayError::InvalidCrossShardUpdate)
    );
    assert!(is_pending(state, 1, &order));
    assert!(!is_processed(state, 1, &order));
}

#[test]
fn propagation_puts_one_update_for_each_shard_on_the_bus() {
    let order = order_of(2, 1000, 0);
    let mut all = authorities();
    let votes: Vec<SignedCrossChainTransferOrder> = all
        .iter_mut()
        .map(|(state, _)| state.handle_cross_chain_transfer_order(order, 1).unwrap())
        .collect();
    let certificate = certify(&order, &votes).unwrap();
    let (state, mut bus) = authority(11, 3);
    let updates = state.cross_shard_updates(&certificate);
    assert_eq!(updates.len(), 3);
    state.propagate_certified_transfer(certificate.clone()).unwrap();
    for shard in 0..3u32 {
        let update = bus.try_recv().unwrap();
        assert_eq!(update.shard_id, shard);
        assert_eq!(update.transfer_certificate.signatures, certificate.signatures);
        assert_eq!(update.transfer_certificate.value.signature, certificate.value.signature);
        assert!(update == updates[shard as usize]);
    }
    assert!(bus.try_recv().is_err());
}

#[test]
fn propagation_checks_the_certificate_and_needs_the_bus() {
    let order = order_of(2, 1000, 0);
    let mut all = authorities();
    let votes: Vec<SignedCrossChainTransferOrder> = all
        .iter_mut()
        .map(|(state, _)| state.handle_cross_chain_transfer_order(order, 1).unwrap())
        .collect();
    let certificate = certify(&order, &votes).unwrap();
    let (state, mut bus) = authority(11, 16);
    let mut short = certificate.clone();
    short.signatures.truncate(2);
    assert_eq!(
        state.propagate_certified_transfer(short),
        Err(FastPayError::CertificateRequiresQuorum)
    );
    assert!(bus.try_recv().is_err());
    drop(bus);
    assert_eq!(
        state.propagate_certified_transfer(certificate),
        Err(FastPayError::ConfigurationError {
            error: String::from("Failed to send cross-shard update")
        })
    );
}

#[test]
fn transfers_that_differ_in_nonce_are_processed_independently() {
    let first = order_of(2, 1000, 0);
    let second = order_of(2, 1000, 1);
    assert_ne!(first.transfer.interop_tx_id, second.transfer.interop_tx_id);
    let mut all = authorities();
    let mut first_votes = Vec::new();
    let mut second_votes = Vec::new();
    for (state, _) in all.iter_mut() {
        first_votes.push(state.handle_cross_chain_transfer_order(first, 1).unwrap());
        second_votes.push(state.handle_cross_chain_transfer_order(second, 1).unwrap());
        assert_eq!(state.shard_states[&1].pending_transfers.len(), 2);
    }
    let certificate = certify(&first, &first_votes).unwrap();
    let (state, bus) = &mut all[0];
    state.propagate_certified_transfer(certificate).unwrap();
    deliver(state, bus);
    assert!(is_processed(state, 1, &first));
    assert!(!is_processed(state, 1, &second));
    assert!(is_pending(state, 1, &second));
    assert!(state.handle_cross_chain_transfer_order(second, 1).is_ok());
    let certificate = certify(&second, &second_votes).unwrap();
    state.propagate_certified_transfer(certificate).unwrap();
    deliver(state, bus);
    assert!(is_processed(state, 1, &second));
    assert_eq!(state.shard_states[&1].pending_transfers.len(), 0);
    assert_eq!(state.shard_states[&1].processed_transfers.len(), 2);
}

#[test]
fn dummy_oracle_confirms() {
    let order = order_of(2, 1000, 0);
    assert_eq!(DummyEscrowVerifier.verify_escrow(&order.transfer), Ok(true));
}

#[test]
fn authority_without_shards_propagates_to_nobody() {
    let order = order_of(2, 1000, 0);
    let mut all = authorities();
    let votes: Vec<SignedCrossChainTransferOrder> = all
        .iter_mut()
        .map(|(state, _)| state.handle_cross_chain_transfer_order(order, 1).unwrap())
        .collect();
    let certificate = certify(&order, &votes).unwrap();
    let (state, mut bus) = authority(11, 0);
    assert_eq!(state.cross_shard_updates(&certificate).len(), 0);
    assert_eq!(state.propagate_certified_transfer(certificate.clone()), Ok(()));
    assert!(bus.try_recv().is_err());
    // Nothing is sent, so a closed bus does no harm.
    drop(bus);
    assert_eq!(state.propagate_certified_transfer(certificate.clone()), Ok(()));
    let mut short = certificate;
    short.signatures.truncate(1);
    assert_eq!(
        state.propagate_certified_transfer(short),
        Err(FastPayError::CertificateRequiresQuorum)
    );
}

#[test]
fn vote_of_an_authority_passes_its_check() {
    let order = order_of(2, 1000, 0);
    assert_eq!(order.check_signature(), Ok(()));
    let (mut state, _bus) = authority(12, 16);
    let first = state.handle_cross_chain_transfer_order(order, 1).unwrap();
    assert_eq!(first.signature.check(&order.transfer, state.name), Ok(()));
    assert_eq!(first.check(&committee()), Ok(1));
    // Voting again gives the same vote and leaves the shard as it was.
    let second = state.handle_cross_chain_transfer_order(order, 1).unwrap();
    assert_eq!(second.signature, first.signature);
    assert_eq!(second.signature.check(&order.transfer, state.name), Ok(()));
    assert_eq!(state.shard_states[&1].pending_transfers.len(), 1);
    assert_eq!(state.shard_states[&1].processed_transfers.len(), 0);
    // An authority that signs with the key of another does not pass.
    let secret = KeyPair::from([13u8; 32]);
    let name = KeyPair::from([12u8; 32]).public();
    let (mut odd, _bus) =
        BridgeAuthorityState::new(name, secret, committee(), 16, DummyEscrowVerifier);
    let vote = odd.handle_cross_chain_transfer_order(order, 1).unwrap();
    assert!(vote.signature.check(&order.transfer, name).is_err());
}
