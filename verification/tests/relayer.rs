use fast_core::authority::{BridgeAuthorityState, DummyEscrowVerifier};
use fast_core::base_types::{
    ChainId, CrossChainTransfer, InteropTxId, KeyPair, Pubkey, Signature,
};
use fast_core::committee::Committee;
use fast_core::message::{
    CrossChainTransferOrder, CrossShardCrossChainUpdate, SignedCrossChainTransferOrder,
};
use fast_core::network::{read_transfer_order_reply, DEFAULT_BUFFER_SIZE};
use fast_core::relayer::{get_shard_id, Relayer, PENDING_TIMEOUT_MS, SOURCE_POLL_MS};
use fast_core::serialization::{serialize_certified_order, serialize_transfer_order};
use fast_core::server::handle_datagram;
use tokio::sync::mpsc::UnboundedReceiver;

fn seeds() -> [u8; 4] {
    [11, 12, 13, 14]
}

fn committee() -> Committee {
    Committee::new(
        seeds().iter().map(|seed| (KeyPair::from([*seed; 32]).public(), 1usize)).collect(),
    )
}

fn order_of(nonce: u64) -> CrossChainTransferOrder {
    let sender = KeyPair::from([2u8; 32]);
    let recipient = Pubkey([3u8; 32]);
    let token_mint = Pubkey([4u8; 32]);
    let transfer = CrossChainTransfer {
        source_chain: ChainId(1),
        destination_chain: ChainId(2),
        sender: sender.public(),
        recipient,
        amount: 1000,
        token_mint,
        interop_tx_id: InteropTxId::generate(
            ChainId(1),
            ChainId(2),
            sender.public(),
            recipient,
            1000,
            token_mint,
            nonce,
        ),
        escrow_account: Pubkey([5u8; 32]),
        nonce,
    };
    CrossChainTransferOrder::new(transfer, &sender)
}

fn vote_of(order: &CrossChainTransferOrder, seed: u8) -> SignedCrossChainTransferOrder {
    let key = KeyPair::from([seed; 32]);
    SignedCrossChainTransferOrder::new(*order, key.public(), &key)
}

type Authority = BridgeAuthorityState<DummyEscrowVerifier>;
type Bus = UnboundedReceiver<CrossShardCrossChainUpdate>;

fn authorities() -> Vec<(Authority, Bus)> {
    seeds()
        .iter()
        .map(|seed| {
            let secret = KeyPair::from([*seed; 32]);
            BridgeAuthorityState::new(
                secret.public(),
                secret,
                committee(),
                16,
                DummyEscrowVerifier,
            )
        })
        .collect()
}

#[test]
fn constants_of_the_protocol() {
    assert_eq!(PENDING_TIMEOUT_MS, 300_000);
    assert_eq!(SOURCE_POLL_MS, 10_000);
    assert_eq!(DEFAULT_BUFFER_SIZE, 65536);
}

#[test]
fn relayer_shard_is_first_sender_byte_modulo_sixteen() {
    let order = order_of(0);
    assert_eq!(get_shard_id(&order.transfer, 16), 1);
    assert_eq!(get_shard_id(&order.transfer, 4), 1);
    let mut transfer = order.transfer;
    transfer.sender.0[0] = 0x3e;
    assert_eq!(get_shard_id(&transfer, 16), 14);
    assert_eq!(get_shard_id(&transfer, 1), 14);
}

#[test]
fn source_chain_is_polled_at_most_every_ten_seconds() {
    let mut relayer = Relayer::new(committee(), 1000);
    assert_eq!(relayer.polling_interval, 1000);
    assert_eq!(relayer.last_poll, None);
    assert!(relayer.poll_source_chain(5_000));
    assert_eq!(relayer.last_poll, Some(5_000));
    assert!(!relayer.poll_source_chain(6_000));
    assert!(!relayer.poll_source_chain(15_000));
    assert_eq!(relayer.last_poll, Some(5_000));
    assert!(relayer.poll_source_chain(15_001));
    assert_eq!(relayer.last_poll, Some(15_001));
    // A clock that went back does not count as time passed.
    assert!(!relayer.poll_source_chain(1_000));
}

#[test]
fn new_transfer_becomes_pending_for_its_shard() {
    let mut relayer = Relayer::new(committee(), 1000);
    let order = order_of(0);
    assert_eq!(relayer.process_transfer(order, 42), Some(1));
    assert_eq!(relayer.pending_transfers.len(), 1);
    let pending = relayer.pending_transfers.get(&order.transfer.interop_tx_id.0).unwrap();
    assert_eq!(pending.order, order);
    assert_eq!(pending.weight, 0);
    assert_eq!(pending.start_time, 42);
    assert_eq!(pending.signed_orders.len(), 0);
    // Seen again while pending: nothing happens.
    assert_eq!(relayer.process_transfer(order, 99), None);
    let pending = relayer.pending_transfers.get(&order.transfer.interop_tx_id.0).unwrap();
    assert_eq!(pending.start_time, 42);
    assert_eq!(relayer.pending_transfers.len(), 1);
}

#[test]
fn votes_that_count_add_their_weight() {
    let mut relayer = Relayer::new(committee(), 1000);
    let order = order_of(0);
    let id = order.transfer.interop_tx_id.0;
    relayer.process_transfer(order, 0);
    assert!(relayer.handle_signed_order(vote_of(&order, 11)));
    assert_eq!(relayer.pending_transfers.get(&id).unwrap().weight, 1);
    // The same authority again.
    assert!(!relayer.handle_signed_order(vote_of(&order, 11)));
    // A stranger.
    assert!(!relayer.handle_signed_order(vote_of(&order, 99)));
    // A vote with a signature that does not verify.
    let mut forged = vote_of(&order, 12);
    forged.signature.0[0] ^= 1;
    assert!(!relayer.handle_signed_order(forged));
    // A vote on a transfer that is not pending.
    assert!(!relayer.handle_signed_order(vote_of(&order_of(5), 12)));
    // A vote on the pending identifier with other content.
    let mut bent = order;
    bent.transfer.amount = 1;
    let sender = KeyPair::from([2u8; 32]);
    bent.signature = Signature::new(&bent.transfer, &sender);
    assert!(!relayer.handle_signed_order(vote_of(&bent, 12)));
    assert_eq!(relayer.pending_transfers.get(&id).unwrap().weight, 1);
    assert_eq!(relayer.pending_transfers.get(&id).unwrap().signed_orders.len(), 1);
    assert!(relayer.handle_signed_order(vote_of(&order, 12)));
    assert_eq!(relayer.pending_transfers.get(&id).unwrap().weight, 2);
    assert_eq!(relayer.pending_transfers.get(&id).unwrap().signed_orders.len(), 2);
}

#[test]
fn certificate_is_made_at_quorum() {
    let mut relayer = Relayer::new(committee(), 1000);
    let order = order_of(0);
    let id = order.transfer.interop_tx_id.0;
    relayer.process_transfer(order, 0);
    relayer.handle_signed_order(vote_of(&order, 13));
    relayer.handle_signed_order(vote_of(&order, 11));
    {
        let pending = relayer.pending_transfers.get(&id).unwrap();
        assert_eq!(relayer.create_certificate(pending), Ok(None));
    }
    relayer.handle_signed_order(vote_of(&order, 14));
    relayer.handle_signed_order(vote_of(&order, 12));
    let pending = relayer.pending_transfers.get(&id).unwrap();
    assert_eq!(pending.weight, 4);
    let certificate = relayer.create_certificate(pending).unwrap().unwrap();
    assert_eq!(certificate.value, order);
    let signers: Vec<Pubkey> = certificate.signatures.iter().map(|vote| vote.0).collect();
    let expected: Vec<Pubkey> =
        [13u8, 11, 14].iter().map(|seed| KeyPair::from([*seed; 32]).public()).collect();
    assert_eq!(signers, expected);
    assert_eq!(certificate.check(&committee()), Ok(()));
}

#[test]
fn round_certifies_what_has_a_quorum() {
    let mut relayer = Relayer::new(committee(), 1000);
    let ready = order_of(0);
    let waiting = order_of(1);
    relayer.process_transfer(ready, 0);
    relayer.process_transfer(waiting, 0);
    for seed in [11u8, 12, 13] {
        assert!(relayer.handle_signed_order(vote_of(&ready, seed)));
    }
    for seed in [11u8, 12] {
        assert!(relayer.handle_signed_order(vote_of(&waiting, seed)));
    }
    let outcome = relayer.check_pending_transfers(1_000);
    assert_eq!(outcome.certificates.len(), 1);
    assert_eq!(outcome.certificates[0].value, ready);
    assert_eq!(outcome.certificates[0].check(&committee()), Ok(()));
    assert!(outcome.timed_out.is_empty());
    assert!(!relayer.pending_transfers.contains_key(&ready.transfer.interop_tx_id.0));
    assert!(relayer.pending_transfers.contains_key(&waiting.transfer.interop_tx_id.0));
    assert!(relayer.completed_transfers.contains(&ready.transfer.interop_tx_id.0));
    assert!(!relayer.completed_transfers.contains(&waiting.transfer.interop_tx_id.0));
    // A completed transfer that is seen again is left alone.
    assert_eq!(relayer.process_transfer(ready, 2_000), None);
    assert_eq!(relayer.pending_transfers.len(), 1);
    // Nothing more to do in the next round.
    let outcome = relayer.check_pending_transfers(2_000);
    assert!(outcome.certificates.is_empty());
    assert!(outcome.timed_out.is_empty());
}

#[test]
fn two_votes_time_out_after_three_hundred_seconds() {
    let mut relayer = Relayer::new(committee(), 1000);
    let order = order_of(0);
    let id = order.transfer.interop_tx_id;
    relayer.process_transfer(order, 5_000);
    relayer.handle_signed_order(vote_of(&order, 11));
    relayer.handle_signed_order(vote_of(&order, 12));
    assert_eq!(relayer.pending_transfers.get(&id.0).unwrap().weight, 2);
    assert_eq!(committee().quorum_threshold(), 3);
    let outcome = relayer.check_pending_transfers(305_000);
    assert!(outcome.certificates.is_empty());
    assert!(outcome.timed_out.is_empty());
    assert!(relayer.pending_transfers.contains_key(&id.0));
    let outcome = relayer.check_pending_transfers(305_001);
    assert!(outcome.certificates.is_empty());
    assert_eq!(outcome.timed_out, vec![id]);
    assert_eq!(relayer.pending_transfers.len(), 0);
    assert!(!relayer.completed_transfers.contains(&id.0));
    // After the timeout the transfer may enter again, without its old votes.
    assert_eq!(relayer.process_transfer(order, 400_000), Some(1));
    let pending = relayer.pending_transfers.get(&id.0).unwrap();
    assert_eq!(pending.weight, 0);
    assert_eq!(pending.start_time, 400_000);
}

#[test]
fn quorum_beats_the_timeout() {
    let mut relayer = Relayer::new(committee(), 1000);
    let order = order_of(0);
    relayer.process_transfer(order, 0);
    for seed in [11u8, 12, 13] {
        relayer.handle_signed_order(vote_of(&order, seed));
    }
    let outcome = relayer.check_pending_transfers(1_000_000);
    assert_eq!(outcome.certificates.len(), 1);
    assert!(outcome.timed_out.is_empty());
}

#[test]
fn relayer_and_authorities_end_to_end() {
    let order = order_of(0);
    let id = order.transfer.interop_tx_id.0;
    let mut all = authorities();
    let mut relayer = Relayer::new(committee(), 1000);
    assert!(relayer.poll_source_chain(0));
    let shard = relayer.process_transfer(order, 0).unwrap();
    assert_eq!(shard, 1);
    // The order goes to the owning shard of every authority.
    let request = serialize_transfer_order(&order);
    for (state, _) in all.iter_mut() {
        let reply = handle_datagram(state, shard, &request).unwrap();
        let signed = read_transfer_order_reply(&reply).unwrap();
        assert!(relayer.handle_signed_order(signed));
    }
    assert_eq!(relayer.pending_transfers.get(&id).unwrap().weight, 4);
    let outcome = relayer.check_pending_transfers(1_000);
    assert_eq!(outcome.certificates.len(), 1);
    // The certificate goes to every authority, which tells all its shards.
    let broadcast = serialize_certified_order(&outcome.certificates[0]);
    for (state, bus) in all.iter_mut() {
        assert!(handle_datagram(state, shard, &broadcast).is_none());
        let mut delivered = 0;
        while let Ok(update) = bus.try_recv() {
            state.handle_cross_shard_update(update).unwrap();
            delivered += 1;
        }
        assert_eq!(delivered, 16);
        for shard in state.shard_states.values() {
            assert!(shard.processed_transfers.contains(&id));
            assert_eq!(shard.pending_transfers.len(), 0);
        }
    }
    assert_eq!(relayer.pending_transfers.len(), 0);
}

#[test]
fn two_faulty_authorities_leave_the_transfer_without_certificate() {
    let order = order_of(0);
    let mut all = authorities();
    let mut relayer = Relayer::new(committee(), 1000);
    let shard = relayer.process_transfer(order, 0).unwrap();
    let request = serialize_transfer_order(&order);
    for (state, _) in all.iter_mut().take(2) {
        let reply = handle_datagram(state, shard, &request).unwrap();
        relayer.handle_signed_order(read_transfer_order_reply(&reply).unwrap());
    }
    let outcome = relayer.check_pending_transfers(300_000);
    assert!(outcome.certificates.is_empty() && outcome.timed_out.is_empty());
    let outcome = relayer.check_pending_transfers(300_001);
    assert!(outcome.certificates.is_empty());
    assert_eq!(outcome.timed_out, vec![order.transfer.interop_tx_id]);
    assert_eq!(relayer.pending_transfers.len(), 0);
}
