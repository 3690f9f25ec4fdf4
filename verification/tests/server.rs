use fast_core::authority::{BridgeAuthorityState, DummyEscrowVerifier};
use fast_core::base_types::{ChainId, CrossChainTransfer, InteropTxId, KeyPair, Pubkey};
use fast_core::committee::Committee;
use fast_core::error::FastPayError;
use fast_core::message::{
    CertifiedCrossChainTransferOrder, CrossChainTransferOrder, CrossShardCrossChainUpdate,
    SignedCrossChainTransferOrder,
};
use fast_core::network::read_transfer_order_reply;
use fast_core::serialization::{
    deserialize_message, serialize_certified_order, serialize_cross_shard_update,
    serialize_error, serialize_message, serialize_signed_order, serialize_transfer_order,
    BridgeMessage,
};
use fast_core::base_types::Signature;
use fast_core::server::handle_datagram;

fn committee() -> Committee {
    Committee::new(
        [11u8, 12, 13, 14].iter().map(|seed| (KeyPair::from([*seed; 32]).public(), 1)).collect(),
    )
}

fn order_of(nonce: u64) -> CrossChainTransferOrder {
    let sender = KeyPair::from([2u8; 32]);
    let recipient = Pubkey([3u8; 32]);
    let token_mint = Pubkey([4u8; 32]);
    let transfer = CrossChainTransfer {
        source_chain: ChainId(1),
        destination_chain: ChainId(2),
        sender: sender.public(),
        recipient,
        amount: 1000,
        token_mint,
        interop_tx_id: InteropTxId::generate(
            ChainId(1),
            ChainId(2),
            sender.public(),
            recipient,
            1000,
            token_mint,
            nonce,
        ),
        escrow_account: Pubkey([5u8; 32]),
        nonce,
    };
    CrossChainTransferOrder::new(transfer, &sender)
}

fn certificate_of(order: &CrossChainTransferOrder, seeds: &[u8]) -> CertifiedCrossChainTransferOrder {
    CertifiedCrossChainTransferOrder {
        value: *order,
        signatures: seeds
            .iter()
            .map(|seed| {
                let key = KeyPair::from([*seed; 32]);
                (key.public(), Signature::new(&order.transfer, &key))
            })
            .collect(),
    }
}

fn text_of(reply: Option<Vec<u8>>) -> String {
    match deserialize_message(&reply.unwrap()).unwrap() {
        BridgeMessage::Error(text) => text,
        _ => panic!("no refusal"),
    }
}

#[test]
fn order_is_answered_with_a_vote() {
    let secret = KeyPair::from([11u8; 32]);
    let (mut state, _bus) =
        BridgeAuthorityState::new(secret.public(), secret, committee(), 16, DummyEscrowVerifier);
    let order = order_of(0);
    let reply = handle_datagram(&mut state, 1, &serialize_transfer_order(&order)).unwrap();
    let key = KeyPair::from([11u8; 32]);
    let expected = SignedCrossChainTransferOrder::new(order, key.public(), &key);
    assert_eq!(reply, serialize_signed_order(&expected));
    let signed = read_transfer_order_reply(&reply).unwrap();
    assert_eq!(signed.signature, expected.signature);
    assert!(state.shard_states[&1].pending_transfers.contains_key(&order.transfer.interop_tx_id.0));
}

#[test]
fn refused_order_is_answered_with_the_refusal() {
    let secret = KeyPair::from([11u8; 32]);
    let (mut state, _bus) =
        BridgeAuthorityState::new(secret.public(), secret, committee(), 16, DummyEscrowVerifier);
    let order = order_of(0);
    let reply = handle_datagram(&mut state, 2, &serialize_transfer_order(&order));
    assert_eq!(reply, Some(serialize_error(&FastPayError::WrongShard)));
    assert_eq!(
        read_transfer_order_reply(&reply.unwrap()),
        Err(FastPayError::CommunicationError)
    );
    assert_eq!(state.shard_states[&2].pending_transfers.len(), 0);
    assert_eq!(state.shard_states[&1].pending_transfers.len(), 0);
}

#[test]
fn update_and_certificate_are_answered_only_when_refused() {
    let secret = KeyPair::from([11u8; 32]);
    let (mut state, mut bus) =
        BridgeAuthorityState::new(secret.public(), secret, committee(), 16, DummyEscrowVerifier);
    let order = order_of(0);
    let id = order.transfer.interop_tx_id.0;
    let good = certificate_of(&order, &[11, 12, 13]);
    let short = certificate_of(&order, &[11, 12]);
    let update = CrossShardCrossChainUpdate { shard_id: 3, transfer_certificate: good.clone() };
    assert_eq!(handle_datagram(&mut state, 0, &serialize_cross_shard_update(&update)), None);
    assert!(state.shard_states[&3].processed_transfers.contains(&id));
    let update = CrossShardCrossChainUpdate { shard_id: 3, transfer_certificate: short.clone() };
    let reply = handle_datagram(&mut state, 0, &serialize_cross_shard_update(&update));
    assert_eq!(text_of(reply), "InvalidCrossShardUpdate");
    let update = CrossShardCrossChainUpdate { shard_id: 16, transfer_certificate: good.clone() };
    let reply = handle_datagram(&mut state, 0, &serialize_cross_shard_update(&update));
    assert_eq!(text_of(reply), "ShardStateNotFound");
    assert_eq!(handle_datagram(&mut state, 0, &serialize_certified_order(&good)), None);
    let mut delivered = 0;
    while bus.try_recv().is_ok() {
        delivered += 1;
    }
    assert_eq!(delivered, 16);
    let reply = handle_datagram(&mut state, 0, &serialize_certified_order(&short));
    assert_eq!(text_of(reply), "CertificateRequiresQuorum");
    assert!(bus.try_recv().is_err());
}

#[test]
fn other_datagrams_are_dropped() {
    let secret = KeyPair::from([11u8; 32]);
    let (mut state, _bus) =
        BridgeAuthorityState::new(secret.public(), secret, committee(), 16, DummyEscrowVerifier);
    assert_eq!(handle_datagram(&mut state, 0, &[]), None);
    assert_eq!(handle_datagram(&mut state, 0, &[1, 2, 3, 4, 5]), None);
    let text = serialize_message(&BridgeMessage::Error(String::from("hello")));
    assert_eq!(handle_datagram(&mut state, 0, &text), None);
    let key = KeyPair::from([12u8; 32]);
    let vote = SignedCrossChainTransferOrder::new(order_of(0), key.public(), &key);
    assert_eq!(handle_datagram(&mut state, 1, &serialize_signed_order(&vote)), None);
    let mut cut = serialize_transfer_order(&order_of(0));
    cut.pop();
    assert_eq!(handle_datagram(&mut state, 1, &cut), None);
    for shard in state.shard_states.values() {
        assert_eq!(shard.pending_transfers.len(), 0);
        assert_eq!(shard.processed_transfers.len(), 0);
    }
}

#[test]
fn reply_that_is_no_vote_is_an_error() {
    assert_eq!(read_transfer_order_reply(&[]), Err(FastPayError::InvalidDecoding));
    assert_eq!(read_transfer_order_reply(&[7, 7]), Err(FastPayError::InvalidDecoding));
    let order = serialize_transfer_order(&order_of(0));
    assert_eq!(read_transfer_order_reply(&order), Err(FastPayError::UnexpectedMessage));
    let certificate = serialize_certified_order(&certificate_of(&order_of(0), &[11, 12, 13]));
    assert_eq!(read_transfer_order_reply(&certificate), Err(FastPayError::UnexpectedMessage));
    let refusal = serialize_error(&FastPayError::CertificateAlreadyExists);
    assert_eq!(read_transfer_order_reply(&refusal), Err(FastPayError::CommunicationError));
}

#[test]
fn certificate_for_an_authority_without_shards_is_not_answered() {
    let secret = KeyPair::from([11u8; 32]);
    let (mut state, bus) =
        BridgeAuthorityState::new(secret.public(), secret, committee(), 0, DummyEscrowVerifier);
    drop(bus);
    let good = certificate_of(&order_of(0), &[11, 12, 13]);
    assert_eq!(handle_datagram(&mut state, 0, &serialize_certified_order(&good)), None);
    let short = certificate_of(&order_of(0), &[11, 12]);
    let reply = handle_datagram(&mut state, 0, &serialize_certified_order(&short));
    assert_eq!(text_of(reply), "CertificateRequiresQuorum");
}
