use fast_core::base_types::{
    BcsSignable, ChainId, CrossChainTransfer, InteropTxId, KeyPair, Pubkey, Signature,
};
use fast_core::error::FastPayError;
use fast_core::message::{
    CertifiedCrossChainTransferOrder, CrossChainTransferOrder, CrossShardCrossChainUpdate,
    SignedCrossChainTransferOrder,
};
use fast_core::serialization::{
    deserialize_message, serialize_certified_order, serialize_cross_shard_update,
    serialize_error, serialize_message, serialize_signed_order, serialize_transfer_order,
    BridgeMessage,
};

type TransferFields = (u16, u16, [u8; 32], [u8; 32], u64, [u8; 32], [u8; 32], [u8; 32], u64);
type OrderFields = (TransferFields, ed25519_dalek::Signature);
type SignedFields = (OrderFields, [u8; 32], ed25519_dalek::Signature);
type CertifiedFields = (OrderFields, Vec<([u8; 32], ed25519_dalek::Signature)>);
type UpdateFields = (u32, CertifiedFields);

/// The messages as serde sees them, written by hand as a derive would.
enum Wire {
    Order(OrderFields),
    Signed(SignedFields),
    Certified(CertifiedFields),
    Update(UpdateFields),
    Error(String),
}

impl serde::Serialize for Wire {
    fn serialize<S: serde::Serializer>(&self, serializer: S) -> Result<S::Ok, S::Error> {
        let name = "BridgeMessage";
        match self {
            Wire::Order(fields) => {
                serializer.serialize_newtype_variant(name, 0, "CrossChainTransferOrder", fields)
            }
            Wire::Signed(fields) => serializer.serialize_newtype_variant(
                name,
                1,
                "SignedCrossChainTransferOrder",
                fields,
            ),
            Wire::Certified(fields) => serializer.serialize_newtype_variant(
                name,
                2,
                "CertifiedCrossChainTransferOrder",
                fields,
            ),
            Wire::Update(fields) => {
                serializer.serialize_newtype_variant(name, 3, "CrossShardUpdate", fields)
            }
            Wire::Error(text) => serializer.serialize_newtype_variant(name, 4, "Error", text),
        }
    }
}

fn transfer_fields(transfer: &CrossChainTransfer) -> TransferFields {
    (
        transfer.source_chain.0,
        transfer.destination_chain.0,
        transfer.sender.0,
        transfer.recipient.0,
        transfer.amount,
        transfer.token_mint.0,
        transfer.interop_tx_id.0,
        transfer.escrow_account.0,
        transfer.nonce,
    )
}

fn order_fields(order: &CrossChainTransferOrder) -> OrderFields {
    (transfer_fields(&order.transfer), ed25519_dalek::Signature::from_bytes(&order.signature.0))
}

fn signed_fields(signed: &SignedCrossChainTransferOrder) -> SignedFields {
    (
        order_fields(&signed.value),
        signed.authority.0,
        ed25519_dalek::Signature::from_bytes(&signed.signature.0),
    )
}

fn certified_fields(certificate: &CertifiedCrossChainTransferOrder) -> CertifiedFields {
    (
        order_fields(&certificate.value),
        certificate
            .signatures
            .iter()
            .map(|(name, signature)| (name.0, ed25519_dalek::Signature::from_bytes(&signature.0)))
            .collect(),
    )
}

fn sample_order(nonce: u64) -> CrossChainTransferOrder {
    let sender = KeyPair::from([2u8; 32]);
    let recipient = Pubkey([3u8; 32]);
    let token_mint = Pubkey([4u8; 32]);
    let transfer = CrossChainTransfer {
        source_chain: ChainId(0x0102),
        destination_chain: ChainId(0xfffe),
        sender: sender.public(),
        recipient,
        amount: 0x0123456789abcdef,
        token_mint,
        interop_tx_id: InteropTxId::generate(
            ChainId(0x0102),
            ChainId(0xfffe),
            sender.public(),
            recipient,
            0x0123456789abcdef,
            token_mint,
            nonce,
        ),
        escrow_account: Pubkey([5u8; 32]),
        nonce,
    };
    CrossChainTransferOrder::new(transfer, &sender)
}

fn sample_signed() -> SignedCrossChainTransferOrder {
    let authority = KeyPair::from([11u8; 32]);
    SignedCrossChainTransferOrder::new(sample_order(7), authority.public(), &authority)
}

fn sample_certificate(count: u8) -> CertifiedCrossChainTransferOrder {
    let order = sample_order(9);
    let signatures = (0..count)
        .map(|index| {
            let authority = KeyPair::from([20 + index; 32]);
            (authority.public(), Signature::new(&order.transfer, &authority))
        })
        .collect();
    CertifiedCrossChainTransferOrder { value: order, signatures }
}

fn same_message(left: &BridgeMessage, right: &BridgeMessage) -> bool {
    match (left, right) {
        (BridgeMessage::CrossChainTransferOrder(a), BridgeMessage::CrossChainTransferOrder(b)) => {
            a.transfer == b.transfer && a.signature == b.signature
        }
        (
            BridgeMessage::SignedCrossChainTransferOrder(a),
            BridgeMessage::SignedCrossChainTransferOrder(b),
        ) => {
            a.value.transfer == b.value.transfer
                && a.value.signature == b.value.signature
                && a.authority == b.authority
                && a.signature == b.signature
        }
        (
            BridgeMessage::CertifiedCrossChainTransferOrder(a),
            BridgeMessage::CertifiedCrossChainTransferOrder(b),
        ) => {
            a.value.transfer == b.value.transfer
                && a.value.signature == b.value.signature
                && a.signatures == b.signatures
        }
        (BridgeMessage::CrossShardUpdate(a), BridgeMessage::CrossShardUpdate(b)) => {
            a.shard_id == b.shard_id
                && a.transfer_certificate.value.transfer == b.transfer_certificate.value.transfer
                && a.transfer_certificate.value.signature
                    == b.transfer_certificate.value.signature
                && a.transfer_certificate.signatures == b.transfer_certificate.signatures
        }
        (BridgeMessage::Error(a), BridgeMessage::Error(b)) => a == b,
        _ => false,
    }
}

fn all_messages() -> Vec<BridgeMessage> {
    vec![
        BridgeMessage::CrossChainTransferOrder(sample_order(0)),
        BridgeMessage::SignedCrossChainTransferOrder(sample_signed()),
        BridgeMessage::CertifiedCrossChainTransferOrder(sample_certificate(0)),
        BridgeMessage::CertifiedCrossChainTransferOrder(sample_certificate(3)),
        BridgeMessage::CrossShardUpdate(CrossShardCrossChainUpdate {
            shard_id: 0x0a0b0c0d,
            transfer_certificate: sample_certificate(4),
        }),
        BridgeMessage::Error(String::new()),
        BridgeMessage::Error(String::from("WrongShard")),
        BridgeMessage::Error(String::from("gr\u{fc}\u{df}e \u{4e16}\u{754c} \u{1f600}")),
    ]
}

#[test]
fn every_message_survives_the_round_trip() {
    for message in all_messages() {
        let bytes = serialize_message(&message);
        let decoded = deserialize_message(&bytes).unwrap();
        assert!(same_message(&message, &decoded));
        assert_eq!(serialize_message(&decoded), bytes);
    }
}

#[test]
fn datagrams_have_the_expected_sizes_and_tags() {
    let sizes = [248usize, 344, 256, 544, 644, 12, 22];
    for (message, size) in all_messages().iter().zip(sizes) {
        assert_eq!(serialize_message(message).len(), size);
    }
    let tags = [0u8, 1, 2, 2, 3, 4, 4, 4];
    for (message, tag) in all_messages().iter().zip(tags) {
        assert_eq!(&serialize_message(message)[0..4], &[tag, 0, 0, 0]);
    }
}

#[test]
fn error_message_is_tag_length_and_text() {
    let bytes = serialize_message(&BridgeMessage::Error(String::from("hi")));
    assert_eq!(bytes, vec![4, 0, 0, 0, 2, 0, 0, 0, 0, 0, 0, 0, b'h', b'i']);
    let bytes = serialize_message(&BridgeMessage::Error(String::from("\u{e9}")));
    assert_eq!(bytes, vec![4, 0, 0, 0, 2, 0, 0, 0, 0, 0, 0, 0, 0xc3, 0xa9]);
}

#[test]
fn order_message_is_tag_fields_and_signature() {
    let order = sample_order(0x0807060504030201);
    let bytes = serialize_transfer_order(&order);
    let mut expected: Vec<u8> = vec![0, 0, 0, 0, 0x02, 0x01, 0xfe, 0xff];
    expected.extend_from_slice(&order.transfer.sender.0);
    expected.extend_from_slice(&[3u8; 32]);
    expected.extend_from_slice(&[0xef, 0xcd, 0xab, 0x89, 0x67, 0x45, 0x23, 0x01]);
    expected.extend_from_slice(&[4u8; 32]);
    expected.extend_from_slice(&order.transfer.interop_tx_id.0);
    expected.extend_from_slice(&[5u8; 32]);
    expected.extend_from_slice(&[1, 2, 3, 4, 5, 6, 7, 8]);
    expected.extend_from_slice(&order.signature.0);
    assert_eq!(bytes, expected);
}

#[test]
fn update_message_carries_shard_count_and_votes() {
    let certificate = sample_certificate(2);
    let update = CrossShardCrossChainUpdate { shard_id: 5, transfer_certificate: certificate };
    let bytes = serialize_cross_shard_update(&update);
    assert_eq!(&bytes[0..8], &[3, 0, 0, 0, 5, 0, 0, 0]);
    assert_eq!(&bytes[252..260], &[2, 0, 0, 0, 0, 0, 0, 0]);
    assert_eq!(&bytes[260..292], &update.transfer_certificate.signatures[0].0 .0);
    assert_eq!(&bytes[292..356], &update.transfer_certificate.signatures[0].1 .0);
    assert_eq!(&bytes[356..388], &update.transfer_certificate.signatures[1].0 .0);
    assert_eq!(bytes.len(), 452);
}

#[test]
fn helpers_write_the_message_of_their_kind() {
    let order = sample_order(1);
    assert_eq!(
        serialize_transfer_order(&order),
        serialize_message(&BridgeMessage::CrossChainTransferOrder(order))
    );
    let signed = sample_signed();
    assert_eq!(
        serialize_signed_order(&signed),
        serialize_message(&BridgeMessage::SignedCrossChainTransferOrder(signed))
    );
    let certificate = sample_certificate(3);
    assert_eq!(
        serialize_certified_order(&certificate),
        serialize_message(&BridgeMessage::CertifiedCrossChainTransferOrder(certificate.clone()))
    );
    let update = CrossShardCrossChainUpdate { shard_id: 2, transfer_certificate: certificate };
    assert_eq!(
        serialize_cross_shard_update(&update),
        serialize_message(&BridgeMessage::CrossShardUpdate(update.clone()))
    );
}

#[test]
fn datagrams_agree_with_bincode() {
    let order = sample_order(0);
    assert_eq!(
        serialize_transfer_order(&order),
        bincode::serialize(&Wire::Order(order_fields(&order))).unwrap()
    );
    let signed = sample_signed();
    assert_eq!(
        serialize_signed_order(&signed),
        bincode::serialize(&Wire::Signed(signed_fields(&signed))).unwrap()
    );
    for count in [0u8, 1, 4] {
        let certificate = sample_certificate(count);
        assert_eq!(
            serialize_certified_order(&certificate),
            bincode::serialize(&Wire::Certified(certified_fields(&certificate))).unwrap()
        );
        let update = CrossShardCrossChainUpdate {
            shard_id: 0xfedcba98,
            transfer_certificate: certificate.clone(),
        };
        assert_eq!(
            serialize_cross_shard_update(&update),
            bincode::serialize(&Wire::Update((0xfedcba98, certified_fields(&certificate))))
                .unwrap()
        );
    }
    for text in ["", "WrongShard", "gr\u{fc}\u{df}e"] {
        assert_eq!(
            serialize_message(&BridgeMessage::Error(String::from(text))),
            bincode::serialize(&Wire::Error(String::from(text))).unwrap()
        );
    }
}

#[test]
fn bincode_reads_what_was_written() {
    let certificate = sample_certificate(3);
    let bytes = serialize_certified_order(&certificate);
    let fields: CertifiedFields = bincode::deserialize(&bytes[4..]).unwrap();
    assert_eq!(fields, certified_fields(&certificate));
    let written = bincode::serialize(&Wire::Signed(signed_fields(&sample_signed()))).unwrap();
    match deserialize_message(&written).unwrap() {
        BridgeMessage::SignedCrossChainTransferOrder(signed) => {
            assert_eq!(signed_fields(&signed), signed_fields(&sample_signed()));
        }
        _ => panic!("another message"),
    }
}

#[test]
fn signed_fields_agree_with_bcs() {
    let order = sample_order(3);
    let mut fields = Vec::new();
    order.transfer.serialize_into(&mut fields);
    assert_eq!(fields, bcs::to_bytes(&transfer_fields(&order.transfer)).unwrap());
}

#[test]
fn what_is_no_message_is_refused() {
    let refused = |bytes: &[u8]| {
        matches!(deserialize_message(bytes), Err(FastPayError::InvalidDecoding))
    };
    assert!(refused(&[]));
    assert!(refused(&[0]));
    assert!(refused(&[0, 0, 0]));
    assert!(refused(&[0, 0, 0, 0]));
    // A variant that does not exist.
    assert!(refused(&[5, 0, 0, 0]));
    assert!(refused(&[4, 1, 0, 0, 0, 0, 0, 0, 0, 0, 0, 0]));
    assert!(refused(&[4, 0, 0, 1, 0, 0, 0, 0, 0, 0, 0, 0]));
    assert!(refused(&[0xff; 300]));
    for message in all_messages() {
        let bytes = serialize_message(&message);
        // Cut short.
        assert!(refused(&bytes[..bytes.len() - 1]));
        assert!(refused(&bytes[..4]));
        // Bytes after the end.
        let mut longer = bytes.clone();
        longer.push(0);
        assert!(refused(&longer));
        // Another variant with the same body.
        let mut other = bytes.clone();
        other[0] = 9;
        assert!(refused(&other));
    }
}

#[test]
fn certificate_with_a_wrong_count_is_refused() {
    let bytes = serialize_certified_order(&sample_certificate(2));
    let mut more = bytes.clone();
    more[248] = 3;
    assert!(deserialize_message(&more).is_err());
    let mut fewer = bytes.clone();
    fewer[248] = 1;
    assert!(deserialize_message(&fewer).is_err());
    let mut huge = bytes.clone();
    for index in 248..256 {
        huge[index] = 0xff;
    }
    assert!(deserialize_message(&huge).is_err());
    assert!(deserialize_message(&bytes).is_ok());
}

#[test]
fn error_text_must_be_utf8_of_the_given_length() {
    assert!(deserialize_message(&[4, 0, 0, 0, 1, 0, 0, 0, 0, 0, 0, 0, b'a']).is_ok());
    assert!(deserialize_message(&[4, 0, 0, 0, 2, 0, 0, 0, 0, 0, 0, 0, b'a']).is_err());
    assert!(deserialize_message(&[4, 0, 0, 0, 0, 0, 0, 0, 0, 0, 0, 0, b'a']).is_err());
    assert!(deserialize_message(&[4, 0, 0, 0, 1, 0, 0, 0, 0, 0, 0, 0, 0xff]).is_err());
    assert!(deserialize_message(&[4, 0, 0, 0, 1, 0, 0, 0, 0, 0, 0, 0, 0xc3]).is_err());
    assert!(deserialize_message(&[4, 0, 0, 0, 2, 0, 0, 0, 0, 0, 0, 0, 0xc3, 0xa9]).is_ok());
}

#[test]
fn refusal_is_sent_as_its_text() {
    let bytes = serialize_error(&FastPayError::WrongShard);
    assert_eq!(bytes, serialize_message(&BridgeMessage::Error(String::from("WrongShard"))));
    let error = FastPayError::InvalidTransferAmount { error: String::from("1000") };
    match deserialize_message(&serialize_error(&error)).unwrap() {
        BridgeMessage::Error(text) => {
            assert_eq!(text, "InvalidTransferAmount { error: \"1000\" }");
            assert_eq!(text, format!("{:?}", error));
        }
        _ => panic!("another message"),
    }
}
