use crate::arrays::{
    bytes32, bytes64, lemma_bytes32, lemma_bytes32_of, lemma_bytes64, lemma_bytes64_of,
    read_array32, read_array64,
};
use crate::base_types::{
    AuthorityName, ChainId, CrossChainTransfer, InteropTxId, Pubkey, Signature,
};
use crate::error::{description, FastPayError, FastPayErrorView};
use crate::message::{
    CertificateView, CertifiedCrossChainTransferOrder, CrossChainTransferOrder,
    CrossShardCrossChainUpdate, SignedCrossChainTransferOrder, UpdateView,
};
use vstd::bytes::{
    lemma_auto_spec_u16_to_from_le_bytes, lemma_auto_spec_u32_to_from_le_bytes,
    lemma_auto_spec_u64_to_from_le_bytes, spec_u16_from_le_bytes, spec_u16_to_le_bytes,
    spec_u32_from_le_bytes, spec_u32_to_le_bytes, spec_u64_from_le_bytes, spec_u64_to_le_bytes,
    u16_from_le_bytes, u32_from_le_bytes, u32_to_le_bytes, u64_from_le_bytes, u64_to_le_bytes,
};
use vstd::prelude::*;
use vstd::slice::{slice_subrange, slice_to_vec};
use vstd::utf8::{decode_utf8, encode_utf8, valid_utf8};

verus! {

/// The transfer that 180 bytes encode.
pub open spec fn decode_transfer(bytes: Seq<u8>) -> CrossChainTransfer {
    CrossChainTransfer {
        source_chain: ChainId(spec_u16_from_le_bytes(bytes.subrange(0, 2))),
        destination_chain: ChainId(spec_u16_from_le_bytes(bytes.subrange(2, 4))),
        sender: Pubkey(bytes32(bytes.subrange(4, 36))),
        recipient: Pubkey(bytes32(bytes.subrange(36, 68))),
        amount: spec_u64_from_le_bytes(bytes.subrange(68, 76)),
        token_mint: Pubkey(bytes32(bytes.subrange(76, 108))),
        interop_tx_id: InteropTxId(bytes32(bytes.subrange(108, 140))),
        escrow_account: Pubkey(bytes32(bytes.subrange(140, 172))),
        nonce: spec_u64_from_le_bytes(bytes.subrange(172, 180)),
    }
}

/// The encoding of a transfer has 180 bytes and gives the transfer back.
pub proof fn lemma_transfer_round_trip(transfer: CrossChainTransfer)
    ensures
        transfer.encoding().len() == 180,
        decode_transfer(transfer.encoding()) == transfer,
{
    lemma_auto_spec_u16_to_from_le_bytes();
    lemma_auto_spec_u64_to_from_le_bytes();
    let bytes = transfer.encoding();
    assert(bytes.subrange(0, 2) =~= spec_u16_to_le_bytes(transfer.source_chain.0));
    assert(bytes.subrange(2, 4) =~= spec_u16_to_le_bytes(transfer.destination_chain.0));
    assert(bytes.subrange(4, 36) =~= transfer.sender.0@);
    assert(bytes.subrange(36, 68) =~= transfer.recipient.0@);
    assert(bytes.subrange(68, 76) =~= spec_u64_to_le_bytes(transfer.amount));
    assert(bytes.subrange(76, 108) =~= transfer.token_mint.0@);
    assert(bytes.subrange(108, 140) =~= transfer.interop_tx_id.0@);
    assert(bytes.subrange(140, 172) =~= transfer.escrow_account.0@);
    assert(bytes.subrange(172, 180) =~= spec_u64_to_le_bytes(transfer.nonce));
    lemma_bytes32_of(transfer.sender.0);
    lemma_bytes32_of(transfer.recipient.0);
    lemma_bytes32_of(transfer.token_mint.0);
    lemma_bytes32_of(transfer.interop_tx_id.0);
    lemma_bytes32_of(transfer.escrow_account.0);
}

/// The transfer that 180 bytes encode is encoded by them.
pub proof fn lemma_transfer_bytes_round_trip(bytes: Seq<u8>)
    requires
        bytes.len() == 180,
    ensures
        decode_transfer(bytes).encoding() == bytes,
{
    lemma_auto_spec_u16_to_from_le_bytes();
    lemma_auto_spec_u64_to_from_le_bytes();
    lemma_bytes32(bytes.subrange(4, 36));
    lemma_bytes32(bytes.subrange(36, 68));
    lemma_bytes32(bytes.subrange(76, 108));
    lemma_bytes32(bytes.subrange(108, 140));
    lemma_bytes32(bytes.subrange(140, 172));
    let transfer = decode_transfer(bytes);
    assert(spec_u16_to_le_bytes(transfer.source_chain.0) == bytes.subrange(0, 2));
    assert(spec_u16_to_le_bytes(transfer.destination_chain.0) == bytes.subrange(2, 4));
    assert(spec_u64_to_le_bytes(transfer.amount) == bytes.subrange(68, 76));
    assert(spec_u64_to_le_bytes(transfer.nonce) == bytes.subrange(172, 180));
    assert(transfer.encoding() =~= bytes);
}

/// The encoding of an order: its transfer, then the sender's signature; 244 bytes.
pub open spec fn encode_order(order: CrossChainTransferOrder) -> Seq<u8> {
    order.transfer.encoding() + order.signature.0@
}

/// The order that 244 bytes encode.
pub open spec fn decode_order(bytes: Seq<u8>) -> CrossChainTransferOrder {
    CrossChainTransferOrder {
        transfer: decode_transfer(bytes.subrange(0, 180)),
        signature: Signature(bytes64(bytes.subrange(180, 244))),
    }
}

/// The encoding of an order has 244 bytes and gives the order back.
pub proof fn lemma_order_round_trip(order: CrossChainTransferOrder)
    ensures
        encode_order(order).len() == 244,
        decode_order(encode_order(order)) == order,
{
    lemma_transfer_round_trip(order.transfer);
    let bytes = encode_order(order);
    assert(bytes.subrange(0, 180) =~= order.transfer.encoding());
    assert(bytes.subrange(180, 244) =~= order.signature.0@);
    lemma_bytes64_of(order.signature.0);
}

/// The order that 244 bytes encode is encoded by them.
pub proof fn lemma_order_bytes_round_trip(bytes: Seq<u8>)
    requires
        bytes.len() == 244,
    ensures
        encode_order(decode_order(bytes)) == bytes,
{
    lemma_transfer_bytes_round_trip(bytes.subrange(0, 180));
    lemma_bytes64(bytes.subrange(180, 244));
    assert(encode_order(decode_order(bytes)) =~= bytes);
}

/// The encoding of a vote: the order, the authority, its signature; 340 bytes.
pub open spec fn encode_signed(signed: SignedCrossChainTransferOrder) -> Seq<u8> {
    encode_order(signed.value) + signed.authority.0@ + signed.signature.0@
}

/// The vote that 340 bytes encode.
pub open spec fn decode_signed(bytes: Seq<u8>) -> SignedCrossChainTransferOrder {
    SignedCrossChainTransferOrder {
        value: decode_order(bytes.subrange(0, 244)),
        authority: Pubkey(bytes32(bytes.subrange(244, 276))),
        signature: Signature(bytes64(bytes.subrange(276, 340))),
    }
}

/// The encoding of a vote has 340 bytes and gives the vote back.
pub proof fn lemma_signed_round_trip(signed: SignedCrossChainTransferOrder)
    ensures
        encode_signed(signed).len() == 340,
        decode_signed(encode_signed(signed)) == signed,
{
    lemma_order_round_trip(signed.value);
    let bytes = encode_signed(signed);
    assert(bytes.subrange(0, 244) =~= encode_order(signed.value));
    assert(bytes.subrange(244, 276) =~= signed.authority.0@);
    assert(bytes.subrange(276, 340) =~= signed.signature.0@);
    lemma_bytes32_of(signed.authority.0);
    lemma_bytes64_of(signed.signature.0);
}

/// The vote that 340 bytes encode is encoded by them.
pub proof fn lemma_signed_bytes_round_trip(bytes: Seq<u8>)
    requires
        bytes.len() == 340,
    ensures
        encode_signed(decode_signed(bytes)) == bytes,
{
    lemma_order_bytes_round_trip(bytes.subrange(0, 244));
    lemma_bytes32(bytes.subrange(244, 276));
    lemma_bytes64(bytes.subrange(276, 340));
    assert(encode_signed(decode_signed(bytes)) =~= bytes);
}

/// The encoding of one signature of a certificate: the authority, then its
/// signature; 96 bytes.
pub open spec fn encode_vote(vote: (AuthorityName, Signature)) -> Seq<u8> {
    vote.0.0@ + vote.1.0@
}

/// The signature of a certificate that 96 bytes encode.
pub open spec fn decode_vote(bytes: Seq<u8>) -> (AuthorityName, Signature) {
    (Pubkey(bytes32(bytes.subrange(0, 32))), Signature(bytes64(bytes.subrange(32, 96))))
}

/// The encodings of the signatures of a certificate, one after the other.
pub open spec fn encode_votes(votes: Seq<(AuthorityName, Signature)>) -> Seq<u8>
    decreases votes.len(),
{
    if votes.len() == 0 {
        Seq::empty()
    } else {
        encode_votes(votes.drop_last()) + encode_vote(votes.last())
    }
}

/// The `count` signatures of a certificate that `96 * count` bytes encode.
pub open spec fn decode_votes(bytes: Seq<u8>, count: nat) -> Seq<(AuthorityName, Signature)> {
    Seq::new(count, |i: int| decode_vote(bytes.subrange(96 * i, 96 * i + 96)))
}

/// The encoding of one signature has 96 bytes and gives the signature back.
pub proof fn lemma_vote_round_trip(vote: (AuthorityName, Signature))
    ensures
        encode_vote(vote).len() == 96,
        decode_vote(encode_vote(vote)) == vote,
{
    let bytes = encode_vote(vote);
    assert(bytes.subrange(0, 32) =~= vote.0.0@);
    assert(bytes.subrange(32, 96) =~= vote.1.0@);
    lemma_bytes32_of(vote.0.0);
    lemma_bytes64_of(vote.1.0);
}

/// The signature that 96 bytes encode is encoded by them.
pub proof fn lemma_vote_bytes_round_trip(bytes: Seq<u8>)
    requires
        bytes.len() == 96,
    ensures
        encode_vote(decode_vote(bytes)) == bytes,
{
    lemma_bytes32(bytes.subrange(0, 32));
    lemma_bytes64(bytes.subrange(32, 96));
    assert(encode_vote(decode_vote(bytes)) =~= bytes);
}

/// The encoding of a list of signatures has 96 bytes for each, those of the
/// signature `i` from byte `96 * i` on.
pub proof fn lemma_votes_layout(votes: Seq<(AuthorityName, Signature)>)
    ensures
        encode_votes(votes).len() == 96 * votes.len(),
        forall|i: int|
            0 <= i < votes.len() ==> #[trigger] encode_votes(votes).subrange(96 * i, 96 * i + 96)
                == encode_vote(votes[i]),
    decreases votes.len(),
{
    if votes.len() > 0 {
        let earlier = votes.drop_last();
        lemma_votes_layout(earlier);
        lemma_vote_round_trip(votes.last());
        let bytes = encode_votes(votes);
        assert forall|i: int| 0 <= i < votes.len() implies #[trigger] bytes.subrange(
            96 * i,
            96 * i + 96,
        ) == encode_vote(votes[i]) by {
            if i < earlier.len() {
                assert(bytes.subrange(96 * i, 96 * i + 96) =~= encode_votes(earlier).subrange(
                    96 * i,
                    96 * i + 96,
                ));
                assert(earlier[i] == votes[i]);
            } else {
                assert(bytes.subrange(96 * i, 96 * i + 96) =~= encode_vote(votes.last()));
            }
        }
    }
}

/// The encoding of a list of signatures gives the list back.
pub proof fn lemma_votes_round_trip(votes: Seq<(AuthorityName, Signature)>)
    ensures
        encode_votes(votes).len() == 96 * votes.len(),
        decode_votes(encode_votes(votes), votes.len()) == votes,
{
    lemma_votes_layout(votes);
    let decoded = decode_votes(encode_votes(votes), votes.len());
    assert forall|i: int| 0 <= i < votes.len() implies decoded[i] == votes[i] by {
        assert(encode_votes(votes).subrange(96 * i, 96 * i + 96) == encode_vote(votes[i]));
        lemma_vote_round_trip(votes[i]);
    }
    assert(decoded =~= votes);
}

/// The signatures that `96 * count` bytes encode are encoded by them.
pub proof fn lemma_votes_bytes_round_trip(bytes: Seq<u8>, count: nat)
    requires
        bytes.len() == 96 * count,
    ensures
        encode_votes(decode_votes(bytes, count)) == bytes,
    decreases count,
{
    if count == 0 {
        assert(encode_votes(decode_votes(bytes, count)) =~= bytes);
    } else {
        let votes = decode_votes(bytes, count);
        let shorter = bytes.subrange(0, 96 * (count - 1));
        lemma_votes_bytes_round_trip(shorter, (count - 1) as nat);
        assert forall|i: int| 0 <= i < count - 1 implies votes.drop_last()[i] == decode_votes(
            shorter,
            (count - 1) as nat,
        )[i] by {
            assert(shorter.subrange(96 * i, 96 * i + 96) =~= bytes.subrange(96 * i, 96 * i + 96));
        }
        assert(votes.drop_last() =~= decode_votes(shorter, (count - 1) as nat));
        let last = bytes.subrange(96 * (count - 1), 96 * (count - 1) + 96);
        lemma_vote_bytes_round_trip(last);
        assert(votes.last() == decode_vote(last));
        assert(encode_votes(votes) =~= bytes);
    }
}

/// The encoding of a certificate: its order, the number of its signatures as
/// 8 bytes in little-endian, then the signatures.
pub open spec fn encode_certificate(certificate: CertificateView) -> Seq<u8> {
    encode_order(certificate.value) + spec_u64_to_le_bytes(certificate.signatures.len() as u64)
        + encode_votes(certificate.signatures)
}

/// The certificate that `bytes` encode, if they encode one.
pub open spec fn decode_certificate(bytes: Seq<u8>) -> Option<CertificateView> {
    if bytes.len() >= 252 && bytes.len() - 252 == 96 * spec_u64_from_le_bytes(
        bytes.subrange(244, 252),
    ) {
        Some(
            CertificateView {
                value: decode_order(bytes.subrange(0, 244)),
                signatures: decode_votes(
                    bytes.subrange(252, bytes.len() as int),
                    spec_u64_from_le_bytes(bytes.subrange(244, 252)) as nat,
                ),
            },
        )
    } else {
        None
    }
}

/// The encoding of a certificate gives the certificate back.
pub proof fn lemma_certificate_round_trip(certificate: CertificateView)
    requires
        certificate.signatures.len() <= u64::MAX,
    ensures
        decode_certificate(encode_certificate(certificate)) == Some(certificate),
        encode_certificate(certificate).len() == 252 + 96 * certificate.signatures.len(),
{
    lemma_auto_spec_u64_to_from_le_bytes();
    lemma_order_round_trip(certificate.value);
    lemma_votes_round_trip(certificate.signatures);
    let bytes = encode_certificate(certificate);
    let count = certificate.signatures.len() as u64;
    assert(bytes.subrange(0, 244) =~= encode_order(certificate.value));
    assert(bytes.subrange(244, 252) =~= spec_u64_to_le_bytes(count));
    assert(bytes.subrange(252, bytes.len() as int) =~= encode_votes(certificate.signatures));
    assert(decode_certificate(bytes)->0.signatures =~= certificate.signatures);
}

/// The certificate that bytes encode is encoded by them.
pub proof fn lemma_certificate_bytes_round_trip(bytes: Seq<u8>)
    requires
        decode_certificate(bytes) is Some,
    ensures
        encode_certificate(decode_certificate(bytes)->0) == bytes,
        decode_certificate(bytes)->0.signatures.len() <= u64::MAX,
{
    lemma_auto_spec_u64_to_from_le_bytes();
    let count = spec_u64_from_le_bytes(bytes.subrange(244, 252));
    lemma_order_bytes_round_trip(bytes.subrange(0, 244));
    lemma_votes_bytes_round_trip(bytes.subrange(252, bytes.len() as int), count as nat);
    assert(spec_u64_to_le_bytes(count) == bytes.subrange(244, 252));
    assert(encode_certificate(decode_certificate(bytes)->0) =~= bytes);
}

/// The mathematical value of a message.
pub ghost enum BridgeMessageView {
    CrossChainTransferOrder(CrossChainTransferOrder),
    SignedCrossChainTransferOrder(SignedCrossChainTransferOrder),
    CertifiedCrossChainTransferOrder(CertificateView),
    CrossShardUpdate(UpdateView),
    Error(Seq<char>),
}

/// The messages that go over the wire.
pub enum BridgeMessage {
    CrossChainTransferOrder(CrossChainTransferOrder),
    SignedCrossChainTransferOrder(SignedCrossChainTransferOrder),
    CertifiedCrossChainTransferOrder(CertifiedCrossChainTransferOrder),
    CrossShardUpdate(CrossShardCrossChainUpdate),
    Error(String),
}

impl View for BridgeMessage {
    type V = BridgeMessageView;

    open spec fn view(&self) -> BridgeMessageView {
        match self {
            BridgeMessage::CrossChainTransferOrder(order) => {
                BridgeMessageView::CrossChainTransferOrder(*order)
            },
            BridgeMessage::SignedCrossChainTransferOrder(signed) => {
                BridgeMessageView::SignedCrossChainTransferOrder(*signed)
            },
            BridgeMessage::CertifiedCrossChainTransferOrder(certificate) => {
                BridgeMessageView::CertifiedCrossChainTransferOrder(certificate@)
            },
            BridgeMessage::CrossShardUpdate(update) => BridgeMessageView::CrossShardUpdate(update@),
            BridgeMessage::Error(text) => BridgeMessageView::Error(text@),
        }
    }
}

/// Whether the lengths in `message` can be written in 8 bytes, as those of
/// every message in memory can.
pub open spec fn encodable(message: BridgeMessageView) -> bool {
    match message {
        BridgeMessageView::CertifiedCrossChainTransferOrder(certificate) => {
            certificate.signatures.len() <= u64::MAX
        },
        BridgeMessageView::CrossShardUpdate(update) => {
            update.transfer_certificate.signatures.len() <= u64::MAX
        },
        BridgeMessageView::Error(text) => encode_utf8(text).len() <= u64::MAX,
        _ => true,
    }
}

/// The datagram that carries `message`: the number of its variant as 4 bytes
/// in little-endian, then its fields in declared order, integers of fixed
/// width in little-endian, lists and texts behind their length in 8 bytes.
pub open spec fn encode_message(message: BridgeMessageView) -> Seq<u8> {
    match message {
        BridgeMessageView::CrossChainTransferOrder(order) => spec_u32_to_le_bytes(0)
            + encode_order(order),
        BridgeMessageView::SignedCrossChainTransferOrder(signed) => spec_u32_to_le_bytes(1)
            + encode_signed(signed),
        BridgeMessageView::CertifiedCrossChainTransferOrder(certificate) => spec_u32_to_le_bytes(2)
            + encode_certificate(certificate),
        BridgeMessageView::CrossShardUpdate(update) => spec_u32_to_le_bytes(3)
            + spec_u32_to_le_bytes(update.shard_id) + encode_certificate(
            update.transfer_certificate,
        ),
        BridgeMessageView::Error(text) => spec_u32_to_le_bytes(4) + spec_u64_to_le_bytes(
            encode_utf8(text).len() as u64,
        ) + encode_utf8(text),
    }
}

/// The message that the datagram `bytes` carries; `None` where it is not the
/// encoding of any message.
pub open spec fn decode_message(bytes: Seq<u8>) -> Option<BridgeMessageView> {
    if bytes.len() < 4 {
        None
    } else {
        let tag = spec_u32_from_le_bytes(bytes.subrange(0, 4));
        let body = bytes.subrange(4, bytes.len() as int);
        if tag == 0 {
            if body.len() == 244 {
                Some(BridgeMessageView::CrossChainTransferOrder(decode_order(body)))
            } else {
                None
            }
        } else if tag == 1 {
            if body.len() == 340 {
                Some(BridgeMessageView::SignedCrossChainTransferOrder(decode_signed(body)))
            } else {
                None
            }
        } else if tag == 2 {
            match decode_certificate(body) {
                Some(certificate) => Some(
                    BridgeMessageView::CertifiedCrossChainTransferOrder(certificate),
                ),
                None => None,
            }
        } else if tag == 3 {
            if body.len() < 4 {
                None
            } else {
                match decode_certificate(body.subrange(4, body.len() as int)) {
                    Some(certificate) => Some(
                        BridgeMessageView::CrossShardUpdate(
                            UpdateView {
                                shard_id: spec_u32_from_le_bytes(body.subrange(0, 4)),
                                transfer_certificate: certificate,
                            },
                        ),
                    ),
                    None => None,
                }
            }
        } else if tag == 4 {
            if body.len() >= 8 && body.len() - 8 == spec_u64_from_le_bytes(body.subrange(0, 8))
                && valid_utf8(body.subrange(8, body.len() as int)) {
                Some(BridgeMessageView::Error(decode_utf8(body.subrange(8, body.len() as int))))
            } else {
                None
            }
        } else {
            None
        }
    }
}

/// Decoding the encoding of a message gives the message back.
pub proof fn law_decode_encode(message: BridgeMessageView)
    requires
        encodable(message),
    ensures
        decode_message(encode_message(message)) == Some(message),
{
    broadcast use vstd::utf8::encode_utf8_valid_utf8, vstd::utf8::encode_utf8_decode_utf8;

    lemma_auto_spec_u32_to_from_le_bytes();
    lemma_auto_spec_u64_to_from_le_bytes();
    let bytes = encode_message(message);
    let body = bytes.subrange(4, bytes.len() as int);
    match message {
        BridgeMessageView::CrossChainTransferOrder(order) => {
            lemma_order_round_trip(order);
            assert(bytes.subrange(0, 4) =~= spec_u32_to_le_bytes(0));
            assert(body =~= encode_order(order));
        },
        BridgeMessageView::SignedCrossChainTransferOrder(signed) => {
            lemma_signed_round_trip(signed);
            assert(bytes.subrange(0, 4) =~= spec_u32_to_le_bytes(1));
            assert(body =~= encode_signed(signed));
        },
        BridgeMessageView::CertifiedCrossChainTransferOrder(certificate) => {
            lemma_certificate_round_trip(certificate);
            assert(bytes.subrange(0, 4) =~= spec_u32_to_le_bytes(2));
            assert(body =~= encode_certificate(certificate));
        },
        BridgeMessageView::CrossShardUpdate(update) => {
            lemma_certificate_round_trip(update.transfer_certificate);
            assert(bytes.subrange(0, 4) =~= spec_u32_to_le_bytes(3));
            assert(body.subrange(0, 4) =~= spec_u32_to_le_bytes(update.shard_id));
            assert(body.subrange(4, body.len() as int) =~= encode_certificate(
                update.transfer_certificate,
            ));
        },
        BridgeMessageView::Error(text) => {
            let utf8 = encode_utf8(text);
            assert(bytes.subrange(0, 4) =~= spec_u32_to_le_bytes(4));
            assert(body.subrange(0, 8) =~= spec_u64_to_le_bytes(utf8.len() as u64));
            assert(body.subrange(8, body.len() as int) =~= utf8);
        },
    }
}

/// The message that a datagram carries is encoded by the datagram.
pub proof fn law_encode_decode(bytes: Seq<u8>)
    requires
        decode_message(bytes) is Some,
    ensures
        encodable(decode_message(bytes)->0),
        encode_message(decode_message(bytes)->0) == bytes,
{
    broadcast use vstd::utf8::decode_utf8_encode_utf8;

    lemma_auto_spec_u32_to_from_le_bytes();
    lemma_auto_spec_u64_to_from_le_bytes();
    let tag = spec_u32_from_le_bytes(bytes.subrange(0, 4));
    let body = bytes.subrange(4, bytes.len() as int);
    let message = decode_message(bytes)->0;
    assert(spec_u32_to_le_bytes(tag) == bytes.subrange(0, 4));
    if tag == 0 {
        lemma_order_bytes_round_trip(body);
        assert(encode_message(message) =~= bytes);
    } else if tag == 1 {
        lemma_signed_bytes_round_trip(body);
        assert(encode_message(message) =~= bytes);
    } else if tag == 2 {
        lemma_certificate_bytes_round_trip(body);
        assert(encode_message(message) =~= bytes);
    } else if tag == 3 {
        lemma_certificate_bytes_round_trip(body.subrange(4, body.len() as int));
        assert(spec_u32_to_le_bytes(spec_u32_from_le_bytes(body.subrange(0, 4))) == body.subrange(
            0,
            4,
        ));
        assert(encode_message(message) =~= bytes);
    } else {
        let utf8 = body.subrange(8, body.len() as int);
        assert(encode_utf8(decode_utf8(utf8)) == utf8);
        assert(spec_u64_to_le_bytes(spec_u64_from_le_bytes(body.subrange(0, 8))) == body.subrange(
            0,
            8,
        ));
        assert(encode_message(message) =~= bytes);
    }
}

/// `String::from_utf8`: succeeds exactly on valid UTF-8, and then gives the
/// text that these bytes encode.
#[verifier::external_body]
fn string_from_utf8(bytes: Vec<u8>) -> (text: Option<String>)
    ensures
        text is Some <==> valid_utf8(bytes@),
        text matches Some(text) ==> encode_utf8(text@) == bytes@,
{
    String::from_utf8(bytes).ok()
}

fn write_order(order: &CrossChainTransferOrder, out: &mut Vec<u8>)
    ensures
        final(out)@ == old(out)@ + encode_order(*order),
{
    order.transfer.encode_into(out);
    out.extend_from_slice(order.signature.0.as_slice());
    assert(out@ =~= old(out)@ + encode_order(*order));
}

fn write_signed(signed: &SignedCrossChainTransferOrder, out: &mut Vec<u8>)
    ensures
        final(out)@ == old(out)@ + encode_signed(*signed),
{
    write_order(&signed.value, out);
    out.extend_from_slice(signed.authority.0.as_slice());
    out.extend_from_slice(signed.signature.0.as_slice());
    assert(out@ =~= old(out)@ + encode_signed(*signed));
}

fn write_certificate(certificate: &CertifiedCrossChainTransferOrder, out: &mut Vec<u8>)
    ensures
        final(out)@ == old(out)@ + encode_certificate(certificate@),
{
    write_order(&certificate.value, out);
    let count = u64_to_le_bytes(certificate.signatures.len() as u64);
    out.extend_from_slice(count.as_slice());
    let ghost start = out@;
    let mut i: usize = 0;
    while i < certificate.signatures.len()
        invariant
            i <= certificate.signatures.len(),
            out@ == start + encode_votes(certificate.signatures@.subrange(0, i as int)),
        decreases certificate.signatures.len() - i,
    {
        out.extend_from_slice(certificate.signatures[i].0.0.as_slice());
        out.extend_from_slice(certificate.signatures[i].1.0.as_slice());
        proof {
            let longer = certificate.signatures@.subrange(0, i + 1);
            assert(longer.drop_last() == certificate.signatures@.subrange(0, i as int));
            assert(longer.last() == certificate.signatures@[i as int]);
            assert(out@ =~= start + encode_votes(longer));
        }
        i = i + 1;
    }
    assert(certificate.signatures@.subrange(0, i as int) == certificate.signatures@);
    assert(out@ =~= old(out)@ + encode_certificate(certificate@));
}

/// Writes `message` as a datagram.
pub fn serialize_message(message: &BridgeMessage) -> (bytes: Vec<u8>)
    ensures
        bytes@ == encode_message(message@),
        encodable(message@),
{
    let mut bytes: Vec<u8> = Vec::new();
    match message {
        BridgeMessage::CrossChainTransferOrder(order) => {
            let tag = u32_to_le_bytes(0);
            bytes.extend_from_slice(tag.as_slice());
            write_order(order, &mut bytes);
        },
        BridgeMessage::SignedCrossChainTransferOrder(signed) => {
            let tag = u32_to_le_bytes(1);
            bytes.extend_from_slice(tag.as_slice());
            write_signed(signed, &mut bytes);
        },
        BridgeMessage::CertifiedCrossChainTransferOrder(certificate) => {
            let tag = u32_to_le_bytes(2);
            bytes.extend_from_slice(tag.as_slice());
            let count = certificate.signatures.len();
            assert(encodable(message@));
            write_certificate(certificate, &mut bytes);
        },
        BridgeMessage::CrossShardUpdate(update) => {
            let tag = u32_to_le_bytes(3);
            bytes.extend_from_slice(tag.as_slice());
            let shard = u32_to_le_bytes(update.shard_id);
            bytes.extend_from_slice(shard.as_slice());
            let count = update.transfer_certificate.signatures.len();
            assert(encodable(message@));
            write_certificate(&update.transfer_certificate, &mut bytes);
        },
        BridgeMessage::Error(text) => {
            let tag = u32_to_le_bytes(4);
            bytes.extend_from_slice(tag.as_slice());
            let utf8 = text.as_str().as_bytes();
            let size = utf8.len();
            assert(utf8@ == encode_utf8(text@));
            assert(encodable(message@));
            let length = u64_to_le_bytes(size as u64);
            bytes.extend_from_slice(length.as_slice());
            bytes.extend_from_slice(utf8);
        },
    }
    assert(bytes@ =~= encode_message(message@));
    bytes
}

fn read_u16(bytes: &[u8], at: usize) -> (value: u16)
    requires
        at + 2 <= bytes.len(),
    ensures
        value == spec_u16_from_le_bytes(bytes@.subrange(at as int, at + 2)),
{
    u16_from_le_bytes(slice_subrange(bytes, at, at + 2))
}

fn read_u32(bytes: &[u8], at: usize) -> (value: u32)
    requires
        at + 4 <= bytes.len(),
    ensures
        value == spec_u32_from_le_bytes(bytes@.subrange(at as int, at + 4)),
{
    u32_from_le_bytes(slice_subrange(bytes, at, at + 4))
}

fn read_u64(bytes: &[u8], at: usize) -> (value: u64)
    requires
        at + 8 <= bytes.len(),
    ensures
        value == spec_u64_from_le_bytes(bytes@.subrange(at as int, at + 8)),
{
    u64_from_le_bytes(slice_subrange(bytes, at, at + 8))
}

fn read_transfer(bytes: &[u8], at: usize) -> (transfer: CrossChainTransfer)
    requires
        at + 180 <= bytes.len(),
    ensures
        transfer == decode_transfer(bytes@.subrange(at as int, at + 180)),
{
    let ghost part = bytes@.subrange(at as int, at + 180);
    proof {
        assert(part.subrange(0, 2) =~= bytes@.subrange(at as int, at + 2));
        assert(part.subrange(2, 4) =~= bytes@.subrange(at + 2, at + 4));
        assert(part.subrange(4, 36) =~= bytes@.subrange(at + 4, at + 36));
        assert(part.subrange(36, 68) =~= bytes@.subrange(at + 36, at + 68));
        assert(part.subrange(68, 76) =~= bytes@.subrange(at + 68, at + 76));
        assert(part.subrange(76, 108) =~= bytes@.subrange(at + 76, at + 108));
        assert(part.subrange(108, 140) =~= bytes@.subrange(at + 108, at + 140));
        assert(part.subrange(140, 172) =~= bytes@.subrange(at + 140, at + 172));
        assert(part.subrange(172, 180) =~= bytes@.subrange(at + 172, at + 180));
    }
    CrossChainTransfer {
        source_chain: ChainId(read_u16(bytes, at)),
        destination_chain: ChainId(read_u16(bytes, at + 2)),
        sender: Pubkey(read_array32(bytes, at + 4)),
        recipient: Pubkey(read_array32(bytes, at + 36)),
        amount: read_u64(bytes, at + 68),
        token_mint: Pubkey(read_array32(bytes, at + 76)),
        interop_tx_id: InteropTxId(read_array32(bytes, at + 108)),
        escrow_account: Pubkey(read_array32(bytes, at + 140)),
        nonce: read_u64(bytes, at + 172),
    }
}

fn read_order(bytes: &[u8], at: usize) -> (order: CrossChainTransferOrder)
    requires
        at + 244 <= bytes.len(),
    ensures
        order == decode_order(bytes@.subrange(at as int, at + 244)),
{
    let ghost part = bytes@.subrange(at as int, at + 244);
    proof {
        assert(part.subrange(0, 180) =~= bytes@.subrange(at as int, at + 180));
        assert(part.subrange(180, 244) =~= bytes@.subrange(at + 180, at + 244));
    }
    CrossChainTransferOrder {
        transfer: read_transfer(bytes, at),
        signature: Signature(read_array64(bytes, at + 180)),
    }
}

fn read_signed(bytes: &[u8], at: usize) -> (signed: SignedCrossChainTransferOrder)
    requires
        at + 340 <= bytes.len(),
    ensures
        signed == decode_signed(bytes@.subrange(at as int, at + 340)),
{
    let ghost part = bytes@.subrange(at as int, at + 340);
    proof {
        assert(part.subrange(0, 244) =~= bytes@.subrange(at as int, at + 244));
        assert(part.subrange(244, 276) =~= bytes@.subrange(at + 244, at + 276));
        assert(part.subrange(276, 340) =~= bytes@.subrange(at + 276, at + 340));
    }
    SignedCrossChainTransferOrder {
        value: read_order(bytes, at),
        authority: Pubkey(read_array32(bytes, at + 244)),
        signature: Signature(read_array64(bytes, at + 276)),
    }
}

fn read_certificate(bytes: &[u8], at: usize) -> (certificate: Option<
    CertifiedCrossChainTransferOrder,
>)
    requires
        at <= bytes.len(),
    ensures
        match certificate {
            Some(certificate) => decode_certificate(bytes@.subrange(at as int, bytes.len() as int))
                == Some(certificate@),
            None => decode_certificate(bytes@.subrange(at as int, bytes.len() as int)) is None,
        },
{
    let ghost part = bytes@.subrange(at as int, bytes.len() as int);
    if bytes.len() - at < 252 {
        return None;
    }
    proof {
        assert(part.subrange(0, 244) =~= bytes@.subrange(at as int, at + 244));
        assert(part.subrange(244, 252) =~= bytes@.subrange(at + 244, at + 252));
    }
    let value = read_order(bytes, at);
    let count = read_u64(bytes, at + 244);
    let rest = bytes.len() - at - 252;
    if rest as u128 != 96u128 * (count as u128) {
        return None;
    }
    let start = at + 252;
    let ghost tail = part.subrange(252, part.len() as int);
    let mut signatures: Vec<(AuthorityName, Signature)> = Vec::new();
    let mut i: usize = 0;
    while i < count as usize
        invariant
            i <= count,
            count <= usize::MAX,
            start + 96 * count == bytes.len(),
            start == at + 252,
            tail == bytes@.subrange(start as int, bytes.len() as int),
            signatures@ == decode_votes(tail, i as nat),
        decreases count - i,
    {
        let offset = start + 96 * i;
        proof {
            let piece = tail.subrange(96 * i, 96 * i + 96);
            assert(piece =~= bytes@.subrange(offset as int, offset + 96));
            assert(piece.subrange(0, 32) =~= bytes@.subrange(offset as int, offset + 32));
            assert(piece.subrange(32, 96) =~= bytes@.subrange(offset + 32, offset + 96));
        }
        let authority = Pubkey(read_array32(bytes, offset));
        let signature = Signature(read_array64(bytes, offset + 32));
        signatures.push((authority, signature));
        i = i + 1;
        assert(signatures@ =~= decode_votes(tail, i as nat));
    }
    assert(tail =~= bytes@.subrange(at as int, bytes.len() as int).subrange(
        252,
        bytes.len() - at,
    ));
    Some(CertifiedCrossChainTransferOrder { value, signatures })
}

/// Reads the message that the datagram `bytes` carries. Fails with
/// `InvalidDecoding` exactly where the bytes are not the encoding of any
/// message: bytes after the end of a message are refused as well.
pub fn deserialize_message(bytes: &[u8]) -> (result: Result<BridgeMessage, FastPayError>)
    ensures
        match result {
            Ok(message) => decode_message(bytes@) == Some(message@),
            Err(error) => error@ == FastPayErrorView::InvalidDecoding && decode_message(
                bytes@,
            ) is None,
        },
{
    if bytes.len() < 4 {
        return Err(FastPayError::InvalidDecoding);
    }
    let ghost body = bytes@.subrange(4, bytes.len() as int);
    let tag = read_u32(bytes, 0);
    if tag == 0 {
        if bytes.len() != 248 {
            return Err(FastPayError::InvalidDecoding);
        }
        Ok(BridgeMessage::CrossChainTransferOrder(read_order(bytes, 4)))
    } else if tag == 1 {
        if bytes.len() != 344 {
            return Err(FastPayError::InvalidDecoding);
        }
        Ok(BridgeMessage::SignedCrossChainTransferOrder(read_signed(bytes, 4)))
    } else if tag == 2 {
        match read_certificate(bytes, 4) {
            Some(certificate) => Ok(BridgeMessage::CertifiedCrossChainTransferOrder(certificate)),
            None => Err(FastPayError::InvalidDecoding),
        }
    } else if tag == 3 {
        if bytes.len() < 8 {
            return Err(FastPayError::InvalidDecoding);
        }
        proof {
            assert(body.subrange(0, 4) =~= bytes@.subrange(4, 8));
            assert(body.subrange(4, body.len() as int) =~= bytes@.subrange(8, bytes.len() as int));
        }
        let shard_id = read_u32(bytes, 4);
        match read_certificate(bytes, 8) {
            Some(transfer_certificate) => Ok(
                BridgeMessage::CrossShardUpdate(
                    CrossShardCrossChainUpdate { shard_id, transfer_certificate },
                ),
            ),
            None => Err(FastPayError::InvalidDecoding),
        }
    } else if tag == 4 {
        if bytes.len() < 12 {
            return Err(FastPayError::InvalidDecoding);
        }
        proof {
            assert(body.subrange(0, 8) =~= bytes@.subrange(4, 12));
            assert(body.subrange(8, body.len() as int) =~= bytes@.subrange(12, bytes.len() as int));
        }
        let length = read_u64(bytes, 4);
        if (bytes.len() - 12) as u64 != length {
            return Err(FastPayError::InvalidDecoding);
        }
        let utf8 = slice_to_vec(slice_subrange(bytes, 12, bytes.len()));
        match string_from_utf8(utf8) {
            Some(text) => {
                proof {
                    vstd::utf8::encode_utf8_decode_utf8(text@);
                }
                Ok(BridgeMessage::Error(text))
            },
            None => Err(FastPayError::InvalidDecoding),
        }
    } else {
        Err(FastPayError::InvalidDecoding)
    }
}

/// Writes the refusal `error` as a datagram: an `Error` message with the text
/// that stands for the error.
pub fn serialize_error(error: &FastPayError) -> (bytes: Vec<u8>)
    ensures
        bytes@ == encode_message(BridgeMessageView::Error(description(error@))),
        encodable(BridgeMessageView::Error(description(error@))),
{
    let message = BridgeMessage::Error(error.debug_text());
    serialize_message(&message)
}

/// Writes an order as a datagram.
pub fn serialize_transfer_order(order: &CrossChainTransferOrder) -> (bytes: Vec<u8>)
    ensures
        bytes@ == encode_message(BridgeMessageView::CrossChainTransferOrder(*order)),
{
    serialize_message(&BridgeMessage::CrossChainTransferOrder(*order))
}

/// Writes the vote of an authority as a datagram.
pub fn serialize_signed_order(order: &SignedCrossChainTransferOrder) -> (bytes: Vec<u8>)
    ensures
        bytes@ == encode_message(BridgeMessageView::SignedCrossChainTransferOrder(*order)),
{
    serialize_message(&BridgeMessage::SignedCrossChainTransferOrder(*order))
}

/// Writes a certificate as a datagram.
pub fn serialize_certified_order(order: &CertifiedCrossChainTransferOrder) -> (bytes: Vec<u8>)
    ensures
        bytes@ == encode_message(BridgeMessageView::CertifiedCrossChainTransferOrder(order@)),
{
    serialize_message(&BridgeMessage::CertifiedCrossChainTransferOrder(order.clone()))
}

/// Writes a cross-shard update as a datagram.
pub fn serialize_cross_shard_update(update: &CrossShardCrossChainUpdate) -> (bytes: Vec<u8>)
    ensures
        bytes@ == encode_message(BridgeMessageView::CrossShardUpdate(update@)),
{
    serialize_message(
        &BridgeMessage::CrossShardUpdate(
            CrossShardCrossChainUpdate {
                shard_id: update.shard_id,
                transfer_certificate: update.transfer_certificate.clone(),
            },
        ),
    )
}

} // verus!
