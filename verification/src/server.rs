use crate::authority::{
    admission, bus_closed, escrow_refusal, update_outcome, with_pending, with_update,
    BridgeAuthorityState, EscrowVerifier,
};
use crate::base_types::{AuthorityName, ShardId, Signature};
use crate::crypto::spec_sign;
use crate::error::{description, FastPayError, FastPayErrorView};
use crate::message::{
    certificate_check, transfer_message, CrossChainTransferOrder, SignedCrossChainTransferOrder,
};
use crate::serialization::{
    decode_message, deserialize_message, encode_message, law_decode_encode, serialize_error,
    serialize_signed_order, BridgeMessage, BridgeMessageView,
};
use vstd::prelude::*;

verus! {

/// The datagram that tells a client of the refusal `error`.
pub open spec fn error_reply(error: FastPayErrorView) -> Seq<u8> {
    encode_message(BridgeMessageView::Error(description(error)))
}

/// Whether `reply` is the datagram `bytes`.
pub open spec fn replies(reply: Option<Vec<u8>>, bytes: Seq<u8>) -> bool {
    reply matches Some(datagram) && datagram@ == bytes
}

/// The vote with which the authority `name` answers `order`, signed by `seed`.
pub open spec fn vote_reply(order: CrossChainTransferOrder, name: AuthorityName, seed: [u8; 32])
    -> Seq<u8> {
    encode_message(
        BridgeMessageView::SignedCrossChainTransferOrder(
            SignedCrossChainTransferOrder {
                value: order,
                authority: name,
                signature: Signature(spec_sign(seed, transfer_message(order.transfer))),
            },
        ),
    )
}

/// Serves one datagram that came in on the port of `shard_id`, and returns the
/// datagram to answer with, if any.
///
/// An order is handled on `shard_id` and answered with the authority's vote, or
/// with the refusal. A cross-shard update is handled, and a certificate is put
/// on the bus for every shard; both are answered only where they are refused.
/// Every other datagram is dropped: nothing changes and nothing is answered.
pub fn handle_datagram<V: EscrowVerifier>(
    state: &mut BridgeAuthorityState<V>,
    shard_id: ShardId,
    data: &[u8],
) -> (reply: Option<Vec<u8>>)
    requires
        old(state).wf(),
    ensures
        final(state).wf(),
        final(state).same_setup(old(state)),
        match decode_message(data@) {
            Some(BridgeMessageView::CrossChainTransferOrder(order)) => match admission(
                old(state).shards(),
                order,
                shard_id,
            ) {
                Err(refusal) => {
                    &&& replies(reply, error_reply(refusal))
                    &&& final(state).shards() == old(state).shards()
                },
                Ok(()) => {
                    &&& {
                        ||| {
                            &&& replies(
                                reply,
                                vote_reply(order, old(state).name, old(state).secret.seed()),
                            )
                            &&& final(state).shards() == with_pending(
                                old(state).shards(),
                                order,
                                shard_id,
                            )
                        }
                        ||| {
                            &&& replies(reply, error_reply(escrow_refusal(order)))
                            &&& final(state).shards() == old(state).shards()
                        }
                    }
                    &&& exists|escrow: Result<bool, FastPayError>|
                        {
                            &&& #[trigger] call_ensures(
                                V::verify_escrow,
                                (&old(state).escrow_verifier, &order.transfer),
                                escrow,
                            )
                            &&& replies(
                                reply,
                                vote_reply(order, old(state).name, old(state).secret.seed()),
                            ) <==> escrow == Ok::<bool, FastPayError>(true)
                        }
                },
            },
            Some(BridgeMessageView::CrossShardUpdate(update)) => {
                &&& final(state).shards() == with_update(
                    old(state).shards(),
                    &old(state).committee,
                    update,
                )
                &&& match update_outcome(old(state).shards(), &old(state).committee, update) {
                    Ok(()) => reply is None,
                    Err(refusal) => replies(reply, error_reply(refusal)),
                }
            },
            Some(BridgeMessageView::CertifiedCrossChainTransferOrder(certificate)) => {
                &&& final(state).shards() == old(state).shards()
                &&& match certificate_check(certificate, &old(state).committee) {
                    Ok(()) => if old(state).number_of_shards == 0 {
                        reply is None
                    } else {
                        reply is None || replies(reply, error_reply(bus_closed()))
                    },
                    Err(refusal) => replies(reply, error_reply(refusal)),
                }
            },
            _ => reply is None && final(state).shards() == old(state).shards(),
        },
{
    match deserialize_message(data) {
        Ok(BridgeMessage::CrossChainTransferOrder(order)) => {
            match state.handle_cross_chain_transfer_order(order, shard_id) {
                Ok(signed_order) => Some(serialize_signed_order(&signed_order)),
                Err(error) => {
                    let refusal = serialize_error(&error);
                    proof {
                        // A refusal is never taken for a vote.
                        law_decode_encode(BridgeMessageView::Error(description(error@)));
                        law_decode_encode(
                            BridgeMessageView::SignedCrossChainTransferOrder(
                                SignedCrossChainTransferOrder {
                                    value: order,
                                    authority: old(state).name,
                                    signature: Signature(
                                        spec_sign(
                                            old(state).secret.seed(),
                                            transfer_message(order.transfer),
                                        ),
                                    ),
                                },
                            ),
                        );
                    }
                    Some(refusal)
                },
            }
        },
        Ok(BridgeMessage::CrossShardUpdate(update)) => {
            match state.handle_cross_shard_update(update) {
                // No answer is needed.
                Ok(()) => None,
                Err(error) => Some(serialize_error(&error)),
            }
        },
        Ok(BridgeMessage::CertifiedCrossChainTransferOrder(certificate)) => {
            match state.propagate_certified_transfer(certificate) {
                // No answer is needed.
                Ok(()) => None,
                Err(error) => Some(serialize_error(&error)),
            }
        },
        // A message that no client sends.
        Ok(_) => None,
        // Not a message.
        Err(_) => None,
    }
}

} // verus!
