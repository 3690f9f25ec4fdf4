use crate::error::{outcome, FastPayError, FastPayErrorView};
use crate::message::SignedCrossChainTransferOrder;
use crate::serialization::{decode_message, deserialize_message, BridgeMessage, BridgeMessageView};
use vstd::prelude::*;

verus! {

/// The size of the buffer into which a datagram is received, in bytes.
pub const DEFAULT_BUFFER_SIZE: usize = 65536;

/// What the answer of an authority to an order means: its vote, where the
/// answer carries one; `InvalidDecoding`, where it is no message;
/// `CommunicationError`, where the authority refused; and `UnexpectedMessage`,
/// where it is any other message.
pub open spec fn spec_transfer_order_reply(response: Seq<u8>) -> Result<
    SignedCrossChainTransferOrder,
    FastPayErrorView,
> {
    match decode_message(response) {
        None => Err(FastPayErrorView::InvalidDecoding),
        Some(BridgeMessageView::SignedCrossChainTransferOrder(signed)) => Ok(signed),
        Some(BridgeMessageView::Error(_)) => Err(FastPayErrorView::CommunicationError),
        Some(_) => Err(FastPayErrorView::UnexpectedMessage),
    }
}

/// Reads the answer of an authority to an order.
pub fn read_transfer_order_reply(response: &[u8]) -> (result: Result<
    SignedCrossChainTransferOrder,
    FastPayError,
>)
    ensures
        outcome(result) == spec_transfer_order_reply(response@),
{
    match deserialize_message(response) {
        Err(error) => Err(error),
        Ok(BridgeMessage::SignedCrossChainTransferOrder(signed_order)) => Ok(signed_order),
        // The authority refused.
        Ok(BridgeMessage::Error(_)) => Err(FastPayError::CommunicationError),
        // The authority sent what was not asked for.
        Ok(_) => Err(FastPayError::UnexpectedMessage),
    }
}

} // verus!
