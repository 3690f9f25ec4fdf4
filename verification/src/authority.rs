use crate::base_types::{
    spec_check_signature, spec_shard_of, AuthorityName, CrossChainTransfer, KeyPair, ShardId,
};
use crate::committee::Committee;
use crate::crypto::spec_sign;
use crate::error::{outcome, FastPayError, FastPayErrorView};
use crate::id_map::{IdMap, IdSet};
use crate::message::{
    certificate_check, transfer_message, CertifiedCrossChainTransferOrder,
    CrossChainTransferOrder, CrossShardCrossChainUpdate, SignedCrossChainTransferOrder,
    UpdateView,
};
use crate::text::{decimal, decimal_text};
use std::collections::HashMap;
use tokio::sync::mpsc::{UnboundedReceiver, UnboundedSender};
use vstd::prelude::*;
use vstd::string::StringExecFns;

verus! {

broadcast use vstd::std_specs::hash::group_hash_axioms;

/// The sending half of tokio's unbounded channel.
#[verifier::external_type_specification]
#[verifier::external_body]
#[verifier::reject_recursive_types(T)]
pub struct ExUnboundedSender<T>(UnboundedSender<T>);

/// The receiving half of tokio's unbounded channel.
#[verifier::external_type_specification]
#[verifier::external_body]
#[verifier::reject_recursive_types(T)]
pub struct ExUnboundedReceiver<T>(UnboundedReceiver<T>);

/// `tokio::sync::mpsc::unbounded_channel`: a new channel. Nothing is claimed of it.
#[verifier::external_body]
fn open_bus() -> (bus: (
    UnboundedSender<CrossShardCrossChainUpdate>,
    UnboundedReceiver<CrossShardCrossChainUpdate>,
)) {
    tokio::sync::mpsc::unbounded_channel()
}

/// `tokio::sync::mpsc::UnboundedSender::send`: never waits; fails where the
/// receiving half is closed or gone, which nothing here can foresee.
#[verifier::external_body]
fn bus_send(sender: &UnboundedSender<CrossShardCrossChainUpdate>, update: CrossShardCrossChainUpdate)
    -> (sent: Result<(), ()>) {
    sender.send(update).map_err(|_| ())
}

/// Witness of the lockup of funds on the source chain.
pub trait EscrowVerifier {
    /// Says whether an escrow that matches `transfer` was seen on the source
    /// chain. An error counts as a refusal.
    fn verify_escrow(&self, transfer: &CrossChainTransfer) -> Result<bool, FastPayError>;
}

/// What one shard of an authority remembers.
pub struct BridgeShardState {
    /// Shard identifier.
    pub shard_id: ShardId,
    /// The transfers for which a certificate was seen.
    pub processed_transfers: IdSet,
    /// The orders that wait for a certificate, by the identifier of their transfer.
    pub pending_transfers: IdMap<CrossChainTransferOrder>,
}

impl BridgeShardState {
    /// The two collections are well-formed, and what they hold obeys the
    /// invariant of a shard.
    pub open spec fn wf(&self) -> bool {
        &&& self.processed_transfers.wf()
        &&& self.pending_transfers.wf()
        &&& shard_invariant(self@)
    }

    /// A shard that has seen nothing yet.
    pub fn new(shard_id: ShardId) -> (state: Self)
        ensures
            state.wf(),
            state.shard_id == shard_id,
            state.processed_transfers@ == Set::<[u8; 32]>::empty(),
            state.pending_transfers@ == Map::<[u8; 32], CrossChainTransferOrder>::empty(),
    {
        Self { shard_id, processed_transfers: IdSet::new(), pending_transfers: IdMap::new() }
    }
}

/// What one shard remembers, as mathematical values.
pub ghost struct ShardView {
    pub shard_id: ShardId,
    pub processed: Set<[u8; 32]>,
    pub pending: Map<[u8; 32], CrossChainTransferOrder>,
}

impl View for BridgeShardState {
    type V = ShardView;

    open spec fn view(&self) -> ShardView {
        ShardView {
            shard_id: self.shard_id,
            processed: self.processed_transfers@,
            pending: self.pending_transfers@,
        }
    }
}

/// The invariant of a shard: nothing is both processed and pending, and every
/// pending order is filed under its own identifier and belongs to the shard.
pub open spec fn shard_invariant(shard: ShardView) -> bool {
    &&& forall|id: [u8; 32]| !(shard.processed.contains(id) && shard.pending.contains_key(id))
    &&& forall|id: [u8; 32]| #[trigger]
        shard.pending.contains_key(id) ==> {
            &&& shard.pending[id].transfer.interop_tx_id.0 == id
            &&& spec_shard_of(shard.pending[id].transfer.sender) == shard.shard_id
        }
}

/// Every shard is filed under its identifier and obeys the invariant of a shard.
pub open spec fn shards_invariant(shards: Seq<ShardView>) -> bool {
    forall|i: int|
        0 <= i < shards.len() ==> (#[trigger] shards[i]).shard_id == i && shard_invariant(
            shards[i],
        )
}

/// Why `order` is refused on `shard_id` before the escrow is looked at: the
/// first of a wrong shard, a shard that the authority does not run, a sender's
/// signature that fails, and a transfer that is already processed.
pub open spec fn admission(shards: Seq<ShardView>, order: CrossChainTransferOrder, shard_id: ShardId)
    -> Result<(), FastPayErrorView> {
    if spec_shard_of(order.transfer.sender) != shard_id {
        Err(FastPayErrorView::WrongShard)
    } else if shard_id >= shards.len() {
        Err(FastPayErrorView::ShardStateNotFound)
    } else {
        match order.spec_check_signature() {
            Err(error) => Err(error),
            Ok(()) => if shards[shard_id as int].processed.contains(order.transfer.interop_tx_id.0) {
                Err(FastPayErrorView::CertificateAlreadyExists)
            } else {
                Ok(())
            },
        }
    }
}

/// The shards after `order` became pending on `shard_id`.
pub open spec fn with_pending(
    shards: Seq<ShardView>,
    order: CrossChainTransferOrder,
    shard_id: ShardId,
) -> Seq<ShardView> {
    let shard = shards[shard_id as int];
    shards.update(
        shard_id as int,
        ShardView {
            shard_id: shard.shard_id,
            processed: shard.processed,
            pending: shard.pending.insert(order.transfer.interop_tx_id.0, order),
        },
    )
}

/// What handling `update` gives: `ShardStateNotFound` where the authority does
/// not run the shard, `InvalidCrossShardUpdate` where the certificate does not
/// pass its check, else success.
pub open spec fn update_outcome(
    shards: Seq<ShardView>,
    committee: &Committee,
    update: UpdateView,
) -> Result<(), FastPayErrorView> {
    if update.shard_id >= shards.len() {
        Err(FastPayErrorView::ShardStateNotFound)
    } else if certificate_check(update.transfer_certificate, committee) is Err {
        Err(FastPayErrorView::InvalidCrossShardUpdate)
    } else {
        Ok(())
    }
}

/// The shards after `update` was handled: where it is accepted, its transfer is
/// processed on its shard and pending there no longer; else nothing changes.
pub open spec fn with_update(
    shards: Seq<ShardView>,
    committee: &Committee,
    update: UpdateView,
) -> Seq<ShardView> {
    if update_outcome(shards, committee, update) is Ok {
        let shard = shards[update.shard_id as int];
        let id = update.transfer_certificate.value.transfer.interop_tx_id.0;
        shards.update(
            update.shard_id as int,
            ShardView {
                shard_id: shard.shard_id,
                processed: shard.processed.insert(id),
                pending: shard.pending.remove(id),
            },
        )
    } else {
        shards
    }
}

/// One authority of the bridge, with all its shards.
pub struct BridgeAuthorityState<V: EscrowVerifier> {
    /// The authority's identity.
    pub name: AuthorityName,
    /// The authority's keypair.
    pub secret: KeyPair,
    /// The committee configuration.
    pub committee: Committee,
    /// Total number of shards.
    pub number_of_shards: u32,
    /// The states of all shards, by shard identifier.
    pub shard_states: HashMap<ShardId, BridgeShardState>,
    /// The bus on which shards learn of certificates.
    pub cross_shard_sender: UnboundedSender<CrossShardCrossChainUpdate>,
    /// Escrow verifier.
    pub escrow_verifier: V,
}

/// What is owed of the vote of an authority that signs with the key pair of
/// its name: its signature passes its check under that name, and the whole
/// vote passes its check against `committee` where the authority has a voting
/// right in it.
pub open spec fn vote_check(signed: SignedCrossChainTransferOrder, committee: &Committee) -> bool {
    &&& spec_check_signature(
        signed.signature,
        transfer_message(signed.value.transfer),
        signed.authority,
    ) is Ok
    &&& committee.spec_weight(signed.authority) > 0 ==> signed.spec_check(committee) == Ok::<
        usize,
        FastPayErrorView,
    >(committee.spec_weight(signed.authority))
}

/// The error of a certificate that could not be put on the cross-shard bus.
pub open spec fn bus_closed() -> FastPayErrorView {
    FastPayErrorView::ConfigurationError { error: "Failed to send cross-shard update"@ }
}

/// The text with which an order is refused where its escrow was not confirmed.
pub open spec fn escrow_refusal(order: CrossChainTransferOrder) -> FastPayErrorView {
    FastPayErrorView::InvalidTransferAmount { error: decimal(order.transfer.amount as nat) }
}

impl<V: EscrowVerifier> BridgeAuthorityState<V> {
    /// There is a well-formed state for each shard from 0 up to the number of
    /// shards, under its identifier, and for no other.
    pub open spec fn wf(&self) -> bool {
        &&& forall|shard: ShardId| #[trigger]
            self.shard_states@.contains_key(shard) <==> shard < self.number_of_shards
        &&& forall|shard: ShardId|
            shard < self.number_of_shards ==> {
                &&& (#[trigger] self.shard_states@[shard]).shard_id == shard
                &&& self.shard_states@[shard].wf()
            }
    }

    /// Everything but the states of the shards is the same in `self` and `other`.
    pub open spec fn same_setup(&self, other: &Self) -> bool {
        &&& self.name == other.name
        &&& self.secret == other.secret
        &&& self.committee == other.committee
        &&& self.number_of_shards == other.number_of_shards
        &&& self.cross_shard_sender == other.cross_shard_sender
        &&& self.escrow_verifier == other.escrow_verifier
    }

    /// What the shards remember, in the order of the shards.
    pub open spec fn shards(&self) -> Seq<ShardView> {
        Seq::new(self.number_of_shards as nat, |i: int| self.shard_states@[i as ShardId]@)
    }

    /// Makes an authority with `number_of_shards` empty shards, and the bus on
    /// which they learn of certificates; returns the receiving half of the bus.
    pub fn new(
        name: AuthorityName,
        secret: KeyPair,
        committee: Committee,
        number_of_shards: u32,
        escrow_verifier: V,
    ) -> (made: (Self, UnboundedReceiver<CrossShardCrossChainUpdate>))
        ensures
            made.0.wf(),
            made.0.name == name,
            made.0.secret == secret,
            made.0.committee == committee,
            made.0.number_of_shards == number_of_shards,
            made.0.escrow_verifier == escrow_verifier,
            forall|i: int|
                0 <= i < number_of_shards ==> {
                    &&& (#[trigger] made.0.shards()[i]).shard_id == i
                    &&& made.0.shards()[i].processed == Set::<[u8; 32]>::empty()
                    &&& made.0.shards()[i].pending == Map::<
                        [u8; 32],
                        CrossChainTransferOrder,
                    >::empty()
                },
    {
        let (cross_shard_sender, cross_shard_receiver) = open_bus();
        let mut shard_states: HashMap<ShardId, BridgeShardState> = HashMap::new();
        let mut i: u32 = 0;
        while i < number_of_shards
            invariant
                i <= number_of_shards,
                forall|shard: ShardId| #[trigger] shard_states@.contains_key(shard) <==> shard < i,
                forall|shard: ShardId|
                    shard < i ==> {
                        &&& (#[trigger] shard_states@[shard]).shard_id == shard
                        &&& shard_states@[shard].wf()
                        &&& shard_states@[shard].processed_transfers@ == Set::<[u8; 32]>::empty()
                        &&& shard_states@[shard].pending_transfers@ == Map::<
                            [u8; 32],
                            CrossChainTransferOrder,
                        >::empty()
                    },
            decreases number_of_shards - i,
        {
            shard_states.insert(i, BridgeShardState::new(i));
            i = i + 1;
        }
        let state = Self {
            name,
            secret,
            committee,
            number_of_shards,
            shard_states,
            cross_shard_sender,
            escrow_verifier,
        };
        (state, cross_shard_receiver)
    }

    /// The shard that owns `transfer`: the first byte of its sender, modulo 16.
    pub fn get_shard_id(&self, transfer: &CrossChainTransfer) -> (shard: ShardId)
        ensures
            shard == spec_shard_of(transfer.sender),
            shard == transfer.sender.0[0] as int % 16,
    {
        let first_byte: u8 = transfer.sender.0[0];
        (first_byte % 16) as u32
    }

    /// Whether `shard_id` owns `transfer`.
    pub fn in_shard(&self, transfer: &CrossChainTransfer, shard_id: ShardId) -> (owned: bool)
        ensures
            owned == (spec_shard_of(transfer.sender) == shard_id),
    {
        self.get_shard_id(transfer) == shard_id
    }

    /// Decides whether `order` may be voted on by `shard_id`, as far as that
    /// can be said without the escrow oracle.
    pub fn admit_order(&self, order: &CrossChainTransferOrder, shard_id: ShardId) -> (result: Result<
        (),
        FastPayError,
    >)
        requires
            self.wf(),
        ensures
            outcome(result) == admission(self.shards(), *order, shard_id),
    {
        // The transfer must belong to this shard.
        if !self.in_shard(&order.transfer, shard_id) {
            return Err(FastPayError::WrongShard);
        }
        let shard_state = match self.shard_states.get(&shard_id) {
            Some(shard_state) => shard_state,
            None => {
                return Err(FastPayError::ShardStateNotFound);
            },
        };
        match order.check_signature() {
            Err(error) => {
                return Err(error);
            },
            Ok(()) => {},
        }
        // A transfer is certified once.
        if shard_state.processed_transfers.contains(&order.transfer.interop_tx_id.0) {
            return Err(FastPayError::CertificateAlreadyExists);
        }
        Ok(())
    }

    /// Finishes the handling of an admitted `order` with the answer of the
    /// escrow oracle: on `Ok(true)` the order becomes pending on `shard_id`, in
    /// place of an earlier one with the same identifier, and the authority's
    /// vote is returned; on any other answer the order is refused with
    /// `InvalidTransferAmount` and nothing changes.
    pub fn record_order(
        &mut self,
        order: CrossChainTransferOrder,
        shard_id: ShardId,
        escrow: Result<bool, FastPayError>,
    ) -> (result: Result<SignedCrossChainTransferOrder, FastPayError>)
        requires
            old(self).wf(),
            admission(old(self).shards(), order, shard_id) is Ok,
        ensures
            final(self).wf(),
            final(self).same_setup(old(self)),
            match result {
                Ok(signed) => {
                    &&& escrow == Ok::<bool, FastPayError>(true)
                    &&& signed.value == order
                    &&& signed.authority == old(self).name
                    &&& signed.signature.0 == spec_sign(
                        old(self).secret.seed(),
                        transfer_message(order.transfer),
                    )
                    &&& final(self).shards() == with_pending(old(self).shards(), order, shard_id)
                    &&& old(self).secret.is_key_of(old(self).name) ==> vote_check(
                        signed,
                        &old(self).committee,
                    )
                },
                Err(error) => {
                    &&& escrow != Ok::<bool, FastPayError>(true)
                    &&& error@ == escrow_refusal(order)
                    &&& final(self).shards() == old(self).shards()
                    &&& final(self).shard_states@ == old(self).shard_states@
                },
            },
    {
        let confirmed = match escrow {
            Ok(confirmed) => confirmed,
            Err(_) => false,
        };
        if !confirmed {
            return Err(
                FastPayError::InvalidTransferAmount { error: decimal_text(order.transfer.amount) },
            );
        }
        // Keep the order until its certificate comes.
        let interop_tx_id = order.transfer.interop_tx_id;
        match self.shard_states.remove(&shard_id) {
            Some(mut shard_state) => {
                shard_state.pending_transfers.insert(interop_tx_id.0, order);
                self.shard_states.insert(shard_id, shard_state);
            },
            None => {},
        }
        assert(self.shards() =~= with_pending(old(self).shards(), order, shard_id));
        // Vote for it.
        let signed_order = SignedCrossChainTransferOrder::new(order, self.name, &self.secret);
        Ok(signed_order)
    }

    /// Handles an order for one shard: refuses it as `admit_order` says; else
    /// asks the escrow oracle and finishes as `record_order` says.
    pub fn handle_cross_chain_transfer_order(
        &mut self,
        order: CrossChainTransferOrder,
        shard_id: ShardId,
    ) -> (result: Result<SignedCrossChainTransferOrder, FastPayError>)
        requires
            old(self).wf(),
        ensures
            final(self).wf(),
            final(self).same_setup(old(self)),
            admission(old(self).shards(), order, shard_id) matches Err(refusal) ==> {
                &&& outcome(result) == Err::<SignedCrossChainTransferOrder, FastPayErrorView>(
                    refusal,
                )
                &&& final(self).shards() == old(self).shards()
                &&& final(self).shard_states@ == old(self).shard_states@
            },
            admission(old(self).shards(), order, shard_id) is Ok ==> match result {
                Ok(signed) => {
                    &&& signed.value == order
                    &&& signed.authority == old(self).name
                    &&& signed.signature.0 == spec_sign(
                        old(self).secret.seed(),
                        transfer_message(order.transfer),
                    )
                    &&& final(self).shards() == with_pending(old(self).shards(), order, shard_id)
                    &&& old(self).secret.is_key_of(old(self).name) ==> vote_check(
                        signed,
                        &old(self).committee,
                    )
                },
                Err(error) => {
                    &&& error@ == escrow_refusal(order)
                    &&& final(self).shards() == old(self).shards()
                    &&& final(self).shard_states@ == old(self).shard_states@
                },
            },
            admission(old(self).shards(), order, shard_id) is Ok ==> exists|
                escrow: Result<bool, FastPayError>,
            |
                {
                    &&& #[trigger] call_ensures(
                        V::verify_escrow,
                        (&old(self).escrow_verifier, &order.transfer),
                        escrow,
                    )
                    &&& result is Ok <==> escrow == Ok::<bool, FastPayError>(true)
                },
    {
        match self.admit_order(&order, shard_id) {
            Err(error) => {
                return Err(error);
            },
            Ok(()) => {},
        }
        // Ask for the escrow on the source chain.
        let escrow = self.escrow_verifier.verify_escrow(&order.transfer);
        self.record_order(order, shard_id, escrow)
    }
}

impl<V: EscrowVerifier> BridgeAuthorityState<V> {
    /// Tells one shard that a transfer is certified: the transfer becomes
    /// processed and is pending no longer. A refused update changes nothing.
    pub fn handle_cross_shard_update(&mut self, update: CrossShardCrossChainUpdate) -> (result:
        Result<(), FastPayError>)
        requires
            old(self).wf(),
        ensures
            final(self).wf(),
            outcome(result) == update_outcome(old(self).shards(), &old(self).committee, update@),
            final(self).same_setup(old(self)),
            final(self).shards() == with_update(old(self).shards(), &old(self).committee, update@),
            result is Err ==> final(self).shard_states@ == old(self).shard_states@,
    {
        if !self.shard_states.contains_key(&update.shard_id) {
            return Err(FastPayError::ShardStateNotFound);
        }
        match update.transfer_certificate.check(&self.committee) {
            Err(_) => {
                return Err(FastPayError::InvalidCrossShardUpdate);
            },
            Ok(()) => {},
        }
        // Mark as processed, and as pending no longer.
        let interop_tx_id = update.transfer_certificate.value.transfer.interop_tx_id;
        match self.shard_states.remove(&update.shard_id) {
            Some(mut shard_state) => {
                shard_state.processed_transfers.insert(interop_tx_id.0);
                shard_state.pending_transfers.remove(&interop_tx_id.0);
                self.shard_states.insert(update.shard_id, shard_state);
            },
            None => {},
        }
        assert(self.shards() =~= with_update(old(self).shards(), &old(self).committee, update@));
        Ok(())
    }

    /// The updates that tell every shard of this authority of `certificate`: one
    /// for each shard, in the order of the shards.
    pub fn cross_shard_updates(&self, certificate: &CertifiedCrossChainTransferOrder) -> (updates:
        Vec<CrossShardCrossChainUpdate>)
        requires
            self.wf(),
        ensures
            updates.len() == self.number_of_shards,
            forall|i: int|
                0 <= i < updates.len() ==> {
                    &&& (#[trigger] updates[i]).shard_id == i
                    &&& updates[i].transfer_certificate@ == certificate@
                },
    {
        let mut updates: Vec<CrossShardCrossChainUpdate> = Vec::new();
        let mut shard_id: ShardId = 0;
        while shard_id < self.number_of_shards
            invariant
                shard_id <= self.number_of_shards,
                updates.len() == shard_id,
                forall|j: int|
                    0 <= j < shard_id ==> {
                        &&& (#[trigger] updates[j]).shard_id == j
                        &&& updates[j].transfer_certificate@ == certificate@
                    },
            decreases self.number_of_shards - shard_id,
        {
            updates.push(
                CrossShardCrossChainUpdate { shard_id, transfer_certificate: certificate.clone() },
            );
            shard_id = shard_id + 1;
        }
        updates
    }

    /// Verifies `certificate` and puts an update for every shard on the bus.
    /// Fails as the check of the certificate does; else succeeds, unless the
    /// bus is closed, which is a `ConfigurationError`. An authority without
    /// shards puts nothing on the bus, and so succeeds whatever the bus does.
    pub fn propagate_certified_transfer(&self, certificate: CertifiedCrossChainTransferOrder) -> (result:
        Result<(), FastPayError>)
        requires
            self.wf(),
        ensures
            certificate.spec_check(&self.committee) matches Err(refusal) ==> outcome(result)
                == Err::<(), FastPayErrorView>(refusal),
            certificate.spec_check(&self.committee) is Ok ==> result is Ok || outcome(result)
                == Err::<(), FastPayErrorView>(bus_closed()),
            certificate.spec_check(&self.committee) is Ok && self.number_of_shards == 0
                ==> result is Ok,
    {
        match certificate.check(&self.committee) {
            Err(error) => {
                return Err(error);
            },
            Ok(()) => {},
        }
        let mut updates = self.cross_shard_updates(&certificate);
        while updates.len() > 0
            invariant
                certificate.spec_check(&self.committee) is Ok,
                self.number_of_shards == 0 ==> updates.len() == 0,
            decreases updates.len(),
        {
            let update = updates.remove(0);
            match bus_send(&self.cross_shard_sender, update) {
                Err(()) => {
                    return Err(
                        FastPayError::ConfigurationError {
                            error: String::from_str("Failed to send cross-shard update"),
                        },
                    );
                },
                Ok(()) => {},
            }
        }
        Ok(())
    }
}

/// An escrow oracle that confirms every transfer.
pub struct DummyEscrowVerifier;

impl EscrowVerifier for DummyEscrowVerifier {
    fn verify_escrow(&self, _transfer: &CrossChainTransfer) -> (result: Result<bool, FastPayError>)
        ensures
            result == Ok::<bool, FastPayError>(true),
    {
        Ok(true)
    }
}

/// Something that an authority handled.
pub ghost enum ShardEvent {
    /// An order for a shard; `confirmed` says whether the escrow oracle
    /// confirmed its escrow.
    Order { order: CrossChainTransferOrder, shard_id: ShardId, confirmed: bool },
    /// A cross-shard update.
    Update { update: UpdateView },
}

/// The shards after `event` was handled.
pub open spec fn after_event(shards: Seq<ShardView>, committee: &Committee, event: ShardEvent) -> Seq<
    ShardView,
> {
    match event {
        ShardEvent::Order { order, shard_id, confirmed } => if admission(shards, order, shard_id)
            is Ok && confirmed {
            with_pending(shards, order, shard_id)
        } else {
            shards
        },
        ShardEvent::Update { update } => with_update(shards, committee, update),
    }
}

/// The shards after `events` were handled, one after the other.
pub open spec fn after_events(
    shards: Seq<ShardView>,
    committee: &Committee,
    events: Seq<ShardEvent>,
) -> Seq<ShardView>
    decreases events.len(),
{
    if events.len() == 0 {
        shards
    } else {
        after_event(after_events(shards, committee, events.drop_last()), committee, events.last())
    }
}

/// Whether `event` is an update for the transfer `id` that an authority with
/// `count` shards accepts on `shard_id`.
pub open spec fn certifies(
    count: nat,
    committee: &Committee,
    event: ShardEvent,
    id: [u8; 32],
    shard_id: ShardId,
) -> bool {
    event matches ShardEvent::Update { update } && {
        &&& update.shard_id == shard_id
        &&& update.transfer_certificate.value.transfer.interop_tx_id.0 == id
        &&& shard_id < count
        &&& certificate_check(update.transfer_certificate, committee) is Ok
    }
}

/// Whether an update for the transfer `id` was accepted on `shard_id` among
/// `events`.
pub open spec fn certified_among(
    count: nat,
    committee: &Committee,
    events: Seq<ShardEvent>,
    id: [u8; 32],
    shard_id: ShardId,
) -> bool {
    exists|i: int|
        0 <= i < events.len() && certifies(count, committee, #[trigger] events[i], id, shard_id)
}

/// Whatever is handled, every shard keeps its invariant: nothing is both
/// processed and pending, and every pending order belongs to its shard.
pub proof fn law_shards_keep_invariant(
    shards: Seq<ShardView>,
    committee: &Committee,
    event: ShardEvent,
)
    requires
        shards_invariant(shards),
    ensures
        shards_invariant(after_event(shards, committee, event)),
{
    let after = after_event(shards, committee, event);
    assert forall|i: int| 0 <= i < after.len() implies (#[trigger] after[i]).shard_id == i
        && shard_invariant(after[i]) by {
        assert(shards[i].shard_id == i && shard_invariant(shards[i]));
    }
}

/// Handling an admitted order again, with nothing handled in between, admits
/// it again and leaves every shard as the first handling did.
pub proof fn law_order_idempotent(
    shards: Seq<ShardView>,
    order: CrossChainTransferOrder,
    shard_id: ShardId,
)
    requires
        admission(shards, order, shard_id) is Ok,
    ensures
        admission(with_pending(shards, order, shard_id), order, shard_id) is Ok,
        with_pending(with_pending(shards, order, shard_id), order, shard_id) == with_pending(
            shards,
            order,
            shard_id,
        ),
{
    let once = with_pending(shards, order, shard_id);
    let twice = with_pending(once, order, shard_id);
    let id = order.transfer.interop_tx_id.0;
    let shard = shards[shard_id as int];
    assert(shard.pending.insert(id, order).insert(id, order) == shard.pending.insert(id, order));
    assert(twice =~= once);
}

/// Handling the same update twice leaves every shard as handling it once does,
/// and is answered in the same way.
pub proof fn law_update_idempotent(
    shards: Seq<ShardView>,
    committee: &Committee,
    update: UpdateView,
)
    ensures
        with_update(with_update(shards, committee, update), committee, update) == with_update(
            shards,
            committee,
            update,
        ),
        update_outcome(with_update(shards, committee, update), committee, update)
            == update_outcome(shards, committee, update),
{
    let once = with_update(shards, committee, update);
    let twice = with_update(once, committee, update);
    if update_outcome(shards, committee, update) is Ok {
        let id = update.transfer_certificate.value.transfer.interop_tx_id.0;
        let shard = shards[update.shard_id as int];
        assert(shard.processed.insert(id).insert(id) == shard.processed.insert(id));
        assert(shard.pending.remove(id).remove(id) == shard.pending.remove(id));
        assert(twice == once);
    }
}

/// Handling events keeps the number of shards, and makes a transfer processed
/// on a shard exactly where it was so before or an update for it was accepted
/// on that shard.
pub proof fn lemma_processed_after_events(
    shards: Seq<ShardView>,
    committee: &Committee,
    events: Seq<ShardEvent>,
    id: [u8; 32],
    shard_id: ShardId,
)
    requires
        shard_id < shards.len(),
    ensures
        after_events(shards, committee, events).len() == shards.len(),
        after_events(shards, committee, events)[shard_id as int].processed.contains(id) <==> (
        shards[shard_id as int].processed.contains(id) || certified_among(
            shards.len(),
            committee,
            events,
            id,
            shard_id,
        )),
    decreases events.len(),
{
    if events.len() > 0 {
        let earlier = events.drop_last();
        let event = events.last();
        let before = after_events(shards, committee, earlier);
        let after = after_event(before, committee, event);
        lemma_processed_after_events(shards, committee, earlier, id, shard_id);
        if certified_among(shards.len(), committee, earlier, id, shard_id) {
            let i = choose|i: int|
                0 <= i < earlier.len() && certifies(
                    shards.len(),
                    committee,
                    #[trigger] earlier[i],
                    id,
                    shard_id,
                );
            assert(events[i] == earlier[i]);
        }
        if certifies(shards.len(), committee, event, id, shard_id) {
            assert(events[events.len() - 1] == event);
        }
        if certified_among(shards.len(), committee, events, id, shard_id) {
            let i = choose|i: int|
                0 <= i < events.len() && certifies(
                    shards.len(),
                    committee,
                    #[trigger] events[i],
                    id,
                    shard_id,
                );
            if i < earlier.len() {
                assert(earlier[i] == events[i]);
            }
        }
    }
}

/// After an order was handled with success, handling it again on the same
/// shard is refused with `CertificateAlreadyExists` exactly where an update for
/// its transfer was accepted on that shard in between; else it is admitted
/// again, whatever else was handled in between.
pub proof fn law_order_after_order(
    shards: Seq<ShardView>,
    committee: &Committee,
    order: CrossChainTransferOrder,
    shard_id: ShardId,
    events: Seq<ShardEvent>,
)
    requires
        admission(shards, order, shard_id) is Ok,
    ensures
        ({
            let later = after_events(with_pending(shards, order, shard_id), committee, events);
            if certified_among(
                shards.len(),
                committee,
                events,
                order.transfer.interop_tx_id.0,
                shard_id,
            ) {
                admission(later, order, shard_id) == Err::<(), FastPayErrorView>(
                    FastPayErrorView::CertificateAlreadyExists,
                )
            } else {
                admission(later, order, shard_id) is Ok
            }
        }),
{
    lemma_processed_after_events(
        with_pending(shards, order, shard_id),
        committee,
        events,
        order.transfer.interop_tx_id.0,
        shard_id,
    );
}

} // verus!
