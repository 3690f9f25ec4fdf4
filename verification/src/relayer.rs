use crate::base_types::{
    spec_check_batch, spec_check_signature, spec_shard_of, AuthorityName, CrossChainTransfer,
    InteropTxId, ShardId, Signature,
};
use crate::committee::{lemma_rights_fit, spec_quorum, Committee};
use crate::error::FastPayError;
use crate::id_map::{has_key, keys_distinct, IdMap, IdSet};
use crate::message::{
    certificate_batch, certificate_check, first_defect, has_voted, lemma_votes_weight_bound,
    transfer_message, votes_weight,
    CertifiedCrossChainTransferOrder, CrossChainSignatureAggregator, CrossChainTransferOrder,
    SignedCrossChainTransferOrder,
};
use vstd::prelude::*;

verus! {

/// How long a transfer may wait for its quorum, in milliseconds: 300 seconds.
pub const PENDING_TIMEOUT_MS: u64 = 300_000;

/// The shortest time between two looks at the source chain, in milliseconds:
/// 10 seconds.
pub const SOURCE_POLL_MS: u64 = 10_000;

/// The shard that owns `transfer`, whatever the number of shards that the
/// configuration gives: the first byte of the sender, modulo 16.
pub fn get_shard_id(transfer: &CrossChainTransfer, _num_shards: u32) -> (shard: ShardId)
    ensures
        shard == spec_shard_of(transfer.sender),
        shard == transfer.sender.0[0] as int % 16,
{
    let first: u8 = transfer.sender.0[0];
    (first % 16) as u32
}

/// The time that has passed at `now` since `start`, on a clock that does not
/// run backwards: none where `now` is before `start`.
pub open spec fn spec_elapsed(start: u64, now: u64) -> int {
    if now >= start {
        now - start
    } else {
        0
    }
}

/// The votes that a list of entries holds, in order: the authority and the
/// signature of each.
pub open spec fn votes_of(entries: Seq<([u8; 32], SignedCrossChainTransferOrder)>) -> Seq<
    (AuthorityName, Signature),
> {
    Seq::new(entries.len(), |i: int| (entries[i].1.authority, entries[i].1.signature))
}

/// A transfer on its way to a certificate, as the relayer sees it.
pub struct PendingTransfer {
    /// The order that the authorities are asked to sign.
    pub order: CrossChainTransferOrder,
    /// The votes received, by the name of the authority.
    pub signed_orders: IdMap<SignedCrossChainTransferOrder>,
    /// The sum of the voting rights behind the votes.
    pub weight: u128,
    /// When the transfer was first seen, in milliseconds.
    pub start_time: u64,
}

impl PendingTransfer {
    /// The votes received, in the order in which they came.
    pub open spec fn votes(&self) -> Seq<(AuthorityName, Signature)> {
        votes_of(self.signed_orders.entries())
    }

    /// Every vote is that of a member of `committee` on this order, filed under
    /// the member's name, with a signature that verifies; and the weight is the
    /// sum of the voting rights of these members.
    pub open spec fn wf(&self, committee: &Committee) -> bool {
        &&& self.signed_orders.wf()
        &&& forall|i: int|
            0 <= i < self.signed_orders.entries().len() ==> {
                let entry = #[trigger] self.signed_orders.entries()[i];
                &&& entry.1.authority.0 == entry.0
                &&& entry.1.value == self.order
                &&& committee.spec_weight(entry.1.authority) > 0
                &&& spec_check_signature(
                    entry.1.signature,
                    transfer_message(self.order.transfer),
                    entry.1.authority,
                ) is Ok
            }
        &&& self.weight == votes_weight(self.votes(), committee)
    }

    /// Whether the votes received reach the quorum of `committee`.
    pub open spec fn has_quorum(&self, committee: &Committee) -> bool {
        self.weight >= spec_quorum(committee.total_votes as int)
    }

    /// Whether the transfer has waited for longer than it may at `now`.
    pub open spec fn timed_out(&self, now: u64) -> bool {
        spec_elapsed(self.start_time, now) > PENDING_TIMEOUT_MS
    }
}

/// The part of the relayer that decides: which transfers wait for votes, which
/// votes count, and when a transfer is certified or given up.
pub struct Relayer {
    pub committee: Committee,
    /// The transfers that wait for their quorum, by identifier.
    pub pending_transfers: IdMap<PendingTransfer>,
    /// The transfers that were certified.
    pub completed_transfers: IdSet,
    /// The time between two rounds, in milliseconds.
    pub polling_interval: u64,
    /// When the source chain was last looked at, in milliseconds.
    pub last_poll: Option<u64>,
}

impl Relayer {
    /// Every pending transfer is well-formed and filed under its identifier,
    /// and none is also completed.
    pub open spec fn wf(&self) -> bool {
        &&& self.pending_transfers.wf()
        &&& self.completed_transfers.wf()
        &&& forall|id: [u8; 32]| #[trigger]
            self.pending_transfers@.contains_key(id) ==> {
                &&& self.pending_transfers@[id].wf(&self.committee)
                &&& self.pending_transfers@[id].order.transfer.interop_tx_id.0 == id
                &&& !self.completed_transfers@.contains(id)
            }
    }

    /// A relayer for `committee` that has seen no transfer yet.
    pub fn new(committee: Committee, polling_interval: u64) -> (relayer: Self)
        ensures
            relayer.wf(),
            relayer.committee == committee,
            relayer.polling_interval == polling_interval,
            relayer.last_poll == None::<u64>,
            relayer.pending_transfers@ == Map::<[u8; 32], PendingTransfer>::empty(),
            relayer.completed_transfers@ == Set::<[u8; 32]>::empty(),
    {
        Self {
            committee,
            pending_transfers: IdMap::new(),
            completed_transfers: IdSet::new(),
            polling_interval,
            last_poll: None,
        }
    }

    /// Whether the source chain is due for a look at `now`: it was never looked
    /// at, or more than 10 seconds ago.
    pub open spec fn spec_poll_due(&self, now: u64) -> bool {
        match self.last_poll {
            None => true,
            Some(last) => spec_elapsed(last, now) > SOURCE_POLL_MS,
        }
    }

    /// Decides whether to look at the source chain at `now`, and remembers the
    /// time of the look.
    pub fn poll_source_chain(&mut self, now: u64) -> (due: bool)
        ensures
            due == old(self).spec_poll_due(now),
            final(self).last_poll == if due {
                Some(now)
            } else {
                old(self).last_poll
            },
            final(self).committee == old(self).committee,
            final(self).pending_transfers == old(self).pending_transfers,
            final(self).completed_transfers == old(self).completed_transfers,
            final(self).polling_interval == old(self).polling_interval,
    {
        let due = match self.last_poll {
            None => true,
            Some(last) => now >= last && now - last > SOURCE_POLL_MS,
        };
        if due {
            self.last_poll = Some(now);
        }
        due
    }

    /// Whether a transfer seen on the source chain is new to the relayer:
    /// neither pending nor completed.
    pub open spec fn is_new(&self, id: InteropTxId) -> bool {
        !self.pending_transfers@.contains_key(id.0) && !self.completed_transfers@.contains(id.0)
    }

    /// Takes note of `order`, seen on the source chain at `now`. A new transfer
    /// becomes pending without votes, and the shard to which the order goes is
    /// returned. For a transfer that is pending or completed nothing changes.
    pub fn process_transfer(&mut self, order: CrossChainTransferOrder, now: u64) -> (shard: Option<
        ShardId,
    >)
        requires
            old(self).wf(),
        ensures
            final(self).wf(),
            final(self).committee == old(self).committee,
            final(self).completed_transfers == old(self).completed_transfers,
            final(self).polling_interval == old(self).polling_interval,
            final(self).last_poll == old(self).last_poll,
            match shard {
                Some(shard) => {
                    let id = order.transfer.interop_tx_id.0;
                    &&& old(self).is_new(order.transfer.interop_tx_id)
                    &&& shard == spec_shard_of(order.transfer.sender)
                    &&& final(self).pending_transfers@.dom() == old(
                        self,
                    ).pending_transfers@.dom().insert(id)
                    &&& forall|other: [u8; 32]|
                        other != id && old(self).pending_transfers@.contains_key(other)
                            ==> final(self).pending_transfers@[other] == old(
                            self,
                        ).pending_transfers@[other]
                    &&& final(self).pending_transfers@[id].order == order
                    &&& final(self).pending_transfers@[id].votes() == Seq::<
                        (AuthorityName, Signature),
                    >::empty()
                    &&& final(self).pending_transfers@[id].weight == 0
                    &&& final(self).pending_transfers@[id].start_time == now
                },
                None => {
                    &&& !old(self).is_new(order.transfer.interop_tx_id)
                    &&& final(self).pending_transfers == old(self).pending_transfers
                },
            },
    {
        let interop_tx_id = order.transfer.interop_tx_id;
        if self.pending_transfers.contains_key(&interop_tx_id.0)
            || self.completed_transfers.contains(&interop_tx_id.0) {
            return None;
        }
        let pending = PendingTransfer {
            order,
            signed_orders: IdMap::new(),
            weight: 0,
            start_time: now,
        };
        assert(pending.votes() =~= Seq::<(AuthorityName, Signature)>::empty());
        self.pending_transfers.insert(interop_tx_id.0, pending);
        // The shard that owns the sender handles the order.
        Some(get_shard_id(&order.transfer, 16))
    }
}

/// Whether `certified` is the certificate of `pending`: its order, with the
/// first of its votes up to the one with which they reach the quorum, and
/// without defect.
pub open spec fn certifies_pending(
    certified: CertifiedCrossChainTransferOrder,
    pending: PendingTransfer,
    committee: &Committee,
) -> bool {
    &&& certified.value == pending.order
    &&& 0 < certified.signatures@.len() <= pending.votes().len()
    &&& certified.signatures@ == pending.votes().subrange(0, certified.signatures@.len() as int)
    &&& first_defect(certified.signatures@, committee) is None
    &&& votes_weight(certified.signatures@, committee) >= spec_quorum(committee.total_votes as int)
    &&& votes_weight(certified.signatures@.drop_last(), committee) < spec_quorum(
        committee.total_votes as int,
    )
}

/// The weight of the first votes of a list is at most the weight of all.
pub proof fn lemma_votes_weight_prefix(
    votes: Seq<(AuthorityName, Signature)>,
    committee: &Committee,
    n: int,
)
    requires
        0 <= n <= votes.len(),
    ensures
        0 <= votes_weight(votes.subrange(0, n), committee) <= votes_weight(votes, committee),
    decreases votes.len(),
{
    if n == votes.len() {
        assert(votes.subrange(0, n) == votes);
        lemma_votes_weight_bound(votes, committee);
    } else {
        assert(votes.drop_last().subrange(0, n) == votes.subrange(0, n));
        lemma_votes_weight_prefix(votes.drop_last(), committee, n);
    }
}

impl Relayer {
    /// Whether the vote `signed` counts: it passes its check against the
    /// committee, its order is pending as it stands, and its authority has not
    /// voted on that order yet.
    pub open spec fn accepts_vote(&self, signed: SignedCrossChainTransferOrder) -> bool {
        let id = signed.value.transfer.interop_tx_id.0;
        &&& signed.spec_check(&self.committee) is Ok
        &&& self.pending_transfers@.contains_key(id)
        &&& self.pending_transfers@[id].order == signed.value
        &&& !self.pending_transfers@[id].signed_orders@.contains_key(signed.authority.0)
    }

    /// Takes the answer of an authority. A vote that counts is added to the
    /// votes on its transfer, with its voting right; any other is dropped.
    pub fn handle_signed_order(&mut self, signed_order: SignedCrossChainTransferOrder) -> (accepted:
        bool)
        requires
            old(self).wf(),
        ensures
            final(self).wf(),
            accepted == old(self).accepts_vote(signed_order),
            final(self).committee == old(self).committee,
            final(self).completed_transfers == old(self).completed_transfers,
            final(self).polling_interval == old(self).polling_interval,
            final(self).last_poll == old(self).last_poll,
            !accepted ==> final(self).pending_transfers == old(self).pending_transfers,
            accepted ==> {
                let id = signed_order.value.transfer.interop_tx_id.0;
                let before = old(self).pending_transfers@[id];
                let after = final(self).pending_transfers@[id];
                &&& final(self).pending_transfers@.dom() == old(self).pending_transfers@.dom()
                &&& forall|other: [u8; 32]|
                    other != id && old(self).pending_transfers@.contains_key(other)
                        ==> final(self).pending_transfers@[other] == old(
                        self,
                    ).pending_transfers@[other]
                &&& after.order == before.order
                &&& after.start_time == before.start_time
                &&& after.votes() == before.votes().push(
                    (signed_order.authority, signed_order.signature),
                )
                &&& after.weight == before.weight + old(self).committee.spec_weight(
                    signed_order.authority,
                )
            },
    {
        // Unverifiable answers are dropped.
        let voting_rights = match signed_order.check(&self.committee) {
            Ok(voting_rights) => voting_rights,
            Err(_) => {
                return false;
            },
        };
        let interop_tx_id = signed_order.value.transfer.interop_tx_id;
        let authority = signed_order.authority;
        let counts = match self.pending_transfers.get(&interop_tx_id.0) {
            None => false,
            Some(pending) => signed_order.value.transfer == pending.order.transfer
                && signed_order.value.signature == pending.order.signature
                && !pending.signed_orders.contains_key(&authority.0),
        };
        if !counts {
            return false;
        }
        match self.pending_transfers.remove(&interop_tx_id.0) {
            None => false,
            Some(mut pending) => {
                let ghost before = pending;
                let count = pending.signed_orders.len();
                proof {
                    before.signed_orders.lemma_entries();
                    lemma_votes_weight_bound(before.votes(), &self.committee);
                    lemma_rights_fit(before.votes().len() as int);
                }
                pending.weight = pending.weight + voting_rights as u128;
                pending.signed_orders.insert(authority.0, signed_order);
                proof {
                    let votes = pending.votes();
                    assert(votes =~= before.votes().push(
                        (signed_order.authority, signed_order.signature),
                    ));
                    assert(votes.drop_last() =~= before.votes());
                }
                self.pending_transfers.insert(interop_tx_id.0, pending);
                assert(final(self).pending_transfers@.dom() =~= old(self).pending_transfers@.dom());
                true
            },
        }
    }

    /// Makes the certificate of a pending transfer from its votes, taken in the
    /// order in which they came until they reach the quorum. There is a
    /// certificate exactly where the votes reach the quorum.
    pub fn create_certificate(&self, pending: &PendingTransfer) -> (result: Result<
        Option<CertifiedCrossChainTransferOrder>,
        FastPayError,
    >)
        requires
            pending.wf(&self.committee),
        ensures
            result matches Ok(certificate) && {
                &&& certificate is Some <==> pending.has_quorum(&self.committee)
                &&& certificate matches Some(certified) ==> certifies_pending(
                    certified,
                    *pending,
                    &self.committee,
                )
            },
    {
        let mut aggregator = CrossChainSignatureAggregator::new_unsafe(
            pending.order,
            &self.committee,
        );
        let count = pending.signed_orders.len();
        let ghost votes = pending.votes();
        proof {
            pending.signed_orders.lemma_entries();
            assert(votes.subrange(0, 0) =~= aggregator.votes());
        }
        let mut i: usize = 0;
        while i < count
            invariant
                i <= count,
                count == pending.signed_orders.entries().len(),
                votes == pending.votes(),
                pending.wf(&self.committee),
                keys_distinct(pending.signed_orders.entries()),
                aggregator.wf(),
                aggregator.committee() == &self.committee,
                aggregator.order() == pending.order,
                aggregator.votes() == votes.subrange(0, i as int),
                !aggregator.reached_quorum(),
            decreases count - i,
        {
            let signed = pending.signed_orders.value_at(i);
            proof {
                let entries = pending.signed_orders.entries();
                let entry = entries[i as int];
                assert(votes[i as int] == (signed.authority, signed.signature));
                assert(!has_voted(votes.subrange(0, i as int), signed.authority)) by {
                    if has_voted(votes.subrange(0, i as int), signed.authority) {
                        let j = choose|j: int|
                            0 <= j < i && votes.subrange(0, i as int)[j].0 == signed.authority;
                        assert(entries[j].1.authority.0 == entries[j].0);
                        assert(entries[j].0 == entries[i as int].0);
                    }
                }
                assert(votes.subrange(0, i as int).push(votes[i as int]) =~= votes.subrange(
                    0,
                    i + 1,
                ));
            }
            match aggregator.append(signed.authority, signed.signature) {
                Ok(Some(certificate)) => {
                    proof {
                        lemma_votes_weight_prefix(votes, &self.committee, i + 1);
                        assert(certificate.signatures@.drop_last() =~= votes.subrange(0, i as int));
                    }
                    return Ok(Some(certificate));
                },
                Ok(None) => {},
                Err(error) => {
                    return Err(error);
                },
            }
            i = i + 1;
        }
        assert(votes.subrange(0, i as int) == votes);
        Ok(None)
    }
}

/// What the relayer has to do after a round over its pending transfers.
pub struct RoundOutcome {
    /// The certificates made in this round, each to be submitted to the
    /// destination chain and sent to every shard of every authority.
    pub certificates: Vec<CertifiedCrossChainTransferOrder>,
    /// The transfers that were given up in this round.
    pub timed_out: Vec<InteropTxId>,
}

/// The certificate of a pending transfer can fail its check only on its
/// signatures: its votes have no defect and reach the quorum.
pub proof fn law_certificate_of_pending(
    certified: CertifiedCrossChainTransferOrder,
    pending: PendingTransfer,
    committee: &Committee,
)
    requires
        certifies_pending(certified, pending, committee),
    ensures
        certificate_check(certified@, committee) == spec_check_batch(
            transfer_message(pending.order.transfer),
            certificate_batch(certified@),
        ),
{
}

/// The keys of the entries whose transfer `chosen` holds of, in order.
pub open spec fn keys_where(
    entries: Seq<([u8; 32], PendingTransfer)>,
    chosen: spec_fn(PendingTransfer) -> bool,
) -> Seq<[u8; 32]>
    decreases entries.len(),
{
    if entries.len() == 0 {
        Seq::empty()
    } else if chosen(entries.last().1) {
        keys_where(entries.drop_last(), chosen).push(entries.last().0)
    } else {
        keys_where(entries.drop_last(), chosen)
    }
}

/// The keys of the entries whose votes reach the quorum, in order.
pub open spec fn quorum_keys(entries: Seq<([u8; 32], PendingTransfer)>, committee: &Committee) -> Seq<
    [u8; 32],
> {
    keys_where(entries, |pending: PendingTransfer| pending.has_quorum(committee))
}

/// The keys of the entries that are short of the quorum and have waited for
/// longer than they may at `now`, in order.
pub open spec fn expired_keys(
    entries: Seq<([u8; 32], PendingTransfer)>,
    committee: &Committee,
    now: u64,
) -> Seq<[u8; 32]> {
    keys_where(
        entries,
        |pending: PendingTransfer| !pending.has_quorum(committee) && pending.timed_out(now),
    )
}

/// A key is among the chosen keys exactly where `chosen` holds of an entry
/// under it.
pub proof fn lemma_keys_where(
    entries: Seq<([u8; 32], PendingTransfer)>,
    chosen: spec_fn(PendingTransfer) -> bool,
    id: [u8; 32],
)
    ensures
        keys_where(entries, chosen).contains(id) <==> exists|j: int|
            0 <= j < entries.len() && (#[trigger] entries[j]).0 == id && chosen(entries[j].1),
    decreases entries.len(),
{
    if entries.len() > 0 {
        let earlier = entries.drop_last();
        let keys = keys_where(entries, chosen);
        let before = keys_where(earlier, chosen);
        lemma_keys_where(earlier, chosen, id);
        if before.contains(id) {
            let j = choose|j: int|
                0 <= j < earlier.len() && (#[trigger] earlier[j]).0 == id && chosen(earlier[j].1);
            assert(entries[j] == earlier[j]);
            let k = choose|k: int| 0 <= k < before.len() && before[k] == id;
            assert(keys[k] == id);
        }
        if chosen(entries.last().1) && entries.last().0 == id {
            assert(keys[keys.len() - 1] == id);
            assert(entries[entries.len() - 1].0 == id);
        }
        if keys.contains(id) {
            let k = choose|k: int| 0 <= k < keys.len() && keys[k] == id;
            if k < before.len() {
                assert(before[k] == id);
            }
        }
        if exists|j: int|
            0 <= j < entries.len() && (#[trigger] entries[j]).0 == id && chosen(entries[j].1) {
            let j = choose|j: int|
                0 <= j < entries.len() && (#[trigger] entries[j]).0 == id && chosen(entries[j].1);
            if j < earlier.len() {
                assert(earlier[j] == entries[j]);
            }
        }
    }
}

/// The first `k + 1` keys of a list hold what the first `k` hold, and the key
/// at `k`.
proof fn lemma_longer(keys: Seq<[u8; 32]>, k: int)
    requires
        0 <= k < keys.len(),
    ensures
        forall|id: [u8; 32]| #[trigger]
            keys.subrange(0, k + 1).contains(id) <==> keys.subrange(0, k).contains(id) || id
                == keys[k],
{
    let shorter = keys.subrange(0, k);
    let longer = keys.subrange(0, k + 1);
    assert forall|id: [u8; 32]| #[trigger]
        longer.contains(id) <==> shorter.contains(id) || id == keys[k] by {
        if shorter.contains(id) {
            let n = choose|n: int| 0 <= n < shorter.len() && shorter[n] == id;
            assert(longer[n] == id);
        }
        if id == keys[k] {
            assert(longer[k] == id);
        }
        if longer.contains(id) {
            let n = choose|n: int| 0 <= n < longer.len() && longer[n] == id;
            if n < k {
                assert(shorter[n] == id);
            }
        }
    }
}

/// The identifiers of a list of transfers, as bytes.
pub open spec fn id_bytes(ids: Seq<InteropTxId>) -> Seq<[u8; 32]> {
    Seq::new(ids.len(), |i: int| ids[i].0)
}

impl Relayer {
    /// Whether the transfer `id` stays pending in a round at `now`: it is
    /// pending, short of the quorum, and has not waited for too long.
    pub open spec fn stays_pending(&self, id: [u8; 32], now: u64) -> bool {
        &&& self.pending_transfers@.contains_key(id)
        &&& !self.pending_transfers@[id].has_quorum(&self.committee)
        &&& !self.pending_transfers@[id].timed_out(now)
    }

    /// Whether the transfer `id` is certified in a round: it is pending and its
    /// votes reach the quorum.
    pub open spec fn gets_certified(&self, id: [u8; 32]) -> bool {
        &&& self.pending_transfers@.contains_key(id)
        &&& self.pending_transfers@[id].has_quorum(&self.committee)
    }

    /// Goes once over the pending transfers at `now`. A transfer whose votes
    /// reach the quorum gets its certificate and is completed; one that is
    /// short of the quorum after more than 300 seconds is given up; every other
    /// stays pending as it is.
    pub fn check_pending_transfers(&mut self, now: u64) -> (outcome: RoundOutcome)
        requires
            old(self).wf(),
        ensures
            final(self).wf(),
            final(self).committee == old(self).committee,
            final(self).polling_interval == old(self).polling_interval,
            final(self).last_poll == old(self).last_poll,
            forall|id: [u8; 32]|
                #![trigger final(self).pending_transfers@.contains_key(id)]
                #![trigger old(self).stays_pending(id, now)]
                final(self).pending_transfers@.contains_key(id) <==> old(self).stays_pending(
                    id,
                    now,
                ),
            forall|id: [u8; 32]|
                #![trigger final(self).pending_transfers@[id]]
                old(self).stays_pending(id, now) ==> final(self).pending_transfers@[id] == old(
                    self,
                ).pending_transfers@[id],
            forall|id: [u8; 32]|
                #![trigger final(self).completed_transfers@.contains(id)]
                #![trigger old(self).gets_certified(id)]
                final(self).completed_transfers@.contains(id) <==> old(
                    self,
                ).completed_transfers@.contains(id) || old(self).gets_certified(id),
            id_bytes(outcome.timed_out@) == expired_keys(
                old(self).pending_transfers.entries(),
                &old(self).committee,
                now,
            ),
            outcome.certificates@.len() == quorum_keys(
                old(self).pending_transfers.entries(),
                &old(self).committee,
            ).len(),
            forall|k: int|
                0 <= k < outcome.certificates@.len() ==> certifies_pending(
                    #[trigger] outcome.certificates@[k],
                    old(self).pending_transfers@[quorum_keys(
                        old(self).pending_transfers.entries(),
                        &old(self).committee,
                    )[k]],
                    &old(self).committee,
                ),
    {
        let ghost entries = self.pending_transfers.entries();
        let ghost before = self.pending_transfers@;
        let ghost completed_before = self.completed_transfers@;
        let mut certificates: Vec<CertifiedCrossChainTransferOrder> = Vec::new();
        let mut completed: Vec<[u8; 32]> = Vec::new();
        let mut timed_out: Vec<InteropTxId> = Vec::new();
        let quorum = self.committee.quorum_threshold();
        let count = self.pending_transfers.len();
        proof {
            self.pending_transfers.lemma_entries();
            assert(entries.subrange(0, 0) =~= Seq::<([u8; 32], PendingTransfer)>::empty());
            assert(id_bytes(timed_out@) =~= Seq::<[u8; 32]>::empty());
        }
        let mut i: usize = 0;
        while i < count
            invariant
                i <= count,
                count == entries.len(),
                *self == *old(self),
                self.wf(),
                entries == self.pending_transfers.entries(),
                before == self.pending_transfers@,
                quorum == spec_quorum(self.committee.total_votes as int),
                forall|j: int|
                    0 <= j < entries.len() ==> before.contains_key((#[trigger] entries[j]).0)
                        && before[entries[j].0] == entries[j].1,
                completed@ == quorum_keys(entries.subrange(0, i as int), &self.committee),
                id_bytes(timed_out@) == expired_keys(
                    entries.subrange(0, i as int),
                    &self.committee,
                    now,
                ),
                certificates@.len() == completed@.len(),
                forall|k: int|
                    0 <= k < certificates@.len() ==> certifies_pending(
                        #[trigger] certificates@[k],
                        before[completed@[k]],
                        &self.committee,
                    ),
            decreases count - i,
        {
            let id = self.pending_transfers.key_at(i);
            let pending = self.pending_transfers.value_at(i);
            proof {
                let longer = entries.subrange(0, i + 1);
                assert(longer.drop_last() =~= entries.subrange(0, i as int));
                assert(longer.last() == entries[i as int]);
                assert(before[entries[i as int].0] == entries[i as int].1);
            }
            if pending.weight >= quorum as u128 {
                // The quorum is reached: make the certificate.
                match self.create_certificate(pending) {
                    Ok(Some(certificate)) => {
                        certificates.push(certificate);
                        completed.push(id);
                    },
                    Ok(None) => {},
                    Err(_) => {},
                }
            } else if now >= pending.start_time && now - pending.start_time > PENDING_TIMEOUT_MS {
                timed_out.push(InteropTxId(id));
                assert(id_bytes(timed_out@) =~= expired_keys(
                    entries.subrange(0, i + 1),
                    &self.committee,
                    now,
                ));
            } else {
                assert(id_bytes(timed_out@) =~= expired_keys(
                    entries.subrange(0, i + 1),
                    &self.committee,
                    now,
                ));
            }
            i = i + 1;
        }
        assert(entries.subrange(0, i as int) == entries);
        proof {
            self.pending_transfers.lemma_entries();
            assert forall|id: [u8; 32]| completed@.contains(id) <==> old(self).gets_certified(
                id,
            ) by {
                lemma_keys_where(
                    entries,
                    |pending: PendingTransfer| pending.has_quorum(&self.committee),
                    id,
                );
                if before.contains_key(id) {
                    assert(has_key(entries, id));
                    let j = choose|j: int| 0 <= j < entries.len() && entries[j].0 == id;
                    assert(before[entries[j].0] == entries[j].1);
                }
            }
            assert forall|id: [u8; 32]|
                id_bytes(timed_out@).contains(id) <==> (before.contains_key(id)
                    && !before[id].has_quorum(&self.committee) && before[id].timed_out(now)) by {
                lemma_keys_where(
                    entries,
                    |pending: PendingTransfer|
                        !pending.has_quorum(&self.committee) && pending.timed_out(now),
                    id,
                );
                if before.contains_key(id) {
                    assert(has_key(entries, id));
                    let j = choose|j: int| 0 <= j < entries.len() && entries[j].0 == id;
                    assert(before[entries[j].0] == entries[j].1);
                }
            }
        }
        // The certified transfers are completed, and pending no longer.
        let mut k: usize = 0;
        while k < completed.len()
            invariant
                k <= completed.len(),
                self.wf(),
                self.committee == old(self).committee,
                self.polling_interval == old(self).polling_interval,
                self.last_poll == old(self).last_poll,
                forall|id: [u8; 32]|
                    self.pending_transfers@.contains_key(id) <==> before.contains_key(id)
                        && !completed@.subrange(0, k as int).contains(id),
                forall|id: [u8; 32]|
                    self.pending_transfers@.contains_key(id) ==> self.pending_transfers@[id]
                        == before[id],
                forall|id: [u8; 32]|
                    self.completed_transfers@.contains(id) <==> completed_before.contains(id)
                        || completed@.subrange(0, k as int).contains(id),
            decreases completed.len() - k,
        {
            let id = completed[k];
            let ghost shorter = completed@.subrange(0, k as int);
            let ghost longer = completed@.subrange(0, k + 1);
            proof {
                lemma_longer(completed@, k as int);
            }
            let ghost completed_then = self.completed_transfers@;
            assert(forall|other: [u8; 32]|
                completed_then.contains(other) <==> completed_before.contains(other)
                    || shorter.contains(other));
            self.pending_transfers.remove(&id);
            self.completed_transfers.insert(id);
            k = k + 1;
            assert(completed@.subrange(0, k as int) == longer);
        }
        assert(completed@.subrange(0, k as int) == completed@);
        // The transfers that waited for too long are given up.
        let mut k: usize = 0;
        while k < timed_out.len()
            invariant
                k <= timed_out.len(),
                self.wf(),
                self.committee == old(self).committee,
                self.polling_interval == old(self).polling_interval,
                self.last_poll == old(self).last_poll,
                forall|id: [u8; 32]|
                    self.pending_transfers@.contains_key(id) <==> before.contains_key(id)
                        && !completed@.contains(id) && !id_bytes(timed_out@).subrange(
                        0,
                        k as int,
                    ).contains(id),
                forall|id: [u8; 32]|
                    self.pending_transfers@.contains_key(id) ==> self.pending_transfers@[id]
                        == before[id],
                forall|id: [u8; 32]|
                    self.completed_transfers@.contains(id) <==> completed_before.contains(id)
                        || completed@.contains(id),
            decreases timed_out.len() - k,
        {
            let id = timed_out[k];
            let ghost longer = id_bytes(timed_out@).subrange(0, k + 1);
            proof {
                lemma_longer(id_bytes(timed_out@), k as int);
            }
            self.pending_transfers.remove(&id.0);
            k = k + 1;
            assert(id_bytes(timed_out@).subrange(0, k as int) == longer);
        }
        assert(id_bytes(timed_out@).subrange(0, k as int) == id_bytes(timed_out@));
        RoundOutcome { certificates, timed_out }
    }
}

} // verus!
