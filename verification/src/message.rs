use crate::base_types::{
    name_separator, spec_check_batch, spec_check_signature, transfer_type_name, AuthorityName,
    CrossChainTransfer, InteropTxId, KeyPair, Pubkey, ShardId, Signature,
};
use crate::committee::{lemma_rights_fit, spec_quorum, Committee};
use crate::crypto::spec_sign;
use crate::error::{outcome, FastPayError, FastPayErrorView};
use vstd::prelude::*;

verus! {

/// A transfer with the signature of its sender.
#[derive(Eq, Copy, Clone, Debug)]
pub struct CrossChainTransferOrder {
    pub transfer: CrossChainTransfer,
    pub signature: Signature,
}

/// An order countersigned by one authority.
#[derive(Eq, Copy, Clone, Debug)]
pub struct SignedCrossChainTransferOrder {
    pub value: CrossChainTransferOrder,
    pub authority: AuthorityName,
    pub signature: Signature,
}

/// An order with the signatures of a quorum of authorities.
#[derive(Eq, Debug)]
pub struct CertifiedCrossChainTransferOrder {
    pub value: CrossChainTransferOrder,
    pub signatures: Vec<(AuthorityName, Signature)>,
}

#[derive(Eq, PartialEq, Clone, Debug)]
pub struct CrossChainRedeemTransaction {
    pub transfer_certificate: CertifiedCrossChainTransferOrder,
}

#[derive(Eq, PartialEq, Clone, Debug)]
pub struct CrossChainConfirmationOrder {
    pub transfer_certificate: CertifiedCrossChainTransferOrder,
}

/// Tells one shard of an authority that a transfer was certified.
#[derive(Eq, PartialEq, Clone, Debug)]
pub struct CrossShardCrossChainUpdate {
    pub shard_id: ShardId,
    pub transfer_certificate: CertifiedCrossChainTransferOrder,
}

/// The mathematical value of a certificate: its order and the list of its votes.
pub ghost struct CertificateView {
    pub value: CrossChainTransferOrder,
    pub signatures: Seq<(AuthorityName, Signature)>,
}

impl View for CertifiedCrossChainTransferOrder {
    type V = CertificateView;

    open spec fn view(&self) -> CertificateView {
        CertificateView { value: self.value, signatures: self.signatures@ }
    }
}

/// The mathematical value of a cross-shard update.
pub ghost struct UpdateView {
    pub shard_id: ShardId,
    pub transfer_certificate: CertificateView,
}

impl View for CrossShardCrossChainUpdate {
    type V = UpdateView;

    open spec fn view(&self) -> UpdateView {
        UpdateView { shard_id: self.shard_id, transfer_certificate: self.transfer_certificate@ }
    }
}

/// The canonical byte image of a transfer, which every signature is made over.
pub open spec fn transfer_message(transfer: CrossChainTransfer) -> Seq<u8> {
    transfer_type_name() + name_separator() + transfer.encoding()
}

/// The authorities of a list of votes, in order.
pub open spec fn vote_names(votes: Seq<(AuthorityName, Signature)>) -> Seq<AuthorityName> {
    Seq::new(votes.len(), |i: int| votes[i].0)
}

impl Clone for CertifiedCrossChainTransferOrder {
    fn clone(&self) -> (copy: Self)
        ensures
            copy.value == self.value,
            copy.signatures@ == self.signatures@,
    {
        let mut signatures: Vec<(AuthorityName, Signature)> = Vec::new();
        let mut i: usize = 0;
        while i < self.signatures.len()
            invariant
                i <= self.signatures.len(),
                signatures@ == self.signatures@.subrange(0, i as int),
            decreases self.signatures.len() - i,
        {
            signatures.push(self.signatures[i]);
            i = i + 1;
        }
        assert(self.signatures@.subrange(0, i as int) == self.signatures@);
        CertifiedCrossChainTransferOrder { value: self.value, signatures }
    }
}

impl PartialEq for CrossChainTransferOrder {
    /// Orders are the same where their transfers are: the signature is not compared.
    fn eq(&self, other: &Self) -> (same: bool) {
        self.transfer == other.transfer
    }
}

impl vstd::std_specs::cmp::PartialEqSpecImpl for CrossChainTransferOrder {
    open spec fn obeys_eq_spec() -> bool {
        true
    }

    open spec fn eq_spec(&self, other: &Self) -> bool {
        self.transfer == other.transfer
    }
}

impl PartialEq for SignedCrossChainTransferOrder {
    /// Signed orders are the same where their transfers and authorities are.
    fn eq(&self, other: &Self) -> (same: bool) {
        self.value == other.value && self.authority == other.authority
    }
}

impl vstd::std_specs::cmp::PartialEqSpecImpl for SignedCrossChainTransferOrder {
    open spec fn obeys_eq_spec() -> bool {
        true
    }

    open spec fn eq_spec(&self, other: &Self) -> bool {
        self.value.transfer == other.value.transfer && self.authority == other.authority
    }
}

impl PartialEq for CertifiedCrossChainTransferOrder {
    /// Certificates are the same where their transfers are and the same
    /// authorities signed in the same order.
    fn eq(&self, other: &Self) -> (same: bool) {
        if !(self.value == other.value) {
            return false;
        }
        if self.signatures.len() != other.signatures.len() {
            assert(vote_names(self.signatures@).len() != vote_names(other.signatures@).len());
            return false;
        }
        let mut i: usize = 0;
        while i < self.signatures.len()
            invariant
                i <= self.signatures.len(),
                self.signatures.len() == other.signatures.len(),
                forall|j: int| 0 <= j < i ==> self.signatures[j].0 == other.signatures[j].0,
            decreases self.signatures.len() - i,
        {
            if !(self.signatures[i].0 == other.signatures[i].0) {
                assert(vote_names(self.signatures@)[i as int] != vote_names(
                    other.signatures@,
                )[i as int]);
                return false;
            }
            i = i + 1;
        }
        assert(vote_names(self.signatures@) == vote_names(other.signatures@));
        true
    }
}

impl vstd::std_specs::cmp::PartialEqSpecImpl for CertifiedCrossChainTransferOrder {
    open spec fn obeys_eq_spec() -> bool {
        true
    }

    open spec fn eq_spec(&self, other: &Self) -> bool {
        &&& self.value.transfer == other.value.transfer
        &&& vote_names(self.signatures@) == vote_names(other.signatures@)
    }
}

impl CrossChainTransferOrder {
    /// Signs `transfer` with `secret`. Where that is the key pair of the sender,
    /// the order passes the check of its signature.
    pub fn new(transfer: CrossChainTransfer, secret: &KeyPair) -> (order: Self)
        ensures
            order.transfer == transfer,
            order.signature.0 == spec_sign(secret.seed(), transfer_message(transfer)),
            secret.is_key_of(transfer.sender) ==> order.spec_check_signature() is Ok,
    {
        let signature = Signature::new(&transfer, secret);
        Self { transfer, signature }
    }

    /// What checking the sender's signature gives.
    pub open spec fn spec_check_signature(&self) -> Result<(), FastPayErrorView> {
        spec_check_signature(self.signature, transfer_message(self.transfer), self.transfer.sender)
    }

    /// Checks that the sender of the transfer signed it.
    pub fn check_signature(&self) -> (result: Result<(), FastPayError>)
        ensures
            outcome(result) == self.spec_check_signature(),
    {
        self.signature.check(&self.transfer, self.transfer.sender)
    }
}

impl SignedCrossChainTransferOrder {
    /// Countersigns `value` as `authority`, with `secret`. Where that is the key
    /// pair of `authority`, the countersignature passes its check under that
    /// name.
    pub fn new(value: CrossChainTransferOrder, authority: AuthorityName, secret: &KeyPair) -> (signed:
        Self)
        ensures
            signed.value == value,
            signed.authority == authority,
            signed.signature.0 == spec_sign(secret.seed(), transfer_message(value.transfer)),
            secret.is_key_of(authority) ==> spec_check_signature(
                signed.signature,
                transfer_message(value.transfer),
                authority,
            ) is Ok,
    {
        let signature = Signature::new(&value.transfer, secret);
        Self { value, authority, signature }
    }

    /// What checking the vote against `committee` gives: the first of a sender's
    /// signature that fails, an authority without weight and an authority's
    /// signature that fails; else the authority's weight.
    pub open spec fn spec_check(&self, committee: &Committee) -> Result<usize, FastPayErrorView> {
        match self.value.spec_check_signature() {
            Err(error) => Err(error),
            Ok(()) => if committee.spec_weight(self.authority) == 0 {
                Err(FastPayErrorView::UnknownSigner)
            } else {
                match spec_check_signature(
                    self.signature,
                    transfer_message(self.value.transfer),
                    self.authority,
                ) {
                    Err(error) => Err(error),
                    Ok(()) => Ok(committee.spec_weight(self.authority)),
                }
            },
        }
    }

    /// Verifies both signatures and returns the voting right of the authority,
    /// which is not zero.
    pub fn check(&self, committee: &Committee) -> (result: Result<usize, FastPayError>)
        ensures
            outcome(result) == self.spec_check(committee),
            result matches Ok(weight) ==> weight > 0,
    {
        match self.value.check_signature() {
            Err(error) => {
                return Err(error);
            },
            Ok(()) => {},
        }
        let weight = committee.weight(&self.authority);
        if weight == 0 {
            return Err(FastPayError::UnknownSigner);
        }
        match self.signature.check(&self.value.transfer, self.authority) {
            Err(error) => Err(error),
            Ok(()) => Ok(weight),
        }
    }
}

/// Whether `author` is among the authorities of `votes`.
pub open spec fn has_voted(votes: Seq<(AuthorityName, Signature)>, author: AuthorityName) -> bool {
    exists|i: int| 0 <= i < votes.len() && votes[i].0 == author
}

/// No authority occurs twice in `votes`.
pub open spec fn votes_distinct(votes: Seq<(AuthorityName, Signature)>) -> bool {
    forall|i: int, j: int| 0 <= i < j < votes.len() ==> votes[i].0 != votes[j].0
}

/// Every authority of `votes` has a voting right in `committee`.
pub open spec fn votes_known(votes: Seq<(AuthorityName, Signature)>, committee: &Committee) -> bool {
    forall|i: int| 0 <= i < votes.len() ==> committee.spec_weight(#[trigger] votes[i].0) > 0
}

/// The sum of the voting rights that `committee` gives to the authorities of
/// `votes`.
pub open spec fn votes_weight(votes: Seq<(AuthorityName, Signature)>, committee: &Committee) -> int
    decreases votes.len(),
{
    if votes.len() == 0 {
        0
    } else {
        votes_weight(votes.drop_last(), committee) + committee.spec_weight(votes.last().0)
    }
}

/// What is wrong with the first vote of `votes` that comes from an authority
/// that voted before it (authority reuse) or from one without a voting right
/// (unknown signer); `None` where there is no such vote.
pub open spec fn first_defect(votes: Seq<(AuthorityName, Signature)>, committee: &Committee)
    -> Option<FastPayErrorView>
    decreases votes.len(),
{
    if votes.len() == 0 {
        None
    } else {
        match first_defect(votes.drop_last(), committee) {
            Some(error) => Some(error),
            None => if has_voted(votes.drop_last(), votes.last().0) {
                Some(FastPayErrorView::CertificateAuthorityReuse)
            } else if committee.spec_weight(votes.last().0) == 0 {
                Some(FastPayErrorView::UnknownSigner)
            } else {
                None
            },
        }
    }
}

/// A list of votes has no defect exactly where its authorities are pairwise
/// distinct members of the committee.
pub proof fn lemma_no_defect(votes: Seq<(AuthorityName, Signature)>, committee: &Committee)
    ensures
        first_defect(votes, committee) is None <==> votes_distinct(votes) && votes_known(
            votes,
            committee,
        ),
    decreases votes.len(),
{
    if votes.len() > 0 {
        let earlier = votes.drop_last();
        let last = votes.len() - 1;
        lemma_no_defect(earlier, committee);
        if first_defect(votes, committee) is None {
            assert forall|i: int, j: int| 0 <= i < j < votes.len() implies votes[i].0
                != votes[j].0 by {
                if j == last {
                    assert(earlier[i].0 == votes[i].0);
                } else {
                    assert(earlier[i].0 == votes[i].0 && earlier[j].0 == votes[j].0);
                }
            }
            assert forall|i: int| 0 <= i < votes.len() implies committee.spec_weight(
                #[trigger] votes[i].0,
            ) > 0 by {
                if i < last {
                    assert(earlier[i].0 == votes[i].0);
                }
            }
        }
        if votes_distinct(votes) && votes_known(votes, committee) {
            assert forall|i: int, j: int| 0 <= i < j < earlier.len() implies earlier[i].0
                != earlier[j].0 by {
                assert(earlier[i].0 == votes[i].0 && earlier[j].0 == votes[j].0);
            }
            assert forall|i: int| 0 <= i < earlier.len() implies committee.spec_weight(
                #[trigger] earlier[i].0,
            ) > 0 by {
                assert(earlier[i].0 == votes[i].0);
            }
            assert(!has_voted(earlier, votes.last().0)) by {
                if has_voted(earlier, votes.last().0) {
                    let i = choose|i: int| 0 <= i < earlier.len() && earlier[i].0 == votes.last().0;
                    assert(votes[i].0 == votes[last].0);
                }
            }
            assert(committee.spec_weight(votes[last].0) > 0);
        }
    }
}

/// A defect among the first `n` votes is the first defect of the whole list.
pub proof fn lemma_defect_of_prefix(
    votes: Seq<(AuthorityName, Signature)>,
    committee: &Committee,
    n: int,
)
    requires
        0 <= n <= votes.len(),
        first_defect(votes.subrange(0, n), committee) is Some,
    ensures
        first_defect(votes, committee) == first_defect(votes.subrange(0, n), committee),
    decreases votes.len(),
{
    if n == votes.len() {
        assert(votes.subrange(0, n) == votes);
    } else {
        assert(votes.drop_last().subrange(0, n) == votes.subrange(0, n));
        lemma_defect_of_prefix(votes.drop_last(), committee, n);
    }
}

/// The weight of a list of votes is at most the largest voting right for each.
pub proof fn lemma_votes_weight_bound(
    votes: Seq<(AuthorityName, Signature)>,
    committee: &Committee,
)
    ensures
        0 <= votes_weight(votes, committee) <= votes.len() * usize::MAX,
    decreases votes.len(),
{
    if votes.len() > 0 {
        lemma_votes_weight_bound(votes.drop_last(), committee);
        assert((votes.len() - 1) * usize::MAX + usize::MAX == votes.len() * usize::MAX)
            by (nonlinear_arith);
    }
}

/// Whether `author` is among the authorities of the first `bound` votes.
fn voted_before(votes: &Vec<(AuthorityName, Signature)>, bound: usize, author: &AuthorityName) -> (found:
    bool)
    requires
        bound <= votes.len(),
    ensures
        found == has_voted(votes@.subrange(0, bound as int), *author),
{
    let mut i: usize = 0;
    while i < bound
        invariant
            i <= bound <= votes.len(),
            forall|j: int| 0 <= j < i ==> votes[j].0 != *author,
        decreases bound - i,
    {
        if votes[i].0 == *author {
            assert(votes@.subrange(0, bound as int)[i as int].0 == *author);
            return true;
        }
        i = i + 1;
    }
    assert forall|j: int| 0 <= j < bound implies votes@.subrange(0, bound as int)[j].0
        != *author by {
        assert(votes@.subrange(0, bound as int)[j] == votes[j]);
    }
    false
}

/// The signatures of a certificate that are verified in one batch: that of the
/// sender, then those of the authorities.
pub open spec fn certificate_batch(certificate: CertificateView) -> Seq<(Pubkey, Signature)> {
    seq![(certificate.value.transfer.sender, certificate.value.signature)]
        + certificate.signatures
}

/// What checking a certificate against `committee` gives: the first defect
/// among its votes; else `CertificateRequiresQuorum` where their weight is under
/// the quorum; else what verifying all signatures in one batch gives.
pub open spec fn certificate_check(certificate: CertificateView, committee: &Committee) -> Result<
    (),
    FastPayErrorView,
> {
    match first_defect(certificate.signatures, committee) {
        Some(error) => Err(error),
        None => if votes_weight(certificate.signatures, committee) < spec_quorum(
            committee.total_votes as int,
        ) {
            Err(FastPayErrorView::CertificateRequiresQuorum)
        } else {
            spec_check_batch(
                transfer_message(certificate.value.transfer),
                certificate_batch(certificate),
            )
        },
    }
}

/// A certificate that passes its check is signed by pairwise distinct members
/// of the committee, whose voting rights reach the quorum.
pub proof fn law_checked_certificate(certificate: CertificateView, committee: &Committee)
    requires
        certificate_check(certificate, committee) is Ok,
    ensures
        votes_distinct(certificate.signatures),
        votes_known(certificate.signatures, committee),
        votes_weight(certificate.signatures, committee) >= spec_quorum(
            committee.total_votes as int,
        ),
{
    lemma_no_defect(certificate.signatures, committee);
}

/// A certificate in which one authority signs twice does not pass its check.
pub proof fn law_repeated_authority(
    certificate: CertificateView,
    committee: &Committee,
    i: int,
    j: int,
)
    requires
        0 <= i < j < certificate.signatures.len(),
        certificate.signatures[i].0 == certificate.signatures[j].0,
    ensures
        certificate_check(certificate, committee) is Err,
{
    lemma_no_defect(certificate.signatures, committee);
}

/// A certificate whose votes weigh less than the quorum, be it by one, does not
/// pass its check; one without defect whose votes weigh the quorum or more
/// passes exactly where its signatures verify as one batch.
pub proof fn law_quorum_boundary(certificate: CertificateView, committee: &Committee)
    ensures
        votes_weight(certificate.signatures, committee) < spec_quorum(
            committee.total_votes as int,
        ) ==> certificate_check(certificate, committee) is Err,
        votes_weight(certificate.signatures, committee) >= spec_quorum(
            committee.total_votes as int,
        ) && votes_distinct(certificate.signatures) && votes_known(
            certificate.signatures,
            committee,
        ) ==> certificate_check(certificate, committee) == spec_check_batch(
            transfer_message(certificate.value.transfer),
            certificate_batch(certificate),
        ),
{
    lemma_no_defect(certificate.signatures, committee);
}

impl CertifiedCrossChainTransferOrder {
    pub fn key(&self) -> (key: (Pubkey, InteropTxId))
        ensures
            key == (self.value.transfer.sender, self.value.transfer.interop_tx_id),
    {
        let transfer = &self.value.transfer;
        (transfer.sender, transfer.interop_tx_id)
    }

    /// What checking the certificate against `committee` gives.
    pub open spec fn spec_check(&self, committee: &Committee) -> Result<(), FastPayErrorView> {
        certificate_check(self@, committee)
    }

    /// Verifies the certificate: its authorities are pairwise distinct members
    /// of the committee, their voting rights reach the quorum, and the
    /// signatures of the sender and of every authority pass as one batch.
    pub fn check(&self, committee: &Committee) -> (result: Result<(), FastPayError>)
        ensures
            outcome(result) == self.spec_check(committee),
            result is Ok ==> {
                &&& votes_distinct(self.signatures@)
                &&& votes_known(self.signatures@, committee)
                &&& votes_weight(self.signatures@, committee) >= spec_quorum(
                    committee.total_votes as int,
                )
            },
    {
        let mut weight: u128 = 0;
        let mut batch: Vec<(Pubkey, Signature)> = Vec::new();
        batch.push((self.value.transfer.sender, self.value.signature));
        let mut i: usize = 0;
        assert(self.signatures@.subrange(0, 0) == Seq::<(AuthorityName, Signature)>::empty());
        while i < self.signatures.len()
            invariant
                i <= self.signatures.len(),
                first_defect(self.signatures@.subrange(0, i as int), committee) is None,
                weight == votes_weight(self.signatures@.subrange(0, i as int), committee),
                batch@ == seq![(self.value.transfer.sender, self.value.signature)]
                    + self.signatures@.subrange(0, i as int),
            decreases self.signatures.len() - i,
        {
            let ghost earlier = self.signatures@.subrange(0, i as int);
            let ghost votes = self.signatures@.subrange(0, i + 1);
            let authority = self.signatures[i].0;
            proof {
                assert(votes.drop_last() == earlier);
                assert(votes.last() == self.signatures[i as int]);
                lemma_votes_weight_bound(earlier, committee);
                lemma_rights_fit(earlier.len() as int);
            }
            // Each authority signs once.
            if voted_before(&self.signatures, i, &authority) {
                proof {
                    lemma_defect_of_prefix(self.signatures@, committee, i + 1);
                }
                return Err(FastPayError::CertificateAuthorityReuse);
            }
            let voting_rights = committee.weight(&authority);
            if voting_rights == 0 {
                proof {
                    lemma_defect_of_prefix(self.signatures@, committee, i + 1);
                }
                return Err(FastPayError::UnknownSigner);
            }
            weight = weight + voting_rights as u128;
            batch.push(self.signatures[i]);
            i = i + 1;
        }
        assert(self.signatures@.subrange(0, i as int) == self.signatures@);
        proof {
            lemma_no_defect(self.signatures@, committee);
        }
        if weight < committee.quorum_threshold() as u128 {
            return Err(FastPayError::CertificateRequiresQuorum);
        }
        // All that is left is the signatures.
        Signature::verify_batch(&self.value.transfer, &batch)
    }
}

/// Collects the votes of authorities on one order until they make a certificate.
pub struct CrossChainSignatureAggregator<'a> {
    committee: &'a Committee,
    weight: u128,
    partial: CertifiedCrossChainTransferOrder,
}

impl<'a> CrossChainSignatureAggregator<'a> {
    /// The accepted votes come from pairwise distinct members of the committee,
    /// and the weight kept is the sum of their voting rights.
    pub closed spec fn wf(&self) -> bool {
        &&& first_defect(self.partial.signatures@, self.committee) is None
        &&& self.weight == votes_weight(self.partial.signatures@, self.committee)
    }

    /// The committee whose members vote.
    pub closed spec fn committee(&self) -> &'a Committee {
        self.committee
    }

    /// The order that is voted on.
    pub closed spec fn order(&self) -> CrossChainTransferOrder {
        self.partial.value
    }

    /// The votes accepted so far, in the order in which they came.
    pub closed spec fn votes(&self) -> Seq<(AuthorityName, Signature)> {
        self.partial.signatures@
    }

    /// Starts to collect votes on `value`, after checking the sender's signature.
    pub fn try_new(value: CrossChainTransferOrder, committee: &'a Committee) -> (result: Result<
        Self,
        FastPayError,
    >)
        ensures
            match result {
                Ok(aggregator) => {
                    &&& value.spec_check_signature() is Ok
                    &&& aggregator.wf()
                    &&& aggregator.committee() == committee
                    &&& aggregator.order() == value
                    &&& aggregator.votes() == Seq::<(AuthorityName, Signature)>::empty()
                },
                Err(error) => value.spec_check_signature() == Err::<(), FastPayErrorView>(error@),
            },
    {
        match value.check_signature() {
            Err(error) => Err(error),
            Ok(()) => Ok(Self::new_unsafe(value, committee)),
        }
    }

    /// Starts to collect votes on `value` without checking the sender's
    /// signature: for callers that have checked it.
    pub fn new_unsafe(value: CrossChainTransferOrder, committee: &'a Committee) -> (aggregator: Self)
        ensures
            aggregator.wf(),
            aggregator.committee() == committee,
            aggregator.order() == value,
            aggregator.votes() == Seq::<(AuthorityName, Signature)>::empty(),
    {
        Self {
            committee,
            weight: 0,
            partial: CertifiedCrossChainTransferOrder { value, signatures: Vec::new() },
        }
    }

    /// What appending the vote of `authority` gives: a refusal, which leaves the
    /// votes as they are, or the votes with the new one at their end.
    pub open spec fn spec_append(&self, authority: AuthorityName, signature: Signature) -> Result<
        Seq<(AuthorityName, Signature)>,
        FastPayErrorView,
    > {
        if has_voted(self.votes(), authority) {
            Err(FastPayErrorView::CertificateAuthorityReuse)
        } else if self.committee().spec_weight(authority) == 0 {
            Err(FastPayErrorView::UnknownSigner)
        } else {
            match spec_check_signature(signature, transfer_message(self.order().transfer), authority) {
                Err(error) => Err(error),
                Ok(()) => Ok(self.votes().push((authority, signature))),
            }
        }
    }

    /// Whether the accepted votes reach the quorum.
    pub open spec fn reached_quorum(&self) -> bool {
        votes_weight(self.votes(), self.committee()) >= spec_quorum(
            self.committee().total_votes as int,
        )
    }

    /// Appends the vote of `authority`. Refuses an authority that has already
    /// voted, one without a voting right, and a signature that does not verify,
    /// in this order, and then changes nothing. Returns the certificate once the
    /// accepted votes reach the quorum.
    pub fn append(&mut self, authority: AuthorityName, signature: Signature) -> (result: Result<
        Option<CertifiedCrossChainTransferOrder>,
        FastPayError,
    >)
        requires
            old(self).wf(),
        ensures
            final(self).wf(),
            final(self).committee() == old(self).committee(),
            final(self).order() == old(self).order(),
            first_defect(final(self).votes(), final(self).committee()) is None,
            match result {
                Ok(certificate) => {
                    &&& old(self).spec_append(authority, signature) == Ok::<
                        Seq<(AuthorityName, Signature)>,
                        FastPayErrorView,
                    >(final(self).votes())
                    &&& certificate is Some <==> final(self).reached_quorum()
                    &&& certificate matches Some(certified) ==> {
                        &&& certified.value == old(self).order()
                        &&& certified.signatures@ == final(self).votes()
                    }
                },
                Err(error) => {
                    &&& old(self).spec_append(authority, signature) == Err::<
                        Seq<(AuthorityName, Signature)>,
                        FastPayErrorView,
                    >(error@)
                    &&& final(self).votes() == old(self).votes()
                },
            },
    {
        let count = self.partial.signatures.len();
        assert(self.partial.signatures@.subrange(0, count as int) == self.partial.signatures@);
        // Each authority votes once.
        if voted_before(&self.partial.signatures, count, &authority) {
            return Err(FastPayError::CertificateAuthorityReuse);
        }
        let voting_rights = self.committee.weight(&authority);
        if voting_rights == 0 {
            return Err(FastPayError::UnknownSigner);
        }
        match signature.check(&self.partial.value.transfer, authority) {
            Err(error) => {
                return Err(error);
            },
            Ok(()) => {},
        }
        let quorum = self.committee.quorum_threshold();
        assert(self.partial.signatures@.push((authority, signature)).drop_last()
            == self.partial.signatures@);
        proof {
            lemma_votes_weight_bound(self.partial.signatures@, self.committee);
            lemma_rights_fit(count as int);
        }
        self.weight = self.weight + voting_rights as u128;
        self.partial.signatures.push((authority, signature));
        if self.weight >= quorum as u128 {
            Ok(Some(self.partial.clone()))
        } else {
            Ok(None)
        }
    }
}

} // verus!
