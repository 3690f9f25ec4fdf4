use crate::arrays::{bytes32_eq, bytes64_eq};
use crate::crypto::{
    ed25519_public_key, ed25519_sign, ed25519_verify, ed25519_verify_batch, sha512,
    spec_public_key, spec_sha512, spec_sign, spec_verify, spec_verify_batch,
};
use crate::error::{outcome, FastPayError, FastPayErrorView};
use vstd::bytes::{spec_u16_to_le_bytes, spec_u64_to_le_bytes, u16_to_le_bytes, u64_to_le_bytes};
use vstd::prelude::*;
use vstd::string::StringExecFns;

verus! {

/// Identifier of a blockchain.
#[derive(Debug, PartialEq, Eq, Hash, Copy, Clone, Structural)]
pub struct ChainId(pub u16);

/// A 32-byte Ed25519 public key, used as a user identity and as an authority name.
#[derive(Debug, Eq, Hash, Copy, Clone, PartialOrd, Ord)]
pub struct Pubkey(pub [u8; 32]);

/// A 64-byte Ed25519 signature over a canonical encoding.
#[derive(Eq, Copy, Clone, Debug)]
pub struct Signature(pub [u8; 64]);

/// Content hash that identifies a cross-chain transfer.
#[derive(Debug, Eq, Hash, Copy, Clone, PartialOrd, Ord)]
pub struct InteropTxId(pub [u8; 32]);

pub type ShardId = u32;

pub type AuthorityName = Pubkey;

/// Number of shards over which senders are spread.
pub const SHARD_COUNT: u32 = 16;

impl PartialEq for Pubkey {
    fn eq(&self, other: &Self) -> (same: bool) {
        bytes32_eq(&self.0, &other.0)
    }
}

impl vstd::std_specs::cmp::PartialEqSpecImpl for Pubkey {
    open spec fn obeys_eq_spec() -> bool {
        true
    }

    open spec fn eq_spec(&self, other: &Self) -> bool {
        self.0 == other.0
    }
}

impl PartialEq for InteropTxId {
    fn eq(&self, other: &Self) -> (same: bool) {
        bytes32_eq(&self.0, &other.0)
    }
}

impl vstd::std_specs::cmp::PartialEqSpecImpl for InteropTxId {
    open spec fn obeys_eq_spec() -> bool {
        true
    }

    open spec fn eq_spec(&self, other: &Self) -> bool {
        self.0 == other.0
    }
}

impl PartialEq for Signature {
    fn eq(&self, other: &Self) -> (same: bool) {
        bytes64_eq(&self.0, &other.0)
    }
}

impl vstd::std_specs::cmp::PartialEqSpecImpl for Signature {
    open spec fn obeys_eq_spec() -> bool {
        true
    }

    open spec fn eq_spec(&self, other: &Self) -> bool {
        self.0 == other.0
    }
}

impl Pubkey {
    pub fn as_ref(&self) -> (bytes: &[u8; 32])
        ensures
            *bytes == self.0,
    {
        &self.0
    }

    pub fn from_bytes(bytes: [u8; 32]) -> (key: Self)
        ensures
            key.0 == bytes,
    {
        Pubkey(bytes)
    }
}

impl From<[u8; 64]> for Signature {
    fn from(bytes: [u8; 64]) -> (signature: Self) {
        Signature(bytes)
    }
}

impl vstd::std_specs::convert::FromSpecImpl<[u8; 64]> for Signature {
    open spec fn obeys_from_spec() -> bool {
        true
    }

    open spec fn from_spec(bytes: [u8; 64]) -> Self {
        Signature(bytes)
    }
}

/// An Ed25519 secret seed together with the public key derived from it.
pub struct KeyPair {
    seed: [u8; 32],
    public: Pubkey,
}

impl KeyPair {
    #[verifier::type_invariant]
    spec fn bound(self) -> bool {
        self.public.0 == spec_public_key(self.seed)
    }

    /// The secret seed that the pair was made from.
    pub closed spec fn seed(&self) -> [u8; 32] {
        self.seed
    }

    pub fn from(secret: [u8; 32]) -> (pair: Self)
        ensures
            pair.seed() == secret,
    {
        let public = Pubkey(ed25519_public_key(&secret));
        KeyPair { seed: secret, public }
    }

    /// Whether this is the key pair of `name`: the public key of its seed is
    /// that name.
    pub open spec fn is_key_of(&self, name: Pubkey) -> bool {
        name.0 == spec_public_key(self.seed())
    }

    pub fn public(&self) -> (key: Pubkey)
        ensures
            key.0 == spec_public_key(self.seed()),
            self.is_key_of(key),
    {
        proof {
            use_type_invariant(self);
        }
        self.public
    }
}

/// The business payload of the bridge: who moves how much of which asset from
/// one chain to another.
#[derive(Debug, Eq, Hash, Clone, Copy)]
pub struct CrossChainTransfer {
    pub source_chain: ChainId,
    pub destination_chain: ChainId,
    pub sender: Pubkey,
    pub recipient: Pubkey,
    pub amount: u64,
    /// Mint address on the destination chain.
    pub token_mint: Pubkey,
    pub interop_tx_id: InteropTxId,
    /// Escrow account on the source chain.
    pub escrow_account: Pubkey,
    /// Distinguishes transfers that agree in everything else.
    pub nonce: u64,
}

impl PartialEq for CrossChainTransfer {
    fn eq(&self, other: &Self) -> (same: bool) {
        self.source_chain == other.source_chain && self.destination_chain
            == other.destination_chain && self.sender == other.sender && self.recipient
            == other.recipient && self.amount == other.amount && self.token_mint
            == other.token_mint && self.interop_tx_id == other.interop_tx_id
            && self.escrow_account == other.escrow_account && self.nonce == other.nonce
    }
}

impl vstd::std_specs::cmp::PartialEqSpecImpl for CrossChainTransfer {
    open spec fn obeys_eq_spec() -> bool {
        true
    }

    open spec fn eq_spec(&self, other: &Self) -> bool {
        *self == *other
    }
}

/// The shard that owns the transfers of `sender`.
pub open spec fn spec_shard_of(sender: Pubkey) -> ShardId {
    (sender.0[0] % 16) as u32
}

impl CrossChainTransfer {
    pub fn key(&self) -> (key: (Pubkey, InteropTxId))
        ensures
            key == (self.sender, self.interop_tx_id),
    {
        (self.sender, self.interop_tx_id)
    }

    /// The shard that processes this transfer: the first byte of the sender,
    /// modulo the number of shards.
    pub fn shard_id(&self) -> (shard: ShardId)
        ensures
            shard == spec_shard_of(self.sender),
            shard == self.sender.0[0] as int % 16,
            shard < SHARD_COUNT,
    {
        let first: u8 = self.sender.0[0];
        (first % 16) as u32
    }
}

/// The bytes that are hashed into the identifier of a transfer: the two chains,
/// sender, recipient, amount, token mint and nonce, integers in little-endian.
pub open spec fn interop_preimage(
    source_chain: ChainId,
    destination_chain: ChainId,
    sender: Pubkey,
    recipient: Pubkey,
    amount: u64,
    token_mint: Pubkey,
    nonce: u64,
) -> Seq<u8> {
    spec_u16_to_le_bytes(source_chain.0) + spec_u16_to_le_bytes(destination_chain.0) + sender.0@
        + recipient.0@ + spec_u64_to_le_bytes(amount) + token_mint.0@ + spec_u64_to_le_bytes(
        nonce,
    )
}

/// The identifier that the content of a transfer determines: the leading 32
/// bytes of the SHA-512 digest of its preimage.
pub open spec fn spec_interop_tx_id(
    source_chain: ChainId,
    destination_chain: ChainId,
    sender: Pubkey,
    recipient: Pubkey,
    amount: u64,
    token_mint: Pubkey,
    nonce: u64,
) -> Seq<u8> {
    spec_sha512(
        interop_preimage(
            source_chain,
            destination_chain,
            sender,
            recipient,
            amount,
            token_mint,
            nonce,
        ),
    ).subrange(0, 32)
}

/// Transfers that differ only in their nonce give different bytes to the hash
/// that makes their identifiers.
pub proof fn law_nonce_changes_preimage(
    source_chain: ChainId,
    destination_chain: ChainId,
    sender: Pubkey,
    recipient: Pubkey,
    amount: u64,
    token_mint: Pubkey,
    first: u64,
    second: u64,
)
    requires
        first != second,
    ensures
        interop_preimage(
            source_chain,
            destination_chain,
            sender,
            recipient,
            amount,
            token_mint,
            first,
        ) != interop_preimage(
            source_chain,
            destination_chain,
            sender,
            recipient,
            amount,
            token_mint,
            second,
        ),
{
    vstd::bytes::lemma_auto_spec_u16_to_from_le_bytes();
    vstd::bytes::lemma_auto_spec_u64_to_from_le_bytes();
    let one = interop_preimage(
        source_chain,
        destination_chain,
        sender,
        recipient,
        amount,
        token_mint,
        first,
    );
    let other = interop_preimage(
        source_chain,
        destination_chain,
        sender,
        recipient,
        amount,
        token_mint,
        second,
    );
    assert(one.subrange(108, 116) =~= spec_u64_to_le_bytes(first));
    assert(other.subrange(108, 116) =~= spec_u64_to_le_bytes(second));
    assert(vstd::bytes::spec_u64_from_le_bytes(spec_u64_to_le_bytes(first)) == first);
    assert(vstd::bytes::spec_u64_from_le_bytes(spec_u64_to_le_bytes(second)) == second);
}

impl InteropTxId {
    /// Derives the identifier of a transfer from its content.
    pub fn generate(
        source_chain: ChainId,
        destination_chain: ChainId,
        sender: Pubkey,
        recipient: Pubkey,
        amount: u64,
        token_mint: Pubkey,
        nonce: u64,
    ) -> (id: Self)
        ensures
            id.0@ == spec_interop_tx_id(
                source_chain,
                destination_chain,
                sender,
                recipient,
                amount,
                token_mint,
                nonce,
            ),
    {
        let mut preimage: Vec<u8> = Vec::new();
        let source = u16_to_le_bytes(source_chain.0);
        preimage.extend_from_slice(source.as_slice());
        let destination = u16_to_le_bytes(destination_chain.0);
        preimage.extend_from_slice(destination.as_slice());
        preimage.extend_from_slice(sender.0.as_slice());
        preimage.extend_from_slice(recipient.0.as_slice());
        let amount_bytes = u64_to_le_bytes(amount);
        preimage.extend_from_slice(amount_bytes.as_slice());
        preimage.extend_from_slice(token_mint.0.as_slice());
        let nonce_bytes = u64_to_le_bytes(nonce);
        preimage.extend_from_slice(nonce_bytes.as_slice());
        assert(preimage@ == interop_preimage(
            source_chain,
            destination_chain,
            sender,
            recipient,
            amount,
            token_mint,
            nonce,
        ));
        let digest = sha512(preimage.as_slice());
        let mut bytes = [0u8;32];
        let mut i: usize = 0;
        while i < 32
            invariant
                i <= 32,
                forall|j: int| 0 <= j < i ==> bytes[j] == digest[j],
            decreases 32 - i,
        {
            bytes[i] = digest[i];
            i = i + 1;
        }
        assert(bytes@ == digest@.subrange(0, 32));
        InteropTxId(bytes)
    }
}

/// Something that has a canonical byte image to hash and sign.
pub trait Signable<Hasher: View<V = Seq<u8>>> {
    /// The canonical byte image of the value.
    spec fn signable_bytes(&self) -> Seq<u8>;

    /// Appends the canonical byte image of the value to `hasher`.
    fn write(&self, hasher: &mut Hasher)
        ensures
            final(hasher)@ == old(hasher)@ + self.signable_bytes(),
    ;
}

/// The separator between the name of a type and the encoding of its fields.
pub open spec fn name_separator() -> Seq<u8> {
    seq![58u8, 58u8]
}

/// A value whose canonical byte image is the name of its type, the separator
/// `::`, and the binary encoding of its fields in declared order, with integers
/// of fixed width in little-endian.
pub trait BcsSignable {
    /// The name of the type, in UTF-8.
    spec fn signing_name() -> Seq<u8>;

    /// The binary encoding of the fields.
    spec fn field_bytes(&self) -> Seq<u8>;

    /// Appends the name of the type to `out`.
    fn write_signing_name(out: &mut Vec<u8>)
        ensures
            final(out)@ == old(out)@ + Self::signing_name(),
    ;

    /// Appends the binary encoding of the fields to `out`.
    fn serialize_into(&self, out: &mut Vec<u8>)
        ensures
            final(out)@ == old(out)@ + self.field_bytes(),
    ;
}

impl<T: BcsSignable> Signable<Vec<u8>> for T {
    open spec fn signable_bytes(&self) -> Seq<u8> {
        T::signing_name() + name_separator() + self.field_bytes()
    }

    fn write(&self, hasher: &mut Vec<u8>) {
        T::write_signing_name(hasher);
        hasher.push(58u8);
        hasher.push(58u8);
        self.serialize_into(hasher);
        assert(hasher@ == old(hasher)@ + self.signable_bytes());
    }
}

/// The name `CrossChainTransfer`, in UTF-8.
pub open spec fn transfer_type_name() -> Seq<u8> {
    seq![
        67u8, 114u8, 111u8, 115u8, 115u8, 67u8, 104u8, 97u8, 105u8, 110u8, 84u8, 114u8, 97u8,
        110u8, 115u8, 102u8, 101u8, 114u8,
    ]
}

impl CrossChainTransfer {
    /// The binary encoding of the fields of the transfer, 180 bytes.
    pub open spec fn encoding(&self) -> Seq<u8> {
        spec_u16_to_le_bytes(self.source_chain.0) + spec_u16_to_le_bytes(self.destination_chain.0)
            + self.sender.0@ + self.recipient.0@ + spec_u64_to_le_bytes(self.amount)
            + self.token_mint.0@ + self.interop_tx_id.0@ + self.escrow_account.0@
            + spec_u64_to_le_bytes(self.nonce)
    }

    /// Appends the binary encoding of the fields of the transfer to `out`.
    pub fn encode_into(&self, out: &mut Vec<u8>)
        ensures
            final(out)@ == old(out)@ + self.encoding(),
    {
        let source = u16_to_le_bytes(self.source_chain.0);
        out.extend_from_slice(source.as_slice());
        let destination = u16_to_le_bytes(self.destination_chain.0);
        out.extend_from_slice(destination.as_slice());
        out.extend_from_slice(self.sender.0.as_slice());
        out.extend_from_slice(self.recipient.0.as_slice());
        let amount = u64_to_le_bytes(self.amount);
        out.extend_from_slice(amount.as_slice());
        out.extend_from_slice(self.token_mint.0.as_slice());
        out.extend_from_slice(self.interop_tx_id.0.as_slice());
        out.extend_from_slice(self.escrow_account.0.as_slice());
        let nonce = u64_to_le_bytes(self.nonce);
        out.extend_from_slice(nonce.as_slice());
        assert(out@ == old(out)@ + self.encoding());
    }
}

impl BcsSignable for CrossChainTransfer {
    open spec fn signing_name() -> Seq<u8> {
        transfer_type_name()
    }

    open spec fn field_bytes(&self) -> Seq<u8> {
        self.encoding()
    }

    fn write_signing_name(out: &mut Vec<u8>) {
        let name: [u8; 18] = [
            67, 114, 111, 115, 115, 67, 104, 97, 105, 110, 84, 114, 97, 110, 115, 102, 101, 114,
        ];
        out.extend_from_slice(name.as_slice());
        assert(name@ == transfer_type_name());
    }

    fn serialize_into(&self, out: &mut Vec<u8>) {
        self.encode_into(out);
    }
}

/// What checking one signature gives: success where the verifier accepts
/// `signature` over `message` under `author`, else `InvalidSignature` with the
/// verifier's words.
pub open spec fn spec_check_signature(signature: Signature, message: Seq<u8>, author: Pubkey)
    -> Result<(), FastPayErrorView> {
    match spec_verify(author.0, message, signature.0) {
        None => Ok(()),
        Some(text) => Err(
            FastPayErrorView::InvalidSignature { error: text + " --- from check signature"@ },
        ),
    }
}

/// The public keys of a list of votes, in order.
pub open spec fn vote_keys(votes: Seq<(Pubkey, Signature)>) -> Seq<[u8; 32]> {
    Seq::new(votes.len(), |i: int| votes[i].0.0)
}

/// The signatures of a list of votes, in order.
pub open spec fn vote_signatures(votes: Seq<(Pubkey, Signature)>) -> Seq<[u8; 64]> {
    Seq::new(votes.len(), |i: int| votes[i].1.0)
}

/// What checking a list of votes over one message in a single batch gives:
/// success where the verifier accepts the batch, else `InvalidSignature` with the
/// verifier's words.
pub open spec fn spec_check_batch(message: Seq<u8>, votes: Seq<(Pubkey, Signature)>) -> Result<
    (),
    FastPayErrorView,
> {
    match spec_verify_batch(message, vote_keys(votes), vote_signatures(votes)) {
        None => Ok(()),
        Some(text) => Err(
            FastPayErrorView::InvalidSignature { error: text + " --- from verify signature"@ },
        ),
    }
}

impl Signature {
    /// Signs the canonical byte image of `value` with `secret`. The signature
    /// passes its check under the name whose key pair `secret` is.
    pub fn new<T>(value: &T, secret: &KeyPair) -> (signature: Self) where T: Signable<Vec<u8>>
        ensures
            signature.0 == spec_sign(secret.seed(), value.signable_bytes()),
            forall|author: Pubkey|
                secret.is_key_of(author) ==> #[trigger] spec_check_signature(
                    signature,
                    value.signable_bytes(),
                    author,
                ) is Ok,
    {
        let mut message: Vec<u8> = Vec::new();
        value.write(&mut message);
        assert(message@ == value.signable_bytes());
        Signature(ed25519_sign(&secret.seed, message.as_slice()))
    }

    /// Checks that this is the signature of `author` over the canonical byte
    /// image of `value`.
    pub fn check<T>(&self, value: &T, author: Pubkey) -> (result: Result<(), FastPayError>) where
        T: Signable<Vec<u8>>,

        ensures
            outcome(result) == spec_check_signature(*self, value.signable_bytes(), author),
    {
        let mut message: Vec<u8> = Vec::new();
        value.write(&mut message);
        assert(message@ == value.signable_bytes());
        match ed25519_verify(&author.0, message.as_slice(), &self.0) {
            Ok(()) => Ok(()),
            Err(text) => Err(
                FastPayError::InvalidSignature { error: text.concat(" --- from check signature") },
            ),
        }
    }

    /// Checks in a single batch that every vote signs the canonical byte image
    /// of `value`: all of them are accepted, or none is.
    pub fn verify_batch<T>(value: &T, votes: &Vec<(Pubkey, Signature)>) -> (result: Result<
        (),
        FastPayError,
    >) where T: Signable<Vec<u8>>
        ensures
            outcome(result) == spec_check_batch(value.signable_bytes(), votes@),
    {
        let mut message: Vec<u8> = Vec::new();
        value.write(&mut message);
        assert(message@ == value.signable_bytes());
        let mut keys: Vec<[u8; 32]> = Vec::new();
        let mut signatures: Vec<[u8; 64]> = Vec::new();
        let mut i: usize = 0;
        while i < votes.len()
            invariant
                i <= votes.len(),
                keys@ == vote_keys(votes@.subrange(0, i as int)),
                signatures@ == vote_signatures(votes@.subrange(0, i as int)),
            decreases votes.len() - i,
        {
            keys.push(votes[i].0.0);
            signatures.push(votes[i].1.0);
            i = i + 1;
            assert(keys@ == vote_keys(votes@.subrange(0, i as int)));
            assert(signatures@ == vote_signatures(votes@.subrange(0, i as int)));
        }
        assert(votes@.subrange(0, i as int) == votes@);
        match ed25519_verify_batch(message.as_slice(), &keys, &signatures) {
            Ok(()) => Ok(()),
            Err(text) => Err(
                FastPayError::InvalidSignature {
                    error: text.concat(" --- from verify signature"),
                },
            ),
        }
    }
}

} // verus!
