use vstd::prelude::*;
use vstd::string::StringExecFns;

verus! {

/// Every way in which the bridge refuses a request or fails to serve it.
#[derive(Eq, PartialEq, Clone, Debug, Hash)]
pub enum FastPayError {
    /// A signature did not verify; `error` says why.
    InvalidSignature { error: String },
    /// The value was not signed by a committee member with positive weight.
    UnknownSigner,
    /// The signatures of a certificate do not add up to a quorum.
    CertificateRequiresQuorum,
    /// The transfer was already certified on this shard.
    CertificateAlreadyExists,
    /// A descriptor is unusable, or the cross-shard bus is closed.
    ConfigurationError { error: String },
    /// Two signatures of a certificate come from one authority.
    CertificateAuthorityReuse,
    /// The escrow oracle did not confirm the lockup; `error` is the amount.
    InvalidTransferAmount { error: String },
    /// The order was sent to a shard that does not own its sender.
    WrongShard,
    /// The authority runs no shard with the given identifier.
    ShardStateNotFound,
    /// The certificate of a cross-shard update does not pass its check.
    InvalidCrossShardUpdate,
    /// The bytes are not the encoding of any message.
    InvalidDecoding,
    /// The message is not of the kind that was asked for.
    UnexpectedMessage,
    /// An authority could not be reached, or answered with a refusal.
    CommunicationError,
}

/// The mathematical value of a [`FastPayError`]: the same variants, with texts as
/// sequences of characters.
pub ghost enum FastPayErrorView {
    InvalidSignature { error: Seq<char> },
    UnknownSigner,
    CertificateRequiresQuorum,
    CertificateAlreadyExists,
    ConfigurationError { error: Seq<char> },
    CertificateAuthorityReuse,
    InvalidTransferAmount { error: Seq<char> },
    WrongShard,
    ShardStateNotFound,
    InvalidCrossShardUpdate,
    InvalidDecoding,
    UnexpectedMessage,
    CommunicationError,
}

impl View for FastPayError {
    type V = FastPayErrorView;

    open spec fn view(&self) -> FastPayErrorView {
        match self {
            FastPayError::InvalidSignature { error } => FastPayErrorView::InvalidSignature { error: error@ },
            FastPayError::UnknownSigner => FastPayErrorView::UnknownSigner,
            FastPayError::CertificateRequiresQuorum => FastPayErrorView::CertificateRequiresQuorum,
            FastPayError::CertificateAlreadyExists => FastPayErrorView::CertificateAlreadyExists,
            FastPayError::ConfigurationError { error } => FastPayErrorView::ConfigurationError { error: error@ },
            FastPayError::CertificateAuthorityReuse => FastPayErrorView::CertificateAuthorityReuse,
            FastPayError::InvalidTransferAmount { error } => FastPayErrorView::InvalidTransferAmount { error: error@ },
            FastPayError::WrongShard => FastPayErrorView::WrongShard,
            FastPayError::ShardStateNotFound => FastPayErrorView::ShardStateNotFound,
            FastPayError::InvalidCrossShardUpdate => FastPayErrorView::InvalidCrossShardUpdate,
            FastPayError::InvalidDecoding => FastPayErrorView::InvalidDecoding,
            FastPayError::UnexpectedMessage => FastPayErrorView::UnexpectedMessage,
            FastPayError::CommunicationError => FastPayErrorView::CommunicationError,
        }
    }
}

/// The mathematical value of a result whose error is a [`FastPayError`].
pub open spec fn outcome<T>(result: Result<T, FastPayError>) -> Result<T, FastPayErrorView> {
    match result {
        Ok(value) => Ok(value),
        Err(error) => Err(error@),
    }
}

/// The text `text` between double quotes, with the characters escaped that
/// `Debug` escapes in a string.
pub uninterp spec fn spec_quoted(text: Seq<char>) -> Seq<char>;

/// `format!("{:?}", ..)` on a string, which is the `Debug` of `str`: the result
/// is a function of the characters alone.
#[verifier::external_body]
fn quoted(text: &str) -> (quoted: String)
    ensures
        quoted@ == spec_quoted(text@),
{
    format!("{:?}", text)
}

/// The text that stands for an error on the wire: the name of its variant,
/// followed for a variant with a text by ` { error: `, the quoted text and ` }`.
pub open spec fn description(error: FastPayErrorView) -> Seq<char> {
    match error {
        FastPayErrorView::InvalidSignature { error } => "InvalidSignature { error: "@ + spec_quoted(error) + " }"@,
        FastPayErrorView::UnknownSigner => "UnknownSigner"@,
        FastPayErrorView::CertificateRequiresQuorum => "CertificateRequiresQuorum"@,
        FastPayErrorView::CertificateAlreadyExists => "CertificateAlreadyExists"@,
        FastPayErrorView::ConfigurationError { error } => "ConfigurationError { error: "@ + spec_quoted(error) + " }"@,
        FastPayErrorView::CertificateAuthorityReuse => "CertificateAuthorityReuse"@,
        FastPayErrorView::InvalidTransferAmount { error } => "InvalidTransferAmount { error: "@ + spec_quoted(error) + " }"@,
        FastPayErrorView::WrongShard => "WrongShard"@,
        FastPayErrorView::ShardStateNotFound => "ShardStateNotFound"@,
        FastPayErrorView::InvalidCrossShardUpdate => "InvalidCrossShardUpdate"@,
        FastPayErrorView::InvalidDecoding => "InvalidDecoding"@,
        FastPayErrorView::UnexpectedMessage => "UnexpectedMessage"@,
        FastPayErrorView::CommunicationError => "CommunicationError"@,
    }
}

/// The name of a variant, followed by its text between braces.
fn with_text(name: &str, error: &String) -> (text: String)
    ensures
        text@ == name@ + spec_quoted(error@) + " }"@,
{
    let text = String::from_str(name);
    let text = text.concat(quoted(error.as_str()).as_str());
    text.concat(" }")
}

impl FastPayError {
    /// Writes the error as it stands on the wire, which is also how `Debug`
    /// writes it.
    pub fn debug_text(&self) -> (text: String)
        ensures
            text@ == description(self@),
    {
        match self {
            FastPayError::InvalidSignature { error } => with_text("InvalidSignature { error: ", error),
            FastPayError::UnknownSigner => String::from_str("UnknownSigner"),
            FastPayError::CertificateRequiresQuorum => String::from_str("CertificateRequiresQuorum"),
            FastPayError::CertificateAlreadyExists => String::from_str("CertificateAlreadyExists"),
            FastPayError::ConfigurationError { error } => with_text("ConfigurationError { error: ", error),
            FastPayError::CertificateAuthorityReuse => String::from_str("CertificateAuthorityReuse"),
            FastPayError::InvalidTransferAmount { error } => with_text("InvalidTransferAmount { error: ", error),
            FastPayError::WrongShard => String::from_str("WrongShard"),
            FastPayError::ShardStateNotFound => String::from_str("ShardStateNotFound"),
            FastPayError::InvalidCrossShardUpdate => String::from_str("InvalidCrossShardUpdate"),
            FastPayError::InvalidDecoding => String::from_str("InvalidDecoding"),
            FastPayError::UnexpectedMessage => String::from_str("UnexpectedMessage"),
            FastPayError::CommunicationError => String::from_str("CommunicationError"),
        }
    }
}

} // verus!
