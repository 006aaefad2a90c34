use vstd::prelude::*;

verus! {

/// Why a marketplace or registry operation was rejected.
///
/// A rejected call leaves the store exactly as it was: every mutating
/// operation validates first and only then writes.
#[derive(Clone, Copy, Debug, PartialEq, Eq, Structural)]
pub enum ContractError {
    /// The caller is not allowed to perform this owner- or approval-gated
    /// action.
    Unauthorized,
    /// The listing or asset does not exist.
    NotFound,
    /// The caller's prepaid rent balance does not cover the storage this
    /// operation would grow.
    InsufficientRent,
    /// The attached amount is zero or below the listing price.
    InsufficientOffer,
    /// An enforced approval sequence number does not match the one granted.
    ApprovalMismatch,
    /// An asset cannot be transferred to its current owner.
    SelfTransferRejected,
    /// A listing's owner cannot buy their own listing.
    SelfPurchaseRejected,
    /// The royalty table names more recipients than the operation allows.
    TooManyRecipients,
    /// A royalty table's basis points exceed the whole (10000).
    InvalidRoyalty,
    /// An asset with this identifier already exists.
    AlreadyExists,
    /// A sale-parameters payload could not be parsed.
    MalformedSaleArgs,
    /// A registry notification arrived as a direct call, not cross-contract.
    DirectCallRejected,
    /// The claimed owner is not the transaction's originating signer.
    OwnerMismatch,
}

impl ContractError {
    /// A short, stable name for the error, for logs and messages.
    pub fn describe(&self) -> &'static str {
        match self {
            ContractError::Unauthorized => "unauthorized",
            ContractError::NotFound => "not found",
            ContractError::InsufficientRent => "insufficient rent",
            ContractError::InsufficientOffer => "insufficient offer",
            ContractError::ApprovalMismatch => "approval mismatch",
            ContractError::SelfTransferRejected => "self transfer rejected",
            ContractError::SelfPurchaseRejected => "self purchase rejected",
            ContractError::TooManyRecipients => "too many recipients",
            ContractError::InvalidRoyalty => "invalid royalty",
            ContractError::AlreadyExists => "already exists",
            ContractError::MalformedSaleArgs => "malformed sale args",
            ContractError::DirectCallRejected => "direct call rejected",
            ContractError::OwnerMismatch => "owner mismatch",
        }
    }
}

} // verus!
