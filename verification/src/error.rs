use vstd::prelude::*;

verus! {

/// Why an escrow operation was refused. Every error aborts the whole
/// operation: the store, the vaults and the ledger are left exactly as
/// they were.
#[derive(Clone, Copy, PartialEq, Eq, Structural, Debug)]
pub enum EscrowError {
    /// A zero offered or wanted amount was given to `create_offer`.
    InvalidAmount,
    /// The offered and wanted asset types are the same.
    SameAsset,
    /// The caller of `cancel_offer` is not the offer's maker.
    Unauthorized,
    /// No open offer with the given id exists (including an offer already
    /// settled or cancelled by a competing call).
    NotFound,
    /// The custody layer refused a movement: an insufficient balance, a
    /// balance that would overflow, or no authority derivable for the vault.
    TransferFailure,
}

} // verus!
