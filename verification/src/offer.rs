use vstd::prelude::*;

use crate::error::EscrowError;
use crate::keys::AssetType;
use crate::keys::Identity;

verus! {

/// The escrow record: what is offered, what is wanted in return, and by
/// whom. An offer is immutable while open; it is created together with its
/// vault and destroyed together with it, by settlement or cancellation.
#[derive(Clone, Copy, PartialEq, Eq, Structural, Debug)]
pub struct Offer {
    /// Caller-chosen identifier, unique among currently open offers.
    pub id: u64,
    /// The party that created the offer; sole authority for cancellation.
    pub maker: Identity,
    /// The asset locked in the vault.
    pub asset_offered: AssetType,
    /// The asset the maker wants in return.
    pub asset_wanted: AssetType,
    /// How much of `asset_wanted` settles the offer.
    pub amount_wanted: u64,
    /// The bump that makes the identity derivation for `id` injective.
    pub derivation_nonce: u8,
}

/// An offer the store may hold: the two assets differ and the wanted
/// amount is positive.
pub open spec fn offer_valid(o: Offer) -> bool {
    o.amount_wanted > 0 && o.asset_offered != o.asset_wanted
}

/// Decide whether proposed offer terms are acceptable: both amounts
/// positive, and the two assets distinct. Zero amounts are reported
/// before a same-asset pair, as offer creation does.
pub fn validate_offer_terms(
    asset_offered: &AssetType,
    asset_wanted: &AssetType,
    amount_offered: u64,
    amount_wanted: u64,
) -> (r: Result<(), EscrowError>)
    ensures
        r == Err::<(), EscrowError>(EscrowError::InvalidAmount) <==> (amount_offered == 0
            || amount_wanted == 0),
        r == Err::<(), EscrowError>(EscrowError::SameAsset) <==> (amount_offered > 0
            && amount_wanted > 0 && *asset_offered == *asset_wanted),
        r is Ok <==> (amount_offered > 0 && amount_wanted > 0 && *asset_offered != *asset_wanted),
{
    if amount_offered == 0 || amount_wanted == 0 {
        return Err(EscrowError::InvalidAmount);
    }
    if asset_offered == asset_wanted {
        return Err(EscrowError::SameAsset);
    }
    Ok(())
}

} // verus!
