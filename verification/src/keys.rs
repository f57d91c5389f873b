use vstd::prelude::*;

verus! {

/// A 32-byte address naming a party or a derived authority, held as four
/// 64-bit words in little-endian order (word 0 holds bytes 0..8 of the
/// address, and so on).
#[derive(Clone, Copy, PartialEq, Eq, Structural, Debug)]
pub struct Identity {
    pub w0: u64,
    pub w1: u64,
    pub w2: u64,
    pub w3: u64,
}

/// A 32-byte descriptor naming an asset (the address of its mint), held as
/// four 64-bit words in little-endian order, like `Identity`.
#[derive(Clone, Copy, PartialEq, Eq, Structural, Debug)]
pub struct AssetType {
    pub w0: u64,
    pub w1: u64,
    pub w2: u64,
    pub w3: u64,
}

} // verus!
