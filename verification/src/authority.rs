//! Identity derivation: the deterministic, domain-separated authority that
//! owns an offer's vault.
//!
//! The authority is an address computed from the program address, a fixed
//! domain tag, and the offer id's little-endian bytes, together with a
//! disambiguating nonce. No secret is stored: the engine re-derives the
//! same address from the id and nonce whenever it must act as the vault's
//! owner.

use vstd::prelude::*;

use crate::codec::identity_bytes;
use crate::codec::le_bytes64;
use crate::codec::lemma_bytes_of_identity;
use crate::codec::push_u64_le;
use crate::codec::read_identity;
use crate::keys::Identity;

verus! {

/// The domain tag that namespaces offer derivations: the ASCII bytes of
/// the word "offer".
pub open spec fn offer_tag() -> Seq<u8> {
    seq![111u8, 102u8, 102u8, 101u8, 114u8]
}

/// The 32-byte program address under which offer authorities derive.
pub open spec fn program_address() -> Seq<u8> {
    seq![
        110u8, 148u8, 158u8, 243u8, 221u8, 15u8, 133u8, 230u8, 126u8, 98u8, 177u8, 40u8, 87u8,
        167u8, 60u8, 156u8, 3u8, 225u8, 58u8, 105u8, 222u8, 59u8, 51u8, 39u8, 228u8, 254u8, 226u8,
        101u8, 130u8, 49u8, 135u8, 215u8,
    ]
}

/// What the address search returns for given program, tag and id bytes:
/// the derived address and its nonce, or nothing when no nonce is viable.
pub uninterp spec fn derived_authority(program: Seq<u8>, tag: Seq<u8>, id_le: Seq<u8>) -> Option<
    (Seq<u8>, u8),
>;

/// What re-derivation returns for given program, tag, id bytes and nonce:
/// the derived address, or nothing when that nonce is not viable.
pub uninterp spec fn rederived_authority(
    program: Seq<u8>,
    tag: Seq<u8>,
    id_le: Seq<u8>,
    nonce: u8,
) -> Option<Seq<u8>>;

/// Relies on `solana_pubkey::Pubkey::try_find_program_address` (the
/// `Pubkey` that `anchor_lang`'s prelude re-exports): the returned address
/// and bump nonce are a function of the seeds and program address alone,
/// and `None` comes only when no nonce yields a valid derived address.
/// Its documentation states that the found pair re-derives through
/// `create_program_address` with the nonce appended as a final seed.
#[verifier::external_body]
fn find_program_authority(program: &Vec<u8>, tag: &Vec<u8>, id_le: &Vec<u8>) -> (r: Option<
    (Vec<u8>, u8),
>)
    requires
        program@.len() == 32,
    ensures
        r is Some <==> derived_authority(program@, tag@, id_le@) is Some,
        r matches Some(p) ==> derived_authority(program@, tag@, id_le@) == Some((p.0@, p.1)),
        r matches Some(p) ==> p.0@.len() == 32,
        r matches Some(p) ==> rederived_authority(program@, tag@, id_le@, p.1) == Some(p.0@),
{
    let mut pb = [0u8; 32];
    pb.copy_from_slice(program);
    let pk = solana_pubkey::Pubkey::new_from_array(pb);
    solana_pubkey::Pubkey::try_find_program_address(&[tag.as_slice(), id_le.as_slice()], &pk).map(
        |p: (solana_pubkey::Pubkey, u8)| (p.0.to_bytes().to_vec(), p.1),
    )
}

/// Relies on `solana_pubkey::Pubkey::create_program_address`:
/// deterministic in its seeds and program address; it fails exactly when
/// the seeds with this nonce yield no valid derived address.
#[verifier::external_body]
fn create_program_authority(program: &Vec<u8>, tag: &Vec<u8>, id_le: &Vec<u8>, nonce: u8) -> (r:
    Option<Vec<u8>>)
    requires
        program@.len() == 32,
    ensures
        r is Some <==> rederived_authority(program@, tag@, id_le@, nonce) is Some,
        r matches Some(b) ==> rederived_authority(program@, tag@, id_le@, nonce) == Some(b@),
        r matches Some(b) ==> b@.len() == 32,
{
    let mut pb = [0u8; 32];
    pb.copy_from_slice(program);
    let pk = solana_pubkey::Pubkey::new_from_array(pb);
    let nb = [nonce];
    match solana_pubkey::Pubkey::create_program_address(
        &[tag.as_slice(), id_le.as_slice(), nb.as_slice()],
        &pk,
    ) {
        Ok(a) => Some(a.to_bytes().to_vec()),
        Err(_) => None,
    }
}

/// The derivation outcome for an offer id under this crate's program
/// address and domain tag.
pub open spec fn spec_offer_authority(id: u64) -> Option<(Seq<u8>, u8)> {
    derived_authority(program_address(), offer_tag(), le_bytes64(id))
}

/// The re-derivation outcome for an offer id and a nonce.
pub open spec fn spec_rederived_offer_authority(id: u64, nonce: u8) -> Option<Seq<u8>> {
    rederived_authority(program_address(), offer_tag(), le_bytes64(id), nonce)
}

fn program_address_bytes() -> (r: Vec<u8>)
    ensures
        r@ == program_address(),
{
    let mut v: Vec<u8> = Vec::new();
    v.push(110);
    v.push(148);
    v.push(158);
    v.push(243);
    v.push(221);
    v.push(15);
    v.push(133);
    v.push(230);
    v.push(126);
    v.push(98);
    v.push(177);
    v.push(40);
    v.push(87);
    v.push(167);
    v.push(60);
    v.push(156);
    v.push(3);
    v.push(225);
    v.push(58);
    v.push(105);
    v.push(222);
    v.push(59);
    v.push(51);
    v.push(39);
    v.push(228);
    v.push(254);
    v.push(226);
    v.push(101);
    v.push(130);
    v.push(49);
    v.push(135);
    v.push(215);
    proof {
        assert(v@ =~= program_address());
    }
    v
}

fn offer_tag_bytes() -> (r: Vec<u8>)
    ensures
        r@ == offer_tag(),
{
    let mut v: Vec<u8> = Vec::new();
    v.push(111);
    v.push(102);
    v.push(102);
    v.push(101);
    v.push(114);
    proof {
        assert(v@ =~= offer_tag());
    }
    v
}

/// Derive the vault authority and nonce for an offer id: a pure function
/// of the id. The returned identity's bytes are exactly the derived
/// address, and the same identity comes back from re-derivation with the
/// returned nonce.
pub fn derive_offer_authority(id: u64) -> (r: Option<(Identity, u8)>)
    ensures
        r is Some <==> spec_offer_authority(id) is Some,
        r matches Some(p) ==> spec_offer_authority(id) == Some((identity_bytes(p.0), p.1)),
        r matches Some(p) ==> spec_rederived_offer_authority(id, p.1) == Some(
            identity_bytes(p.0),
        ),
{
    let program = program_address_bytes();
    let tag = offer_tag_bytes();
    let mut id_le: Vec<u8> = Vec::new();
    push_u64_le(&mut id_le, id);
    proof {
        assert(id_le@ =~= le_bytes64(id));
    }
    match find_program_authority(&program, &tag, &id_le) {
        None => None,
        Some(p) => {
            let ident = read_identity(&p.0, 0);
            proof {
                assert(p.0@.subrange(0, 32) =~= p.0@);
                lemma_bytes_of_identity(p.0@);
            }
            Some((ident, p.1))
        },
    }
}

/// Re-derive the vault authority for an offer id from a stored nonce:
/// the engine's signing capability, recomputed at call time from plain
/// values.
pub fn rederive_offer_authority(id: u64, nonce: u8) -> (r: Option<Identity>)
    ensures
        r is Some <==> spec_rederived_offer_authority(id, nonce) is Some,
        r matches Some(i) ==> spec_rederived_offer_authority(id, nonce) == Some(identity_bytes(i)),
{
    let program = program_address_bytes();
    let tag = offer_tag_bytes();
    let mut id_le: Vec<u8> = Vec::new();
    push_u64_le(&mut id_le, id);
    proof {
        assert(id_le@ =~= le_bytes64(id));
    }
    match create_program_authority(&program, &tag, &id_le, nonce) {
        None => None,
        Some(b) => {
            let ident = read_identity(&b, 0);
            proof {
                assert(b@.subrange(0, 32) =~= b@);
                lemma_bytes_of_identity(b@);
            }
            Some(ident)
        },
    }
}

} // verus!
