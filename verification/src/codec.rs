//! Byte codecs: little-endian 64-bit words, 32-byte addresses, and the
//! persisted offer record.
//!
//! The record layout is fixed-width: an 8-byte tag naming the record type,
//! then `id`, the 32-byte maker, the two 32-byte asset descriptors, the
//! wanted amount, and the derivation nonce — 121 bytes in all.

use vstd::prelude::*;

use crate::keys::AssetType;
use crate::keys::Identity;
use crate::offer::Offer;

verus! {

/// The eight bytes of `x`, least significant first.
pub open spec fn le_bytes64(x: u64) -> Seq<u8> {
    seq![
        (x & 0xff) as u8,
        ((x >> 8) & 0xff) as u8,
        ((x >> 16) & 0xff) as u8,
        ((x >> 24) & 0xff) as u8,
        ((x >> 32) & 0xff) as u8,
        ((x >> 40) & 0xff) as u8,
        ((x >> 48) & 0xff) as u8,
        ((x >> 56) & 0xff) as u8,
    ]
}

/// The word read from eight bytes, least significant first.
pub open spec fn le64(b: Seq<u8>) -> u64 {
    (b[0] as u64) | ((b[1] as u64) << 8) | ((b[2] as u64) << 16) | ((b[3] as u64) << 24) | ((
    b[4] as u64) << 32) | ((b[5] as u64) << 40) | ((b[6] as u64) << 48) | ((b[7] as u64) << 56)
}

/// Reading back the eight bytes of a word gives the word.
pub proof fn lemma_le64_of_bytes(x: u64)
    ensures
        le64(le_bytes64(x)) == x,
{
    assert((((x & 0xff) as u8) as u64) | ((((x >> 8) & 0xff) as u8) as u64) << 8 | ((((x >> 16)
        & 0xff) as u8) as u64) << 16 | ((((x >> 24) & 0xff) as u8) as u64) << 24 | ((((x >> 32)
        & 0xff) as u8) as u64) << 32 | ((((x >> 40) & 0xff) as u8) as u64) << 40 | ((((x >> 48)
        & 0xff) as u8) as u64) << 48 | ((((x >> 56) & 0xff) as u8) as u64) << 56 == x)
        by (bit_vector);
}

/// Writing back the word read from eight bytes gives the same bytes.
pub proof fn lemma_bytes_of_le64(b: Seq<u8>)
    requires
        b.len() == 8,
    ensures
        le_bytes64(le64(b)) =~= b,
{
    let b0 = b[0];
    let b1 = b[1];
    let b2 = b[2];
    let b3 = b[3];
    let b4 = b[4];
    let b5 = b[5];
    let b6 = b[6];
    let b7 = b[7];
    let v = le64(b);
    assert(v == (b0 as u64) | ((b1 as u64) << 8) | ((b2 as u64) << 16) | ((b3 as u64) << 24) | ((
    b4 as u64) << 32) | ((b5 as u64) << 40) | ((b6 as u64) << 48) | ((b7 as u64) << 56));
    assert({
        let w = (b0 as u64) | ((b1 as u64) << 8) | ((b2 as u64) << 16) | ((b3 as u64) << 24) | ((
        b4 as u64) << 32) | ((b5 as u64) << 40) | ((b6 as u64) << 48) | ((b7 as u64) << 56);
        (w & 0xff) as u8 == b0 && ((w >> 8) & 0xff) as u8 == b1 && ((w >> 16) & 0xff) as u8 == b2
            && ((w >> 24) & 0xff) as u8 == b3 && ((w >> 32) & 0xff) as u8 == b4 && ((w >> 40)
            & 0xff) as u8 == b5 && ((w >> 48) & 0xff) as u8 == b6 && ((w >> 56) & 0xff) as u8 == b7
    }) by (bit_vector);
}

/// The 32 bytes of an identity: its four words, least significant first.
pub open spec fn identity_bytes(i: Identity) -> Seq<u8> {
    le_bytes64(i.w0) + le_bytes64(i.w1) + le_bytes64(i.w2) + le_bytes64(i.w3)
}

/// The 32 bytes of an asset descriptor.
pub open spec fn asset_bytes(a: AssetType) -> Seq<u8> {
    le_bytes64(a.w0) + le_bytes64(a.w1) + le_bytes64(a.w2) + le_bytes64(a.w3)
}

/// The identity read from 32 bytes.
pub open spec fn identity_of_bytes(b: Seq<u8>) -> Identity {
    Identity {
        w0: le64(b.subrange(0, 8)),
        w1: le64(b.subrange(8, 16)),
        w2: le64(b.subrange(16, 24)),
        w3: le64(b.subrange(24, 32)),
    }
}

/// Reading back the bytes of an identity gives the identity.
pub proof fn lemma_identity_of_bytes(i: Identity)
    ensures
        identity_of_bytes(identity_bytes(i)) == i,
{
    let b = identity_bytes(i);
    assert(b.subrange(0, 8) =~= le_bytes64(i.w0));
    assert(b.subrange(8, 16) =~= le_bytes64(i.w1));
    assert(b.subrange(16, 24) =~= le_bytes64(i.w2));
    assert(b.subrange(24, 32) =~= le_bytes64(i.w3));
    lemma_le64_of_bytes(i.w0);
    lemma_le64_of_bytes(i.w1);
    lemma_le64_of_bytes(i.w2);
    lemma_le64_of_bytes(i.w3);
}

/// Writing back the identity read from 32 bytes gives the same bytes.
pub proof fn lemma_bytes_of_identity(b: Seq<u8>)
    requires
        b.len() == 32,
    ensures
        identity_bytes(identity_of_bytes(b)) =~= b,
{
    lemma_bytes_of_le64(b.subrange(0, 8));
    lemma_bytes_of_le64(b.subrange(8, 16));
    lemma_bytes_of_le64(b.subrange(16, 24));
    lemma_bytes_of_le64(b.subrange(24, 32));
    assert(identity_bytes(identity_of_bytes(b)) =~= b.subrange(0, 8) + b.subrange(8, 16)
        + b.subrange(16, 24) + b.subrange(24, 32));
}

/// Append the eight bytes of `x`, least significant first.
pub fn push_u64_le(v: &mut Vec<u8>, x: u64)
    ensures
        final(v)@ =~= old(v)@ + le_bytes64(x),
{
    v.push((x & 0xff) as u8);
    v.push(((x >> 8) & 0xff) as u8);
    v.push(((x >> 16) & 0xff) as u8);
    v.push(((x >> 24) & 0xff) as u8);
    v.push(((x >> 32) & 0xff) as u8);
    v.push(((x >> 40) & 0xff) as u8);
    v.push(((x >> 48) & 0xff) as u8);
    v.push(((x >> 56) & 0xff) as u8);
}

/// Read the word whose eight bytes start at `off`, least significant
/// first.
pub fn read_u64_le(b: &Vec<u8>, off: usize) -> (r: u64)
    requires
        off + 8 <= b@.len(),
    ensures
        r == le64(b@.subrange(off as int, off as int + 8)),
{
    let n: usize = b.len();
    let r = (b[off] as u64) | ((b[off + 1] as u64) << 8u64) | ((b[off + 2] as u64) << 16u64) | ((
    b[off + 3] as u64) << 24u64) | ((b[off + 4] as u64) << 32u64) | ((b[off + 5] as u64) << 40u64)
        | ((b[off + 6] as u64) << 48u64) | ((b[off + 7] as u64) << 56u64);
    proof {
        let s = b@.subrange(off as int, off as int + 8);
        assert(s[0] == b@[off as int] && s[1] == b@[off as int + 1] && s[2] == b@[off as int + 2]
            && s[3] == b@[off as int + 3] && s[4] == b@[off as int + 4] && s[5] == b@[off as int
            + 5] && s[6] == b@[off as int + 6] && s[7] == b@[off as int + 7]);
    }
    r
}

/// Append the 32 bytes of an identity.
pub fn push_identity(v: &mut Vec<u8>, i: &Identity)
    ensures
        final(v)@ =~= old(v)@ + identity_bytes(*i),
{
    push_u64_le(v, i.w0);
    push_u64_le(v, i.w1);
    push_u64_le(v, i.w2);
    push_u64_le(v, i.w3);
}

/// Append the 32 bytes of an asset descriptor.
pub fn push_asset(v: &mut Vec<u8>, a: &AssetType)
    ensures
        final(v)@ =~= old(v)@ + asset_bytes(*a),
{
    push_u64_le(v, a.w0);
    push_u64_le(v, a.w1);
    push_u64_le(v, a.w2);
    push_u64_le(v, a.w3);
}

/// Read the identity whose 32 bytes start at `off`.
pub fn read_identity(b: &Vec<u8>, off: usize) -> (r: Identity)
    requires
        off + 32 <= b@.len(),
    ensures
        r == identity_of_bytes(b@.subrange(off as int, off as int + 32)),
{
    let n: usize = b.len();
    let r = Identity {
        w0: read_u64_le(b, off),
        w1: read_u64_le(b, off + 8),
        w2: read_u64_le(b, off + 16),
        w3: read_u64_le(b, off + 24),
    };
    proof {
        let s = b@.subrange(off as int, off as int + 32);
        assert(s.subrange(0, 8) =~= b@.subrange(off as int, off as int + 8));
        assert(s.subrange(8, 16) =~= b@.subrange(off as int + 8, off as int + 16));
        assert(s.subrange(16, 24) =~= b@.subrange(off as int + 16, off as int + 24));
        assert(s.subrange(24, 32) =~= b@.subrange(off as int + 24, off as int + 32));
    }
    r
}

/// The fixed 8-byte tag that opens every persisted offer record.
pub open spec fn record_tag() -> Seq<u8> {
    seq![215u8, 88u8, 60u8, 71u8, 170u8, 162u8, 73u8, 229u8]
}

/// The length of a persisted offer record.
pub open spec fn record_len() -> int {
    121
}

/// The persisted bytes of an offer: tag, id, maker, offered asset, wanted
/// asset, wanted amount, derivation nonce.
pub open spec fn offer_record_bytes(o: Offer) -> Seq<u8> {
    record_tag() + le_bytes64(o.id) + identity_bytes(o.maker) + asset_bytes(o.asset_offered)
        + asset_bytes(o.asset_wanted) + le_bytes64(o.amount_wanted) + seq![o.derivation_nonce]
}

/// The offer read back from record bytes, or `None` when the length or
/// the tag is wrong.
pub open spec fn spec_decode_offer(b: Seq<u8>) -> Option<Offer> {
    if b.len() == record_len() && b.subrange(0, 8) == record_tag() {
        Some(
            Offer {
                id: le64(b.subrange(8, 16)),
                maker: identity_of_bytes(b.subrange(16, 48)),
                asset_offered: AssetType {
                    w0: le64(b.subrange(48, 56)),
                    w1: le64(b.subrange(56, 64)),
                    w2: le64(b.subrange(64, 72)),
                    w3: le64(b.subrange(72, 80)),
                },
                asset_wanted: AssetType {
                    w0: le64(b.subrange(80, 88)),
                    w1: le64(b.subrange(88, 96)),
                    w2: le64(b.subrange(96, 104)),
                    w3: le64(b.subrange(104, 112)),
                },
                amount_wanted: le64(b.subrange(112, 120)),
                derivation_nonce: b[120],
            },
        )
    } else {
        None
    }
}

/// Encode an offer in the fixed record layout.
pub fn encode_offer(o: &Offer) -> (r: Vec<u8>)
    ensures
        r@ == offer_record_bytes(*o),
        r@.len() == record_len(),
{
    let mut v: Vec<u8> = Vec::new();
    v.push(215);
    v.push(88);
    v.push(60);
    v.push(71);
    v.push(170);
    v.push(162);
    v.push(73);
    v.push(229);
    proof {
        assert(v@ =~= record_tag());
    }
    push_u64_le(&mut v, o.id);
    push_identity(&mut v, &o.maker);
    push_asset(&mut v, &o.asset_offered);
    push_asset(&mut v, &o.asset_wanted);
    push_u64_le(&mut v, o.amount_wanted);
    v.push(o.derivation_nonce);
    proof {
        assert(v@ =~= offer_record_bytes(*o));
    }
    v
}

/// Decode a persisted offer record; `None` exactly when the length or the
/// tag is wrong.
pub fn decode_offer(b: &Vec<u8>) -> (r: Option<Offer>)
    ensures
        r is Some <==> spec_decode_offer(b@) is Some,
        r matches Some(o) ==> spec_decode_offer(b@) == Some(o),
{
    if b.len() != 121 {
        return None;
    }
    if b[0] != 215 || b[1] != 88 || b[2] != 60 || b[3] != 71 || b[4] != 170 || b[5] != 162 || b[6]
        != 73 || b[7] != 229 {
        proof {
            assert(b@.subrange(0, 8) != record_tag()) by {
                if b@.subrange(0, 8) == record_tag() {
                    assert(b@[0] == record_tag()[0] && b@[1] == record_tag()[1] && b@[2]
                        == record_tag()[2] && b@[3] == record_tag()[3] && b@[4] == record_tag()[4]
                        && b@[5] == record_tag()[5] && b@[6] == record_tag()[6] && b@[7]
                        == record_tag()[7]);
                }
            }
        }
        return None;
    }
    proof {
        assert(b@.subrange(0, 8) =~= record_tag());
    }
    let off = Offer {
        id: read_u64_le(b, 8),
        maker: read_identity(b, 16),
        asset_offered: AssetType {
            w0: read_u64_le(b, 48),
            w1: read_u64_le(b, 56),
            w2: read_u64_le(b, 64),
            w3: read_u64_le(b, 72),
        },
        asset_wanted: AssetType {
            w0: read_u64_le(b, 80),
            w1: read_u64_le(b, 88),
            w2: read_u64_le(b, 96),
            w3: read_u64_le(b, 104),
        },
        amount_wanted: read_u64_le(b, 112),
        derivation_nonce: b[120],
    };
    Some(off)
}

/// A record encodes and decodes to the same offer.
pub proof fn lemma_offer_record_round_trip(o: Offer)
    ensures
        spec_decode_offer(offer_record_bytes(o)) == Some(o),
{
    let b = offer_record_bytes(o);
    assert(b.len() == record_len());
    assert(b.subrange(0, 8) =~= record_tag());
    assert(b.subrange(8, 16) =~= le_bytes64(o.id));
    assert(b.subrange(16, 48) =~= identity_bytes(o.maker));
    assert(b.subrange(48, 56) =~= le_bytes64(o.asset_offered.w0));
    assert(b.subrange(56, 64) =~= le_bytes64(o.asset_offered.w1));
    assert(b.subrange(64, 72) =~= le_bytes64(o.asset_offered.w2));
    assert(b.subrange(72, 80) =~= le_bytes64(o.asset_offered.w3));
    assert(b.subrange(80, 88) =~= le_bytes64(o.asset_wanted.w0));
    assert(b.subrange(88, 96) =~= le_bytes64(o.asset_wanted.w1));
    assert(b.subrange(96, 104) =~= le_bytes64(o.asset_wanted.w2));
    assert(b.subrange(104, 112) =~= le_bytes64(o.asset_wanted.w3));
    assert(b.subrange(112, 120) =~= le_bytes64(o.amount_wanted));
    assert(b[120] == o.derivation_nonce);
    lemma_le64_of_bytes(o.id);
    lemma_identity_of_bytes(o.maker);
    lemma_le64_of_bytes(o.asset_offered.w0);
    lemma_le64_of_bytes(o.asset_offered.w1);
    lemma_le64_of_bytes(o.asset_offered.w2);
    lemma_le64_of_bytes(o.asset_offered.w3);
    lemma_le64_of_bytes(o.asset_wanted.w0);
    lemma_le64_of_bytes(o.asset_wanted.w1);
    lemma_le64_of_bytes(o.asset_wanted.w2);
    lemma_le64_of_bytes(o.asset_wanted.w3);
    lemma_le64_of_bytes(o.amount_wanted);
}

/// Any bytes a record decodes from are exactly that record's encoding:
/// the layout is injective and leaves no slack.
pub proof fn lemma_offer_record_bytes_unique(b: Seq<u8>, o: Offer)
    requires
        spec_decode_offer(b) == Some(o),
    ensures
        offer_record_bytes(o) =~= b,
{
    assert(b.len() == record_len());
    lemma_bytes_of_le64(b.subrange(8, 16));
    lemma_bytes_of_identity(b.subrange(16, 48));
    lemma_bytes_of_le64(b.subrange(48, 56));
    lemma_bytes_of_le64(b.subrange(56, 64));
    lemma_bytes_of_le64(b.subrange(64, 72));
    lemma_bytes_of_le64(b.subrange(72, 80));
    lemma_bytes_of_le64(b.subrange(80, 88));
    lemma_bytes_of_le64(b.subrange(88, 96));
    lemma_bytes_of_le64(b.subrange(96, 104));
    lemma_bytes_of_le64(b.subrange(104, 112));
    lemma_bytes_of_le64(b.subrange(112, 120));
    assert(asset_bytes(o.asset_offered) =~= b.subrange(48, 56) + b.subrange(56, 64) + b.subrange(
        64,
        72,
    ) + b.subrange(72, 80));
    assert(asset_bytes(o.asset_wanted) =~= b.subrange(80, 88) + b.subrange(88, 96) + b.subrange(
        96,
        104,
    ) + b.subrange(104, 112));
    assert(offer_record_bytes(o) =~= b.subrange(0, 8) + b.subrange(8, 16) + b.subrange(16, 48)
        + b.subrange(48, 80) + b.subrange(80, 112) + b.subrange(112, 120) + seq![b[120]]);
    assert(b =~= b.subrange(0, 8) + b.subrange(8, 16) + b.subrange(16, 48) + b.subrange(48, 80)
        + b.subrange(80, 112) + b.subrange(112, 120) + seq![b[120]]);
}
} // verus!
