use sp2::codec::decode_offer;
use sp2::codec::encode_offer;
use sp2::keys::AssetType;
use sp2::keys::Identity;
use sp2::offer::Offer;

fn sample_offer() -> Offer {
    Offer {
        id: 0x0102030405060708,
        maker: Identity { w0: 1, w1: 2, w2: 3, w3: 4 },
        asset_offered: AssetType { w0: 10, w1: 11, w2: 12, w3: 13 },
        asset_wanted: AssetType { w0: 20, w1: 21, w2: 22, w3: 23 },
        amount_wanted: 50,
        derivation_nonce: 254,
    }
}

#[test]
fn record_round_trips() {
    let off = sample_offer();
    let bytes = encode_offer(&off);
    assert_eq!(bytes.len(), 121);
    assert_eq!(decode_offer(&bytes), Some(off));
}

#[test]
fn record_layout_is_fixed_width() {
    let off = sample_offer();
    let bytes = encode_offer(&off);
    // The fixed tag opens the record.
    assert_eq!(&bytes[0..8], &[215, 88, 60, 71, 170, 162, 73, 229]);
    // The id follows, least significant byte first.
    assert_eq!(&bytes[8..16], &[8, 7, 6, 5, 4, 3, 2, 1]);
    // The maker's first word.
    assert_eq!(&bytes[16..24], &[1, 0, 0, 0, 0, 0, 0, 0]);
    // The wanted amount and the nonce close the record.
    assert_eq!(&bytes[112..120], &[50, 0, 0, 0, 0, 0, 0, 0]);
    assert_eq!(bytes[120], 254);
}

#[test]
fn decode_rejects_wrong_length() {
    let off = sample_offer();
    let mut bytes = encode_offer(&off);
    bytes.push(0);
    assert_eq!(decode_offer(&bytes), None);
    bytes.pop();
    bytes.pop();
    assert_eq!(decode_offer(&bytes), None);
}

#[test]
fn decode_rejects_wrong_tag() {
    let off = sample_offer();
    let mut bytes = encode_offer(&off);
    bytes[0] = 216;
    assert_eq!(decode_offer(&bytes), None);
}
