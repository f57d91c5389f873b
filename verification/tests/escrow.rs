use sp2::engine::Escrow;
use sp2::error::EscrowError;
use sp2::keys::AssetType;
use sp2::keys::Identity;

fn ident(tag: u64) -> Identity {
    Identity { w0: tag, w1: 0, w2: 0, w3: 0 }
}

fn asset(tag: u64) -> AssetType {
    AssetType { w0: tag, w1: 0, w2: 0, w3: 0 }
}

fn funded_escrow(maker_a: u64, taker_b: u64) -> (Escrow, Identity, Identity, AssetType, AssetType) {
    let mut esc = Escrow::new();
    let maker = ident(1);
    let taker = ident(2);
    let asset_a = asset(10);
    let asset_b = asset(20);
    if maker_a > 0 {
        esc.ledger.credit(&maker, &asset_a, maker_a).unwrap();
    }
    if taker_b > 0 {
        esc.ledger.credit(&taker, &asset_b, taker_b).unwrap();
    }
    (esc, maker, taker, asset_a, asset_b)
}

#[test]
fn create_offer_succeeds_and_funds_vault() {
    let (mut esc, maker, _taker, asset_a, asset_b) = funded_escrow(150, 0);
    let r = esc.create_offer(7, maker, asset_a, asset_b, 100, 50);
    assert_eq!(r, Ok(()));
    assert!(esc.has_open_offer(7));
    assert_eq!(esc.vault_amount(7), Some(100));
    assert_eq!(esc.balance(&maker, &asset_a), 50);
    let off = esc.open_offer(7).unwrap();
    assert_eq!(off.id, 7);
    assert_eq!(off.maker, maker);
    assert_eq!(off.asset_offered, asset_a);
    assert_eq!(off.asset_wanted, asset_b);
    assert_eq!(off.amount_wanted, 50);
}

#[test]
fn create_offer_rejects_zero_amounts() {
    let (mut esc, maker, _taker, asset_a, asset_b) = funded_escrow(150, 0);
    let r = esc.create_offer(1, maker, asset_a, asset_b, 0, 50);
    assert_eq!(r, Err(EscrowError::InvalidAmount));
    let r = esc.create_offer(1, maker, asset_a, asset_b, 100, 0);
    assert_eq!(r, Err(EscrowError::InvalidAmount));
    assert!(!esc.has_open_offer(1));
    assert_eq!(esc.balance(&maker, &asset_a), 150);
}

#[test]
fn create_offer_rejects_same_asset() {
    let (mut esc, maker, _taker, asset_a, _asset_b) = funded_escrow(150, 0);
    let r = esc.create_offer(1, maker, asset_a, asset_a, 100, 50);
    assert_eq!(r, Err(EscrowError::SameAsset));
    assert!(!esc.has_open_offer(1));
}

#[test]
fn create_offer_rejects_insufficient_balance() {
    let (mut esc, maker, _taker, asset_a, asset_b) = funded_escrow(99, 0);
    let r = esc.create_offer(1, maker, asset_a, asset_b, 100, 50);
    assert_eq!(r, Err(EscrowError::TransferFailure));
    assert!(!esc.has_open_offer(1));
    assert_eq!(esc.balance(&maker, &asset_a), 99);
}

#[test]
fn settle_offer_scenario() {
    // Maker offers 100 units of A wanting 50 units of B; a taker holding
    // 60 B settles.
    let (mut esc, maker, taker, asset_a, asset_b) = funded_escrow(100, 60);
    esc.create_offer(7, maker, asset_a, asset_b, 100, 50).unwrap();
    let r = esc.settle_offer(7, taker);
    assert_eq!(r, Ok(()));
    assert_eq!(esc.balance(&taker, &asset_a), 100);
    assert_eq!(esc.balance(&taker, &asset_b), 10);
    assert_eq!(esc.balance(&maker, &asset_b), 50);
    assert_eq!(esc.balance(&maker, &asset_a), 0);
    assert!(!esc.has_open_offer(7));
    assert_eq!(esc.vault_amount(7), None);
    // The offer is gone: a second settle, or a late cancel, finds nothing.
    assert_eq!(esc.settle_offer(7, taker), Err(EscrowError::NotFound));
    assert_eq!(esc.cancel_offer(7, maker), Err(EscrowError::NotFound));
}

#[test]
fn settle_offer_rejects_poor_taker() {
    let (mut esc, maker, taker, asset_a, asset_b) = funded_escrow(100, 49);
    esc.create_offer(7, maker, asset_a, asset_b, 100, 50).unwrap();
    let r = esc.settle_offer(7, taker);
    assert_eq!(r, Err(EscrowError::TransferFailure));
    // Nothing moved and the offer is still open.
    assert!(esc.has_open_offer(7));
    assert_eq!(esc.vault_amount(7), Some(100));
    assert_eq!(esc.balance(&taker, &asset_b), 49);
    assert_eq!(esc.balance(&taker, &asset_a), 0);
}

#[test]
fn settle_offer_unknown_id_not_found() {
    let (mut esc, _maker, taker, _asset_a, _asset_b) = funded_escrow(100, 60);
    assert_eq!(esc.settle_offer(9, taker), Err(EscrowError::NotFound));
}

#[test]
fn cancel_offer_round_trip() {
    // create_offer(id=7, 100, 50) then cancel_offer() leaves the maker's
    // offered-asset balance unchanged.
    let (mut esc, maker, _taker, asset_a, asset_b) = funded_escrow(130, 0);
    esc.create_offer(7, maker, asset_a, asset_b, 100, 50).unwrap();
    assert_eq!(esc.balance(&maker, &asset_a), 30);
    let r = esc.cancel_offer(7, maker);
    assert_eq!(r, Ok(()));
    assert_eq!(esc.balance(&maker, &asset_a), 130);
    assert!(!esc.has_open_offer(7));
    assert_eq!(esc.vault_amount(7), None);
    assert_eq!(esc.cancel_offer(7, maker), Err(EscrowError::NotFound));
}

#[test]
fn cancel_offer_rejects_non_maker() {
    let (mut esc, maker, taker, asset_a, asset_b) = funded_escrow(100, 0);
    esc.create_offer(7, maker, asset_a, asset_b, 100, 50).unwrap();
    let r = esc.cancel_offer(7, taker);
    assert_eq!(r, Err(EscrowError::Unauthorized));
    // The offer and its vault are untouched.
    assert!(esc.has_open_offer(7));
    assert_eq!(esc.vault_amount(7), Some(100));
    assert_eq!(esc.balance(&maker, &asset_a), 0);
}

#[test]
fn offers_are_independent() {
    let (mut esc, maker, taker, asset_a, asset_b) = funded_escrow(100, 100);
    esc.create_offer(1, maker, asset_a, asset_b, 60, 30).unwrap();
    esc.create_offer(2, maker, asset_a, asset_b, 40, 20).unwrap();
    assert_eq!(esc.vault_amount(1), Some(60));
    assert_eq!(esc.vault_amount(2), Some(40));
    esc.settle_offer(1, taker).unwrap();
    // Settling one offer leaves the other open and funded.
    assert!(!esc.has_open_offer(1));
    assert!(esc.has_open_offer(2));
    assert_eq!(esc.vault_amount(2), Some(40));
    esc.cancel_offer(2, maker).unwrap();
    assert_eq!(esc.balance(&maker, &asset_a), 40);
}

#[test]
fn maker_may_take_own_offer() {
    let (mut esc, maker, _taker, asset_a, asset_b) = funded_escrow(100, 0);
    esc.ledger.credit(&maker, &asset_b, 50).unwrap();
    esc.create_offer(3, maker, asset_a, asset_b, 100, 50).unwrap();
    let r = esc.settle_offer(3, maker);
    assert_eq!(r, Ok(()));
    // The counter-payment went to the maker themselves: only the vault
    // balance came back.
    assert_eq!(esc.balance(&maker, &asset_a), 100);
    assert_eq!(esc.balance(&maker, &asset_b), 50);
    assert!(!esc.has_open_offer(3));
}
