//! The escrow engine: the offer store, the vaults, and the three
//! operations — create, settle, cancel — each an atomic transition that
//! either commits in full or leaves every part of the state untouched.

use vstd::prelude::*;

use crate::authority::derive_offer_authority;
use crate::authority::spec_offer_authority;
use crate::authority::spec_rederived_offer_authority;
use crate::codec::identity_bytes;
use crate::codec::identity_of_bytes;
use crate::codec::lemma_identity_of_bytes;
use crate::error::EscrowError;
use crate::keys::AssetType;
use crate::keys::Identity;
use crate::ledger::balance_of;
use crate::ledger::lemma_credit_props;
use crate::ledger::lemma_debit_props;
use crate::ledger::lemma_transfer_props;
use crate::ledger::spec_credit;
use crate::ledger::spec_debit;
use crate::ledger::spec_transfer;
use crate::ledger::Ledger;
use crate::ledger::TokenAccount;
use crate::ledger::wf_accounts;
use crate::offer::offer_valid;
use crate::offer::Offer;

verus! {

/// The custody vault of one open offer: it holds the deposited amount of
/// the offered asset and is owned by the offer's derived authority, not by
/// any party.
#[derive(Clone, Copy, PartialEq, Eq, Structural, Debug)]
pub struct Vault {
    /// The id of the offer this vault belongs to.
    pub offer_id: u64,
    /// The derived identity that owns the vault.
    pub authority: Identity,
    /// The asset held: always the offer's `asset_offered`.
    pub asset: AssetType,
    /// The deposited balance: the amount offered at creation.
    pub amount: u64,
}

/// Some offer with this id is open.
pub open spec fn has_offer(s: Seq<Offer>, id: u64) -> bool {
    exists|i: int| 0 <= i < s.len() && (#[trigger] s[i]).id == id
}

/// The index of the offer with this id (meaningful only when `has_offer`
/// holds; unique when `wf_offers` holds).
pub open spec fn offer_idx(s: Seq<Offer>, id: u64) -> int {
    choose|i: int| 0 <= i < s.len() && (#[trigger] s[i]).id == id
}

/// The open offer with this id.
pub open spec fn offer_at(s: Seq<Offer>, id: u64) -> Offer {
    s[offer_idx(s, id)]
}

/// No two open offers share an id.
pub open spec fn wf_offers(s: Seq<Offer>) -> bool {
    forall|i: int, j: int|
        #![trigger s[i], s[j]]
        0 <= i < s.len() && 0 <= j < s.len() && s[i].id == s[j].id ==> i == j
}

/// Some vault for this offer id exists.
pub open spec fn has_vault(s: Seq<Vault>, id: u64) -> bool {
    exists|i: int| 0 <= i < s.len() && (#[trigger] s[i]).offer_id == id
}

/// The index of the vault for this offer id.
pub open spec fn vault_idx(s: Seq<Vault>, id: u64) -> int {
    choose|i: int| 0 <= i < s.len() && (#[trigger] s[i]).offer_id == id
}

/// The vault for this offer id.
pub open spec fn vault_at(s: Seq<Vault>, id: u64) -> Vault {
    s[vault_idx(s, id)]
}

/// No two vaults share an offer id.
pub open spec fn wf_vaults(s: Seq<Vault>) -> bool {
    forall|i: int, j: int|
        #![trigger s[i], s[j]]
        0 <= i < s.len() && 0 <= j < s.len() && s[i].offer_id == s[j].offer_id ==> i == j
}

proof fn lemma_offer_unique(s: Seq<Offer>, id: u64, i: int)
    requires
        wf_offers(s),
        0 <= i < s.len(),
        s[i].id == id,
    ensures
        has_offer(s, id),
        offer_idx(s, id) == i,
        offer_at(s, id) == s[i],
{
    assert(has_offer(s, id));
    let j = offer_idx(s, id);
    assert(0 <= j < s.len() && s[j].id == id);
}

proof fn lemma_vault_unique(s: Seq<Vault>, id: u64, i: int)
    requires
        wf_vaults(s),
        0 <= i < s.len(),
        s[i].offer_id == id,
    ensures
        has_vault(s, id),
        vault_idx(s, id) == i,
        vault_at(s, id) == s[i],
{
    assert(has_vault(s, id));
    let j = vault_idx(s, id);
    assert(0 <= j < s.len() && s[j].offer_id == id);
}

/// Appending a fresh offer keeps ids unique, makes the offer findable, and
/// leaves every other offer as it was.
proof fn lemma_offer_push(s: Seq<Offer>, o: Offer)
    requires
        wf_offers(s),
        !has_offer(s, o.id),
    ensures
        wf_offers(s.push(o)),
        has_offer(s.push(o), o.id),
        offer_at(s.push(o), o.id) == o,
        forall|id2: u64|
            id2 != o.id ==> #[trigger] has_offer(s.push(o), id2) == has_offer(s, id2),
        forall|id2: u64|
            id2 != o.id && #[trigger] has_offer(s, id2) ==> offer_at(s.push(o), id2) == offer_at(
                s,
                id2,
            ),
{
    let n = s.len() as int;
    let s2 = s.push(o);
    assert forall|x: int, y: int|
        0 <= x < s2.len() && 0 <= y < s2.len() && (#[trigger] s2[x]).id == (
        #[trigger] s2[y]).id implies x == y by {
        if x < n && y < n {
            assert(s2[x] == s[x] && s2[y] == s[y]);
        } else if x == n && y < n {
            assert(s2[y] == s[y]);
            assert(has_offer(s, o.id));
        } else if x < n && y == n {
            assert(s2[x] == s[x]);
            assert(has_offer(s, o.id));
        }
    }
    assert(s2[n] == o);
    lemma_offer_unique(s2, o.id, n);
    assert forall|id2: u64| id2 != o.id implies #[trigger] has_offer(s2, id2) == has_offer(
        s,
        id2,
    ) by {
        if has_offer(s, id2) {
            let j = offer_idx(s, id2);
            assert(s2[j] == s[j]);
            assert(has_offer(s2, id2));
        } else {
            if has_offer(s2, id2) {
                let j = offer_idx(s2, id2);
                assert(0 <= j < s2.len() && s2[j].id == id2);
                assert(j != n);
                assert(s2[j] == s[j]);
                assert(has_offer(s, id2));
            }
        }
    }
    assert forall|id2: u64| id2 != o.id && #[trigger] has_offer(s, id2) implies offer_at(s2, id2)
        == offer_at(s, id2) by {
        let j = offer_idx(s, id2);
        assert(0 <= j < s.len() && s[j].id == id2);
        assert(s2[j] == s[j]);
        lemma_offer_unique(s, id2, j);
        lemma_offer_unique(s2, id2, j);
    }
}

/// Appending a fresh vault keeps offer ids unique, makes the vault
/// findable, and leaves every other vault as it was.
proof fn lemma_vault_push(s: Seq<Vault>, v: Vault)
    requires
        wf_vaults(s),
        !has_vault(s, v.offer_id),
    ensures
        wf_vaults(s.push(v)),
        has_vault(s.push(v), v.offer_id),
        vault_at(s.push(v), v.offer_id) == v,
        forall|id2: u64|
            id2 != v.offer_id ==> #[trigger] has_vault(s.push(v), id2) == has_vault(s, id2),
        forall|id2: u64|
            id2 != v.offer_id && #[trigger] has_vault(s, id2) ==> vault_at(s.push(v), id2)
                == vault_at(s, id2),
{
    let n = s.len() as int;
    let s2 = s.push(v);
    assert forall|x: int, y: int|
        0 <= x < s2.len() && 0 <= y < s2.len() && (#[trigger] s2[x]).offer_id == (
        #[trigger] s2[y]).offer_id implies x == y by {
        if x < n && y < n {
            assert(s2[x] == s[x] && s2[y] == s[y]);
        } else if x == n && y < n {
            assert(s2[y] == s[y]);
            assert(has_vault(s, v.offer_id));
        } else if x < n && y == n {
            assert(s2[x] == s[x]);
            assert(has_vault(s, v.offer_id));
        }
    }
    assert(s2[n] == v);
    lemma_vault_unique(s2, v.offer_id, n);
    assert forall|id2: u64| id2 != v.offer_id implies #[trigger] has_vault(s2, id2) == has_vault(
        s,
        id2,
    ) by {
        if has_vault(s, id2) {
            let j = vault_idx(s, id2);
            assert(s2[j] == s[j]);
            assert(has_vault(s2, id2));
        } else {
            if has_vault(s2, id2) {
                let j = vault_idx(s2, id2);
                assert(0 <= j < s2.len() && s2[j].offer_id == id2);
                assert(j != n);
                assert(s2[j] == s[j]);
                assert(has_vault(s, id2));
            }
        }
    }
    assert forall|id2: u64| id2 != v.offer_id && #[trigger] has_vault(s, id2) implies vault_at(
        s2,
        id2,
    ) == vault_at(s, id2) by {
        let j = vault_idx(s, id2);
        assert(0 <= j < s.len() && s[j].offer_id == id2);
        assert(s2[j] == s[j]);
        lemma_vault_unique(s, id2, j);
        lemma_vault_unique(s2, id2, j);
    }
}

/// Removing the offer at index `i` keeps ids unique, makes that id absent,
/// and leaves every other offer as it was.
proof fn lemma_offer_remove(s: Seq<Offer>, i: int)
    requires
        wf_offers(s),
        0 <= i < s.len(),
    ensures
        wf_offers(s.remove(i)),
        !has_offer(s.remove(i), s[i].id),
        forall|id2: u64|
            id2 != s[i].id ==> #[trigger] has_offer(s.remove(i), id2) == has_offer(s, id2),
        forall|id2: u64|
            id2 != s[i].id && #[trigger] has_offer(s, id2) ==> offer_at(s.remove(i), id2)
                == offer_at(s, id2),
{
    let s2 = s.remove(i);
    s.remove_ensures(i);
    assert forall|x: int, y: int|
        0 <= x < s2.len() && 0 <= y < s2.len() && (#[trigger] s2[x]).id == (
        #[trigger] s2[y]).id implies x == y by {
        let x1: int = if x < i { x } else { x + 1 };
        let y1: int = if y < i { y } else { y + 1 };
        assert(s2[x] == s[x1] && s2[y] == s[y1]);
    }
    assert forall|t: int| 0 <= t < s2.len() implies (#[trigger] s2[t]).id != s[i].id by {
        let t1: int = if t < i { t } else { t + 1 };
        assert(s2[t] == s[t1]);
        assert(t1 != i);
    }
    assert forall|id2: u64| id2 != s[i].id implies #[trigger] has_offer(s2, id2) == has_offer(
        s,
        id2,
    ) by {
        if has_offer(s, id2) {
            let j = offer_idx(s, id2);
            assert(0 <= j < s.len() && s[j].id == id2);
            let j2: int = if j < i { j } else { j - 1 };
            assert(s2[j2] == s[j]);
            assert(has_offer(s2, id2));
        } else {
            if has_offer(s2, id2) {
                let t = offer_idx(s2, id2);
                assert(0 <= t < s2.len() && s2[t].id == id2);
                let t1: int = if t < i { t } else { t + 1 };
                assert(s2[t] == s[t1]);
                assert(has_offer(s, id2));
            }
        }
    }
    assert forall|id2: u64| id2 != s[i].id && #[trigger] has_offer(s, id2) implies offer_at(
        s2,
        id2,
    ) == offer_at(s, id2) by {
        let j = offer_idx(s, id2);
        assert(0 <= j < s.len() && s[j].id == id2);
        lemma_offer_unique(s, id2, j);
        assert(j != i);
        let j2: int = if j < i { j } else { j - 1 };
        assert(s2[j2] == s[j]);
        lemma_offer_unique(s2, id2, j2);
    }
}

/// Removing the vault at index `i` keeps offer ids unique, makes that id
/// absent, and leaves every other vault as it was.
proof fn lemma_vault_remove(s: Seq<Vault>, i: int)
    requires
        wf_vaults(s),
        0 <= i < s.len(),
    ensures
        wf_vaults(s.remove(i)),
        !has_vault(s.remove(i), s[i].offer_id),
        forall|id2: u64|
            id2 != s[i].offer_id ==> #[trigger] has_vault(s.remove(i), id2) == has_vault(s, id2),
        forall|id2: u64|
            id2 != s[i].offer_id && #[trigger] has_vault(s, id2) ==> vault_at(s.remove(i), id2)
                == vault_at(s, id2),
{
    let s2 = s.remove(i);
    s.remove_ensures(i);
    assert forall|x: int, y: int|
        0 <= x < s2.len() && 0 <= y < s2.len() && (#[trigger] s2[x]).offer_id == (
        #[trigger] s2[y]).offer_id implies x == y by {
        let x1: int = if x < i { x } else { x + 1 };
        let y1: int = if y < i { y } else { y + 1 };
        assert(s2[x] == s[x1] && s2[y] == s[y1]);
    }
    assert forall|t: int| 0 <= t < s2.len() implies (#[trigger] s2[t]).offer_id != s[i].offer_id by {
        let t1: int = if t < i { t } else { t + 1 };
        assert(s2[t] == s[t1]);
        assert(t1 != i);
    }
    assert forall|id2: u64| id2 != s[i].offer_id implies #[trigger] has_vault(s2, id2) == has_vault(
        s,
        id2,
    ) by {
        if has_vault(s, id2) {
            let j = vault_idx(s, id2);
            assert(0 <= j < s.len() && s[j].offer_id == id2);
            let j2: int = if j < i { j } else { j - 1 };
            assert(s2[j2] == s[j]);
            assert(has_vault(s2, id2));
        } else {
            if has_vault(s2, id2) {
                let t = vault_idx(s2, id2);
                assert(0 <= t < s2.len() && s2[t].offer_id == id2);
                let t1: int = if t < i { t } else { t + 1 };
                assert(s2[t] == s[t1]);
                assert(has_vault(s, id2));
            }
        }
    }
    assert forall|id2: u64| id2 != s[i].offer_id && #[trigger] has_vault(s, id2) implies vault_at(
        s2,
        id2,
    ) == vault_at(s, id2) by {
        let j = vault_idx(s, id2);
        assert(0 <= j < s.len() && s[j].offer_id == id2);
        lemma_vault_unique(s, id2, j);
        assert(j != i);
        let j2: int = if j < i { j } else { j - 1 };
        assert(s2[j2] == s[j]);
        lemma_vault_unique(s2, id2, j2);
    }
}

/// The ledger movements of a settlement: the vault balance goes to the
/// taker in the offered asset, then the wanted amount goes from the taker
/// to the maker in the wanted asset. `None` exactly when either movement
/// fails; then nothing moves at all.
pub open spec fn spec_settle_ledger(
    l: Seq<TokenAccount>,
    taker: Identity,
    off: Offer,
    vault_amount: u64,
) -> Option<Seq<TokenAccount>> {
    match spec_credit(l, taker, off.asset_offered, vault_amount) {
        Some(l1) => spec_transfer(l1, taker, off.maker, off.asset_wanted, off.amount_wanted),
        None => None,
    }
}

/// After a settlement between distinct parties: the taker gains the whole
/// vault balance in the offered asset and pays the wanted amount in the
/// wanted asset; the maker gains exactly the wanted amount; nobody else's
/// holdings move. (A maker who takes their own offer gains the vault
/// balance and keeps every other balance, since the counter-payment goes
/// to themselves.)
pub proof fn lemma_settle_balances(
    l: Seq<TokenAccount>,
    l2: Seq<TokenAccount>,
    taker: Identity,
    off: Offer,
    vault_amount: u64,
)
    requires
        wf_accounts(l),
        offer_valid(off),
        taker != off.maker,
        spec_settle_ledger(l, taker, off, vault_amount) == Some(l2),
    ensures
        balance_of(l2, taker, off.asset_offered) == balance_of(l, taker, off.asset_offered)
            + vault_amount,
        balance_of(l2, taker, off.asset_wanted) == balance_of(l, taker, off.asset_wanted)
            - off.amount_wanted,
        balance_of(l2, off.maker, off.asset_wanted) == balance_of(l, off.maker, off.asset_wanted)
            + off.amount_wanted,
        balance_of(l2, off.maker, off.asset_offered) == balance_of(l, off.maker, off.asset_offered),
        forall|o2: Identity, a2: AssetType|
            o2 != taker && o2 != off.maker ==> #[trigger] balance_of(l2, o2, a2) == balance_of(
                l,
                o2,
                a2,
            ),
{
    lemma_credit_props(l, taker, off.asset_offered, vault_amount);
    let l1 = spec_credit(l, taker, off.asset_offered, vault_amount).unwrap();
    lemma_transfer_props(l1, taker, off.maker, off.asset_wanted, off.amount_wanted);
}

/// The whole escrow state: the open offers, their vaults, and the custody
/// ledger.
pub struct Escrow {
    pub offers: Vec<Offer>,
    pub vaults: Vec<Vault>,
    pub ledger: Ledger,
}

impl Escrow {
    /// Well-formedness, preserved by every operation: ledger accounts and
    /// ids are unique; an offer is open exactly when its vault exists; and
    /// every open offer is valid, with its vault holding a positive
    /// deposit of the offered asset.
    pub open spec fn wf(&self) -> bool {
        &&& self.ledger.wf()
        &&& wf_offers(self.offers@)
        &&& wf_vaults(self.vaults@)
        &&& forall|id: u64|
            #![trigger has_offer(self.offers@, id)]
            #![trigger has_vault(self.vaults@, id)]
            has_offer(self.offers@, id) <==> has_vault(self.vaults@, id)
        &&& forall|id: u64| #[trigger]
            has_offer(self.offers@, id) ==> offer_valid(offer_at(self.offers@, id)) && vault_at(
                self.vaults@,
                id,
            ).asset == offer_at(self.offers@, id).asset_offered && vault_at(
                self.vaults@,
                id,
            ).amount > 0
    }

    /// An escrow with no offers, no vaults and an empty ledger.
    pub fn new() -> (r: Escrow)
        ensures
            r.wf(),
            r.offers@ =~= Seq::<Offer>::empty(),
            r.vaults@ =~= Seq::<Vault>::empty(),
            r.ledger.accounts@ =~= Seq::<TokenAccount>::empty(),
    {
        Escrow { offers: Vec::new(), vaults: Vec::new(), ledger: Ledger::new() }
    }

    fn find_offer(&self, id: u64) -> (r: Option<usize>)
        requires
            self.wf(),
        ensures
            r is Some <==> has_offer(self.offers@, id),
            r matches Some(i) ==> i < self.offers@.len() && i == offer_idx(self.offers@, id)
                && self.offers@[i as int] == offer_at(self.offers@, id),
    {
        let n = self.offers.len();
        let mut k: usize = 0;
        while k < n
            invariant
                n == self.offers@.len(),
                k <= n,
                self.wf(),
                forall|t: int| 0 <= t < k ==> (#[trigger] self.offers@[t]).id != id,
            decreases n - k,
        {
            if self.offers[k].id == id {
                proof {
                    lemma_offer_unique(self.offers@, id, k as int);
                }
                return Some(k);
            }
            k += 1;
        }
        None
    }

    fn find_vault(&self, id: u64) -> (r: Option<usize>)
        requires
            self.wf(),
        ensures
            r is Some <==> has_vault(self.vaults@, id),
            r matches Some(i) ==> i < self.vaults@.len() && i == vault_idx(self.vaults@, id)
                && self.vaults@[i as int] == vault_at(self.vaults@, id),
    {
        let n = self.vaults.len();
        let mut k: usize = 0;
        while k < n
            invariant
                n == self.vaults@.len(),
                k <= n,
                self.wf(),
                forall|t: int| 0 <= t < k ==> (#[trigger] self.vaults@[t]).offer_id != id,
            decreases n - k,
        {
            if self.vaults[k].offer_id == id {
                proof {
                    lemma_vault_unique(self.vaults@, id, k as int);
                }
                return Some(k);
            }
            k += 1;
        }
        None
    }

    /// Is an offer with this id currently open?
    pub fn has_open_offer(&self, id: u64) -> (r: bool)
        requires
            self.wf(),
        ensures
            r == has_offer(self.offers@, id),
    {
        self.find_offer(id).is_some()
    }

    /// The open offer with this id, if any.
    pub fn open_offer(&self, id: u64) -> (r: Option<Offer>)
        requires
            self.wf(),
        ensures
            r is Some <==> has_offer(self.offers@, id),
            r matches Some(o) ==> o == offer_at(self.offers@, id),
    {
        match self.find_offer(id) {
            Some(i) => Some(self.offers[i]),
            None => None,
        }
    }

    /// The balance the vault of this offer holds, if the offer is open.
    pub fn vault_amount(&self, id: u64) -> (r: Option<u64>)
        requires
            self.wf(),
        ensures
            r is Some <==> has_vault(self.vaults@, id),
            r matches Some(v) ==> v == vault_at(self.vaults@, id).amount,
    {
        match self.find_vault(id) {
            Some(i) => Some(self.vaults[i].amount),
            None => None,
        }
    }

    /// The balance a party holds in an asset on the custody ledger.
    pub fn balance(&self, o: &Identity, a: &AssetType) -> (r: u64)
        requires
            self.wf(),
        ensures
            r == balance_of(self.ledger.accounts@, *o, *a),
    {
        self.ledger.balance(o, a)
    }

    /// Open a new offer whose vault authority and derivation nonce the
    /// caller has already derived: validate the amounts and assets, move
    /// the offered amount from the maker into a fresh vault, and persist
    /// the record — all or nothing. The id must not name an offer that is
    /// still open: collisions are the storage collaborator's concern, which
    /// rejects a duplicate derived address before the engine runs.
    pub fn create_offer_with_authority(
        &mut self,
        id: u64,
        maker: Identity,
        asset_offered: AssetType,
        asset_wanted: AssetType,
        amount_offered: u64,
        amount_wanted: u64,
        authority: Identity,
        nonce: u8,
    ) -> (r: Result<(), EscrowError>)
        requires
            old(self).wf(),
            !has_offer(old(self).offers@, id),
        ensures
            final(self).wf(),
            r is Err ==> final(self).offers@ == old(self).offers@ && final(self).vaults@ == old(
                self,
            ).vaults@ && final(self).ledger.accounts@ == old(self).ledger.accounts@,
            r == Err::<(), EscrowError>(EscrowError::InvalidAmount) <==> (amount_offered == 0
                || amount_wanted == 0),
            r == Err::<(), EscrowError>(EscrowError::SameAsset) <==> (amount_offered > 0
                && amount_wanted > 0 && asset_offered == asset_wanted),
            r == Err::<(), EscrowError>(EscrowError::TransferFailure) <==> (amount_offered > 0
                && amount_wanted > 0 && asset_offered != asset_wanted && balance_of(
                old(self).ledger.accounts@,
                maker,
                asset_offered,
            ) < amount_offered),
            r is Ok <==> (amount_offered > 0 && amount_wanted > 0 && asset_offered != asset_wanted
                && balance_of(old(self).ledger.accounts@, maker, asset_offered) >= amount_offered),
            r is Ok ==> final(self).offers@ == old(self).offers@.push(
                (Offer {
                    id,
                    maker,
                    asset_offered,
                    asset_wanted,
                    amount_wanted,
                    derivation_nonce: nonce,
                }),
            ),
            r is Ok ==> final(self).vaults@ == old(self).vaults@.push(
                (Vault { offer_id: id, authority, asset: asset_offered, amount: amount_offered }),
            ),
            r is Ok ==> final(self).ledger.accounts@ == spec_debit(
                old(self).ledger.accounts@,
                maker,
                asset_offered,
                amount_offered,
            ).unwrap(),
            r is Ok ==> balance_of(final(self).ledger.accounts@, maker, asset_offered)
                == balance_of(old(self).ledger.accounts@, maker, asset_offered) - amount_offered,
            r is Ok ==> forall|o2: Identity, a2: AssetType|
                !(o2 == maker && a2 == asset_offered) ==> #[trigger] balance_of(
                    final(self).ledger.accounts@,
                    o2,
                    a2,
                ) == balance_of(old(self).ledger.accounts@, o2, a2),
            r is Ok ==> has_offer(final(self).offers@, id) && offer_at(final(self).offers@, id)
                == (Offer {
                id,
                maker,
                asset_offered,
                asset_wanted,
                amount_wanted,
                derivation_nonce: nonce,
            }) && vault_at(final(self).vaults@, id) == (Vault {
                offer_id: id,
                authority,
                asset: asset_offered,
                amount: amount_offered,
            }),
            forall|id2: u64|
                id2 != id ==> #[trigger] has_offer(final(self).offers@, id2) == has_offer(
                    old(self).offers@,
                    id2,
                ),
            forall|id2: u64|
                id2 != id && #[trigger] has_offer(old(self).offers@, id2) ==> offer_at(
                    final(self).offers@,
                    id2,
                ) == offer_at(old(self).offers@, id2),
    {
        if amount_offered == 0 || amount_wanted == 0 {
            return Err(EscrowError::InvalidAmount);
        }
        if asset_offered == asset_wanted {
            return Err(EscrowError::SameAsset);
        }
        proof {
            lemma_debit_props(self.ledger.accounts@, maker, asset_offered, amount_offered);
        }
        match self.ledger.debit(&maker, &asset_offered, amount_offered) {
            Err(_) => Err(EscrowError::TransferFailure),
            Ok(()) => {
                let off = Offer {
                    id,
                    maker,
                    asset_offered,
                    asset_wanted,
                    amount_wanted,
                    derivation_nonce: nonce,
                };
                let vlt = Vault {
                    offer_id: id,
                    authority,
                    asset: asset_offered,
                    amount: amount_offered,
                };
                self.offers.push(off);
                self.vaults.push(vlt);
                proof {
                    lemma_credit_props(
                        old(self).ledger.accounts@,
                        maker,
                        asset_offered,
                        amount_offered,
                    );
                    lemma_offer_push(old(self).offers@, off);
                    assert(!has_vault(old(self).vaults@, id));
                    lemma_vault_push(old(self).vaults@, vlt);
                    assert forall|id2: u64|
                        #![trigger has_offer(self.offers@, id2)]
                        #![trigger has_vault(self.vaults@, id2)]
                        has_offer(self.offers@, id2) <==> has_vault(self.vaults@, id2) by {
                        if id2 != id {
                            assert(has_offer(self.offers@, id2) == has_offer(
                                old(self).offers@,
                                id2,
                            ));
                            assert(has_vault(self.vaults@, id2) == has_vault(
                                old(self).vaults@,
                                id2,
                            ));
                        }
                    }
                    assert forall|id2: u64| #[trigger]
                        has_offer(self.offers@, id2) implies offer_valid(
                        offer_at(self.offers@, id2),
                    ) && vault_at(self.vaults@, id2).asset == offer_at(
                        self.offers@,
                        id2,
                    ).asset_offered && vault_at(self.vaults@, id2).amount > 0 by {
                        if id2 != id {
                            assert(has_offer(old(self).offers@, id2));
                            assert(offer_at(self.offers@, id2) == offer_at(
                                old(self).offers@,
                                id2,
                            ));
                            assert(vault_at(self.vaults@, id2) == vault_at(
                                old(self).vaults@,
                                id2,
                            ));
                        }
                    }
                }
                Ok(())
            },
        }
    }

    /// Open a new offer: derive the vault authority from the id, validate
    /// the amounts and assets, move the offered amount from the maker into
    /// a fresh vault owned by that authority, and persist the record — all
    /// or nothing. The id must not name an offer that is still open (see
    /// `create_offer_with_authority`). A failed derivation (no viable
    /// nonce: statistically improbable) surfaces as `TransferFailure`,
    /// like any other custody refusal.
    pub fn create_offer(
        &mut self,
        id: u64,
        maker: Identity,
        asset_offered: AssetType,
        asset_wanted: AssetType,
        amount_offered: u64,
        amount_wanted: u64,
    ) -> (r: Result<(), EscrowError>)
        requires
            old(self).wf(),
            !has_offer(old(self).offers@, id),
        ensures
            final(self).wf(),
            r is Err ==> final(self).offers@ == old(self).offers@ && final(self).vaults@ == old(
                self,
            ).vaults@ && final(self).ledger.accounts@ == old(self).ledger.accounts@,
            r == Err::<(), EscrowError>(EscrowError::InvalidAmount) <==> (amount_offered == 0
                || amount_wanted == 0),
            r == Err::<(), EscrowError>(EscrowError::SameAsset) <==> (amount_offered > 0
                && amount_wanted > 0 && asset_offered == asset_wanted),
            r == Err::<(), EscrowError>(EscrowError::TransferFailure) <==> (amount_offered > 0
                && amount_wanted > 0 && asset_offered != asset_wanted && (spec_offer_authority(
                id,
            ) is None || balance_of(old(self).ledger.accounts@, maker, asset_offered)
                < amount_offered)),
            r is Ok <==> (amount_offered > 0 && amount_wanted > 0 && asset_offered != asset_wanted
                && spec_offer_authority(id) is Some && balance_of(
                old(self).ledger.accounts@,
                maker,
                asset_offered,
            ) >= amount_offered),
            r is Ok ==> final(self).offers@ == old(self).offers@.push(
                (Offer {
                    id,
                    maker,
                    asset_offered,
                    asset_wanted,
                    amount_wanted,
                    derivation_nonce: spec_offer_authority(id).unwrap().1,
                }),
            ),
            r is Ok ==> final(self).vaults@ == old(self).vaults@.push(
                (Vault {
                    offer_id: id,
                    authority: identity_of_bytes(spec_offer_authority(id).unwrap().0),
                    asset: asset_offered,
                    amount: amount_offered,
                }),
            ),
            r is Ok ==> balance_of(final(self).ledger.accounts@, maker, asset_offered)
                == balance_of(old(self).ledger.accounts@, maker, asset_offered) - amount_offered,
            r is Ok ==> forall|o2: Identity, a2: AssetType|
                !(o2 == maker && a2 == asset_offered) ==> #[trigger] balance_of(
                    final(self).ledger.accounts@,
                    o2,
                    a2,
                ) == balance_of(old(self).ledger.accounts@, o2, a2),
            r is Ok ==> has_offer(final(self).offers@, id) && identity_bytes(
                vault_at(final(self).vaults@, id).authority,
            ) == spec_offer_authority(id).unwrap().0,
            r is Ok ==> spec_rederived_offer_authority(
                id,
                offer_at(final(self).offers@, id).derivation_nonce,
            ) == Some(identity_bytes(vault_at(final(self).vaults@, id).authority)),
            forall|id2: u64|
                id2 != id ==> #[trigger] has_offer(final(self).offers@, id2) == has_offer(
                    old(self).offers@,
                    id2,
                ),
            forall|id2: u64|
                id2 != id && #[trigger] has_offer(old(self).offers@, id2) ==> offer_at(
                    final(self).offers@,
                    id2,
                ) == offer_at(old(self).offers@, id2),
    {
        if amount_offered == 0 || amount_wanted == 0 {
            return Err(EscrowError::InvalidAmount);
        }
        if asset_offered == asset_wanted {
            return Err(EscrowError::SameAsset);
        }
        match derive_offer_authority(id) {
            None => Err(EscrowError::TransferFailure),
            Some(p) => {
                proof {
                    lemma_identity_of_bytes(p.0);
                }
                self.create_offer_with_authority(
                    id,
                    maker,
                    asset_offered,
                    asset_wanted,
                    amount_offered,
                    amount_wanted,
                    p.0,
                    p.1,
                )
            },
        }
    }

    /// Settle (take) the open offer with this id: pay the taker the whole
    /// vault balance in the offered asset, pay the maker the wanted amount
    /// from the taker in the wanted asset, and delete the offer and its
    /// vault — all four steps or none.
    pub fn settle_offer(&mut self, id: u64, taker: Identity) -> (r: Result<(), EscrowError>)
        requires
            old(self).wf(),
        ensures
            final(self).wf(),
            r is Err ==> final(self).offers@ == old(self).offers@ && final(self).vaults@ == old(
                self,
            ).vaults@ && final(self).ledger.accounts@ == old(self).ledger.accounts@,
            r == Err::<(), EscrowError>(EscrowError::NotFound) <==> !has_offer(
                old(self).offers@,
                id,
            ),
            r == Err::<(), EscrowError>(EscrowError::TransferFailure) <==> has_offer(
                old(self).offers@,
                id,
            ) && spec_settle_ledger(
                old(self).ledger.accounts@,
                taker,
                offer_at(old(self).offers@, id),
                vault_at(old(self).vaults@, id).amount,
            ) is None,
            r is Ok <==> has_offer(old(self).offers@, id) && spec_settle_ledger(
                old(self).ledger.accounts@,
                taker,
                offer_at(old(self).offers@, id),
                vault_at(old(self).vaults@, id).amount,
            ) is Some,
            r is Ok ==> final(self).ledger.accounts@ == spec_settle_ledger(
                old(self).ledger.accounts@,
                taker,
                offer_at(old(self).offers@, id),
                vault_at(old(self).vaults@, id).amount,
            ).unwrap(),
            r is Ok ==> final(self).offers@ == old(self).offers@.remove(
                offer_idx(old(self).offers@, id),
            ) && final(self).vaults@ == old(self).vaults@.remove(vault_idx(old(self).vaults@, id)),
            r is Ok ==> !has_offer(final(self).offers@, id) && !has_vault(final(self).vaults@, id),
            forall|id2: u64|
                id2 != id ==> #[trigger] has_offer(final(self).offers@, id2) == has_offer(
                    old(self).offers@,
                    id2,
                ),
            forall|id2: u64|
                id2 != id && #[trigger] has_offer(old(self).offers@, id2) ==> offer_at(
                    final(self).offers@,
                    id2,
                ) == offer_at(old(self).offers@, id2),
            forall|id2: u64|
                id2 != id && #[trigger] has_vault(old(self).vaults@, id2) ==> vault_at(
                    final(self).vaults@,
                    id2,
                ) == vault_at(old(self).vaults@, id2),
    {
        let oi = match self.find_offer(id) {
            None => {
                return Err(EscrowError::NotFound);
            },
            Some(oi) => oi,
        };
        let off = self.offers[oi];
        let vi_opt = self.find_vault(id);
        proof {
            assert(has_vault(self.vaults@, id));
        }
        let vi = vi_opt.unwrap();
        let vlt = self.vaults[vi];
        let bal_t_ao = self.ledger.balance(&taker, &off.asset_offered);
        let bal_t_aw = self.ledger.balance(&taker, &off.asset_wanted);
        let bal_m_aw = self.ledger.balance(&off.maker, &off.asset_wanted);
        proof {
            let l = self.ledger.accounts@;
            lemma_credit_props(l, taker, off.asset_offered, vlt.amount);
            lemma_debit_props(l, taker, off.asset_wanted, off.amount_wanted);
            if spec_credit(l, taker, off.asset_offered, vlt.amount) is Some {
                let l1 = spec_credit(l, taker, off.asset_offered, vlt.amount).unwrap();
                lemma_transfer_props(l1, taker, off.maker, off.asset_wanted, off.amount_wanted);
                lemma_debit_props(l1, taker, off.asset_wanted, off.amount_wanted);
            }
        }
        if vlt.amount > u64::MAX - bal_t_ao {
            return Err(EscrowError::TransferFailure);
        }
        if bal_t_aw < off.amount_wanted {
            return Err(EscrowError::TransferFailure);
        }
        if taker != off.maker && off.amount_wanted > u64::MAX - bal_m_aw {
            return Err(EscrowError::TransferFailure);
        }
        match self.ledger.credit(&taker, &off.asset_offered, vlt.amount) {
            Err(_) => {
                proof {
                    assert(false);
                }
                Err(EscrowError::TransferFailure)
            },
            Ok(()) => {
                match self.ledger.transfer(
                    &taker,
                    &off.maker,
                    &off.asset_wanted,
                    off.amount_wanted,
                ) {
                    Err(_) => {
                        proof {
                            assert(false);
                        }
                        Err(EscrowError::TransferFailure)
                    },
                    Ok(()) => {
                        self.offers.remove(oi);
                        self.vaults.remove(vi);
                        proof {
                            lemma_offer_remove(old(self).offers@, oi as int);
                            lemma_vault_remove(old(self).vaults@, vi as int);
                            assert forall|id2: u64|
                                #![trigger has_offer(self.offers@, id2)]
                                #![trigger has_vault(self.vaults@, id2)]
                                has_offer(self.offers@, id2) <==> has_vault(self.vaults@, id2) by {
                                if id2 != id {
                                    assert(has_offer(self.offers@, id2) == has_offer(
                                        old(self).offers@,
                                        id2,
                                    ));
                                    assert(has_vault(self.vaults@, id2) == has_vault(
                                        old(self).vaults@,
                                        id2,
                                    ));
                                }
                            }
                            assert forall|id2: u64| #[trigger]
                                has_offer(self.offers@, id2) implies offer_valid(
                                offer_at(self.offers@, id2),
                            ) && vault_at(self.vaults@, id2).asset == offer_at(
                                self.offers@,
                                id2,
                            ).asset_offered && vault_at(self.vaults@, id2).amount > 0 by {
                                assert(id2 != id);
                                assert(has_offer(old(self).offers@, id2));
                                assert(offer_at(self.offers@, id2) == offer_at(
                                    old(self).offers@,
                                    id2,
                                ));
                                assert(vault_at(self.vaults@, id2) == vault_at(
                                    old(self).vaults@,
                                    id2,
                                ));
                            }
                        }
                        Ok(())
                    },
                }
            },
        }
    }

    /// Cancel (refund) the open offer with this id: only its maker may do
    /// so. The whole vault balance returns to the maker and the offer and
    /// its vault are deleted — all or nothing.
    pub fn cancel_offer(&mut self, id: u64, caller: Identity) -> (r: Result<(), EscrowError>)
        requires
            old(self).wf(),
        ensures
            final(self).wf(),
            r is Err ==> final(self).offers@ == old(self).offers@ && final(self).vaults@ == old(
                self,
            ).vaults@ && final(self).ledger.accounts@ == old(self).ledger.accounts@,
            r == Err::<(), EscrowError>(EscrowError::NotFound) <==> !has_offer(
                old(self).offers@,
                id,
            ),
            r == Err::<(), EscrowError>(EscrowError::Unauthorized) <==> has_offer(
                old(self).offers@,
                id,
            ) && caller != offer_at(old(self).offers@, id).maker,
            r == Err::<(), EscrowError>(EscrowError::TransferFailure) <==> has_offer(
                old(self).offers@,
                id,
            ) && caller == offer_at(old(self).offers@, id).maker && spec_credit(
                old(self).ledger.accounts@,
                caller,
                offer_at(old(self).offers@, id).asset_offered,
                vault_at(old(self).vaults@, id).amount,
            ) is None,
            r is Ok <==> has_offer(old(self).offers@, id) && caller == offer_at(
                old(self).offers@,
                id,
            ).maker && spec_credit(
                old(self).ledger.accounts@,
                caller,
                offer_at(old(self).offers@, id).asset_offered,
                vault_at(old(self).vaults@, id).amount,
            ) is Some,
            r is Ok ==> final(self).ledger.accounts@ == spec_credit(
                old(self).ledger.accounts@,
                caller,
                offer_at(old(self).offers@, id).asset_offered,
                vault_at(old(self).vaults@, id).amount,
            ).unwrap(),
            r is Ok ==> balance_of(
                final(self).ledger.accounts@,
                caller,
                offer_at(old(self).offers@, id).asset_offered,
            ) == balance_of(
                old(self).ledger.accounts@,
                caller,
                offer_at(old(self).offers@, id).asset_offered,
            ) + vault_at(old(self).vaults@, id).amount,
            r is Ok ==> forall|o2: Identity, a2: AssetType|
                !(o2 == caller && a2 == offer_at(old(self).offers@, id).asset_offered)
                    ==> #[trigger] balance_of(final(self).ledger.accounts@, o2, a2) == balance_of(
                    old(self).ledger.accounts@,
                    o2,
                    a2,
                ),
            r is Ok ==> final(self).offers@ == old(self).offers@.remove(
                offer_idx(old(self).offers@, id),
            ) && final(self).vaults@ == old(self).vaults@.remove(vault_idx(old(self).vaults@, id)),
            r is Ok ==> !has_offer(final(self).offers@, id) && !has_vault(final(self).vaults@, id),
            forall|id2: u64|
                id2 != id ==> #[trigger] has_offer(final(self).offers@, id2) == has_offer(
                    old(self).offers@,
                    id2,
                ),
            forall|id2: u64|
                id2 != id && #[trigger] has_offer(old(self).offers@, id2) ==> offer_at(
                    final(self).offers@,
                    id2,
                ) == offer_at(old(self).offers@, id2),
            forall|id2: u64|
                id2 != id && #[trigger] has_vault(old(self).vaults@, id2) ==> vault_at(
                    final(self).vaults@,
                    id2,
                ) == vault_at(old(self).vaults@, id2),
    {
        let oi = match self.find_offer(id) {
            None => {
                return Err(EscrowError::NotFound);
            },
            Some(oi) => oi,
        };
        let off = self.offers[oi];
        if caller != off.maker {
            return Err(EscrowError::Unauthorized);
        }
        let vi_opt = self.find_vault(id);
        proof {
            assert(has_vault(self.vaults@, id));
        }
        let vi = vi_opt.unwrap();
        let vlt = self.vaults[vi];
        proof {
            lemma_credit_props(self.ledger.accounts@, caller, off.asset_offered, vlt.amount);
        }
        match self.ledger.credit(&caller, &off.asset_offered, vlt.amount) {
            Err(_) => Err(EscrowError::TransferFailure),
            Ok(()) => {
                self.offers.remove(oi);
                self.vaults.remove(vi);
                proof {
                    lemma_offer_remove(old(self).offers@, oi as int);
                    lemma_vault_remove(old(self).vaults@, vi as int);
                    assert forall|id2: u64|
                        #![trigger has_offer(self.offers@, id2)]
                        #![trigger has_vault(self.vaults@, id2)]
                        has_offer(self.offers@, id2) <==> has_vault(self.vaults@, id2) by {
                        if id2 != id {
                            assert(has_offer(self.offers@, id2) == has_offer(
                                old(self).offers@,
                                id2,
                            ));
                            assert(has_vault(self.vaults@, id2) == has_vault(
                                old(self).vaults@,
                                id2,
                            ));
                        }
                    }
                    assert forall|id2: u64| #[trigger]
                        has_offer(self.offers@, id2) implies offer_valid(
                        offer_at(self.offers@, id2),
                    ) && vault_at(self.vaults@, id2).asset == offer_at(
                        self.offers@,
                        id2,
                    ).asset_offered && vault_at(self.vaults@, id2).amount > 0 by {
                        assert(id2 != id);
                        assert(has_offer(old(self).offers@, id2));
                        assert(offer_at(self.offers@, id2) == offer_at(old(self).offers@, id2));
                        assert(vault_at(self.vaults@, id2) == vault_at(old(self).vaults@, id2));
                    }
                }
                Ok(())
            },
        }
    }
}

/// An offer is open exactly when its funded vault exists: no sequence of
/// operations leaves a vault without its offer record, or a record without
/// its vault.
pub proof fn lemma_offer_vault_correspondence(s: &Escrow)
    requires
        s.wf(),
    ensures
        forall|id: u64|
            #![trigger has_offer(s.offers@, id)]
            #![trigger has_vault(s.vaults@, id)]
            has_offer(s.offers@, id) <==> has_vault(s.vaults@, id),
        forall|id: u64| #[trigger] has_offer(s.offers@, id) ==> vault_at(s.vaults@, id).amount > 0,
{
}

} // verus!
