//! The custody ledger: who holds how much of which asset.
//!
//! The ledger is the model of the external custody collaborator. Each
//! `TokenAccount` is one holding: one owner, one asset, one balance. The
//! engine moves balances only through `credit`, `debit` and `transfer`,
//! each of which either commits in full or leaves the ledger untouched.

use vstd::prelude::*;

use crate::error::EscrowError;
use crate::keys::AssetType;
use crate::keys::Identity;

verus! {

/// One custody account: the balance one owner holds in one asset.
#[derive(Clone, Copy, PartialEq, Eq, Structural, Debug)]
pub struct TokenAccount {
    pub owner: Identity,
    pub asset: AssetType,
    pub amount: u64,
}

/// Does this account belong to owner `o` and asset `a`?
pub open spec fn acct_matches(acc: TokenAccount, o: Identity, a: AssetType) -> bool {
    acc.owner == o && acc.asset == a
}

/// No two accounts share an owner and an asset.
pub open spec fn wf_accounts(l: Seq<TokenAccount>) -> bool {
    forall|i: int, j: int|
        #![trigger l[i], l[j]]
        0 <= i < l.len() && 0 <= j < l.len() && l[i].owner == l[j].owner && l[i].asset
            == l[j].asset ==> i == j
}

/// Some account of owner `o` in asset `a` exists.
pub open spec fn has_acct(l: Seq<TokenAccount>, o: Identity, a: AssetType) -> bool {
    exists|i: int| 0 <= i < l.len() && acct_matches(#[trigger] l[i], o, a)
}

/// The index of the account of owner `o` in asset `a` (meaningful only when
/// `has_acct` holds; unique when `wf_accounts` holds).
pub open spec fn acct_idx(l: Seq<TokenAccount>, o: Identity, a: AssetType) -> int {
    choose|i: int| 0 <= i < l.len() && acct_matches(#[trigger] l[i], o, a)
}

/// The balance owner `o` holds in asset `a`; an absent account holds zero.
pub open spec fn balance_of(l: Seq<TokenAccount>, o: Identity, a: AssetType) -> u64 {
    if has_acct(l, o, a) {
        l[acct_idx(l, o, a)].amount
    } else {
        0
    }
}

/// Add `amount` to the holding of `(o, a)`, creating the account when
/// absent. `None` exactly when the new balance would not fit in a `u64`.
pub open spec fn spec_credit(
    l: Seq<TokenAccount>,
    o: Identity,
    a: AssetType,
    amount: u64,
) -> Option<Seq<TokenAccount>> {
    if has_acct(l, o, a) {
        let i = acct_idx(l, o, a);
        if l[i].amount + amount <= u64::MAX {
            Some(l.update(i, TokenAccount { owner: o, asset: a, amount: (l[i].amount + amount) as u64 }))
        } else {
            None
        }
    } else {
        Some(l.push(TokenAccount { owner: o, asset: a, amount }))
    }
}

/// Take `amount` from the holding of `(o, a)`. `None` exactly when the
/// account is absent or holds less than `amount`. The account stays, even
/// when emptied.
pub open spec fn spec_debit(
    l: Seq<TokenAccount>,
    o: Identity,
    a: AssetType,
    amount: u64,
) -> Option<Seq<TokenAccount>> {
    if has_acct(l, o, a) && l[acct_idx(l, o, a)].amount >= amount {
        let i = acct_idx(l, o, a);
        Some(l.update(i, TokenAccount { owner: o, asset: a, amount: (l[i].amount - amount) as u64 }))
    } else {
        None
    }
}

/// Move `amount` of asset `a` from `from` to `to`: a debit followed by a
/// credit. `None` exactly when either step fails; a transfer to oneself
/// always succeeds when the balance suffices.
pub open spec fn spec_transfer(
    l: Seq<TokenAccount>,
    from: Identity,
    to: Identity,
    a: AssetType,
    amount: u64,
) -> Option<Seq<TokenAccount>> {
    match spec_debit(l, from, a, amount) {
        Some(l1) => spec_credit(l1, to, a, amount),
        None => None,
    }
}

/// An index that matches `(o, a)` is the account of `(o, a)`: existence,
/// the chosen index and the balance all follow from it.
pub proof fn lemma_unique_idx(l: Seq<TokenAccount>, o: Identity, a: AssetType, i: int)
    requires
        wf_accounts(l),
        0 <= i < l.len(),
        acct_matches(l[i], o, a),
    ensures
        has_acct(l, o, a),
        acct_idx(l, o, a) == i,
        balance_of(l, o, a) == l[i].amount,
{
    assert(has_acct(l, o, a));
    let j = acct_idx(l, o, a);
    assert(0 <= j < l.len() && acct_matches(l[j], o, a));
    assert(i == j);
}

/// When no index matches `(o, a)`, the account is absent and the balance
/// is zero.
pub proof fn lemma_no_acct(l: Seq<TokenAccount>, o: Identity, a: AssetType)
    requires
        forall|t: int| 0 <= t < l.len() ==> !acct_matches(#[trigger] l[t], o, a),
    ensures
        !has_acct(l, o, a),
        balance_of(l, o, a) == 0,
{
}

/// Replacing the account at its own index with the same owner and asset and
/// a new amount keeps the ledger well formed, sets that balance, and leaves
/// every other holding as it was.
proof fn lemma_update_amount(l: Seq<TokenAccount>, o: Identity, a: AssetType, i: int, v: u64)
    requires
        wf_accounts(l),
        0 <= i < l.len(),
        acct_matches(l[i], o, a),
    ensures
        wf_accounts(l.update(i, TokenAccount { owner: o, asset: a, amount: v })),
        has_acct(l.update(i, TokenAccount { owner: o, asset: a, amount: v }), o, a),
        balance_of(l.update(i, TokenAccount { owner: o, asset: a, amount: v }), o, a) == v,
        forall|o2: Identity, a2: AssetType|
            !(o2 == o && a2 == a) ==> #[trigger] balance_of(
                l.update(i, TokenAccount { owner: o, asset: a, amount: v }),
                o2,
                a2,
            ) == balance_of(l, o2, a2),
        forall|o2: Identity, a2: AssetType|
            !(o2 == o && a2 == a) ==> #[trigger] has_acct(
                l.update(i, TokenAccount { owner: o, asset: a, amount: v }),
                o2,
                a2,
            ) == has_acct(l, o2, a2),
{
    let l2 = l.update(i, TokenAccount { owner: o, asset: a, amount: v });
    assert forall|x: int, y: int|
        0 <= x < l2.len() && 0 <= y < l2.len() && (#[trigger] l2[x]).owner == (
        #[trigger] l2[y]).owner && l2[x].asset == l2[y].asset implies x == y by {
        assert(l2[x] == if x == i { TokenAccount { owner: o, asset: a, amount: v } } else { l[x] });
        assert(l2[y] == if y == i { TokenAccount { owner: o, asset: a, amount: v } } else { l[y] });
        assert(l[x].owner == l2[x].owner && l[x].asset == l2[x].asset);
        assert(l[y].owner == l2[y].owner && l[y].asset == l2[y].asset);
    }
    lemma_unique_idx(l2, o, a, i);
    assert forall|o2: Identity, a2: AssetType| !(o2 == o && a2 == a) implies #[trigger] balance_of(
        l2,
        o2,
        a2,
    ) == balance_of(l, o2, a2) by {
        lemma_update_other(l, o, a, i, v, o2, a2);
    }
    assert forall|o2: Identity, a2: AssetType| !(o2 == o && a2 == a) implies #[trigger] has_acct(
        l2,
        o2,
        a2,
    ) == has_acct(l, o2, a2) by {
        lemma_update_other(l, o, a, i, v, o2, a2);
    }
}

/// One holding other than `(o, a)` is untouched by replacing the account
/// at `i` with the same owner and asset and a new amount.
proof fn lemma_update_other(
    l: Seq<TokenAccount>,
    o: Identity,
    a: AssetType,
    i: int,
    v: u64,
    o2: Identity,
    a2: AssetType,
)
    requires
        wf_accounts(l),
        0 <= i < l.len(),
        acct_matches(l[i], o, a),
        !(o2 == o && a2 == a),
    ensures
        balance_of(l.update(i, TokenAccount { owner: o, asset: a, amount: v }), o2, a2)
            == balance_of(l, o2, a2),
        has_acct(l.update(i, TokenAccount { owner: o, asset: a, amount: v }), o2, a2) == has_acct(
            l,
            o2,
            a2,
        ),
{
    let l2 = l.update(i, TokenAccount { owner: o, asset: a, amount: v });
    if has_acct(l, o2, a2) {
        let j = acct_idx(l, o2, a2);
        assert(acct_matches(l[j], o2, a2));
        assert(j != i);
        assert(acct_matches(l2[j], o2, a2));
        lemma_unique_idx(l, o2, a2, j);
        assert(wf_accounts(l2)) by {
            assert forall|x: int, y: int|
                0 <= x < l2.len() && 0 <= y < l2.len() && (#[trigger] l2[x]).owner == (
                #[trigger] l2[y]).owner && l2[x].asset == l2[y].asset implies x == y by {
                assert(l2[x] == if x == i {
                    TokenAccount { owner: o, asset: a, amount: v }
                } else {
                    l[x]
                });
                assert(l2[y] == if y == i {
                    TokenAccount { owner: o, asset: a, amount: v }
                } else {
                    l[y]
                });
                assert(l[x].owner == l2[x].owner && l[x].asset == l2[x].asset);
                assert(l[y].owner == l2[y].owner && l[y].asset == l2[y].asset);
            }
        }
        lemma_unique_idx(l2, o2, a2, j);
    } else {
        assert forall|t: int| 0 <= t < l2.len() implies !acct_matches(#[trigger] l2[t], o2, a2) by {
            if t != i {
                assert(l2[t] == l[t]);
                if acct_matches(l[t], o2, a2) {
                    assert(has_acct(l, o2, a2));
                }
            }
        }
        lemma_no_acct(l2, o2, a2);
        lemma_no_acct(l, o2, a2);
    }
}

/// Appending a fresh account keeps the ledger well formed, sets that
/// balance, and leaves every other holding as it was.
proof fn lemma_push_acct(l: Seq<TokenAccount>, o: Identity, a: AssetType, v: u64)
    requires
        wf_accounts(l),
        !has_acct(l, o, a),
    ensures
        wf_accounts(l.push(TokenAccount { owner: o, asset: a, amount: v })),
        has_acct(l.push(TokenAccount { owner: o, asset: a, amount: v }), o, a),
        balance_of(l.push(TokenAccount { owner: o, asset: a, amount: v }), o, a) == v,
        forall|o2: Identity, a2: AssetType|
            !(o2 == o && a2 == a) ==> #[trigger] balance_of(
                l.push(TokenAccount { owner: o, asset: a, amount: v }),
                o2,
                a2,
            ) == balance_of(l, o2, a2),
        forall|o2: Identity, a2: AssetType|
            !(o2 == o && a2 == a) ==> #[trigger] has_acct(
                l.push(TokenAccount { owner: o, asset: a, amount: v }),
                o2,
                a2,
            ) == has_acct(l, o2, a2),
{
    let n = l.len() as int;
    let l2 = l.push(TokenAccount { owner: o, asset: a, amount: v });
    assert forall|x: int, y: int|
        0 <= x < l2.len() && 0 <= y < l2.len() && (#[trigger] l2[x]).owner == (
        #[trigger] l2[y]).owner && l2[x].asset == l2[y].asset implies x == y by {
        if x < n && y < n {
            assert(l2[x] == l[x] && l2[y] == l[y]);
        } else if x == n && y < n {
            assert(l2[y] == l[y]);
            assert(acct_matches(l[y], o, a));
            assert(has_acct(l, o, a));
        } else if x < n && y == n {
            assert(l2[x] == l[x]);
            assert(acct_matches(l[x], o, a));
            assert(has_acct(l, o, a));
        }
    }
    assert(acct_matches(l2[n], o, a));
    lemma_unique_idx(l2, o, a, n);
    assert forall|o2: Identity, a2: AssetType| !(o2 == o && a2 == a) implies #[trigger] balance_of(
        l2,
        o2,
        a2,
    ) == balance_of(l, o2, a2) by {
        lemma_push_other(l, o, a, v, o2, a2);
    }
    assert forall|o2: Identity, a2: AssetType| !(o2 == o && a2 == a) implies #[trigger] has_acct(
        l2,
        o2,
        a2,
    ) == has_acct(l, o2, a2) by {
        lemma_push_other(l, o, a, v, o2, a2);
    }
}

/// One holding other than `(o, a)` is untouched by appending a fresh
/// account for `(o, a)`.
proof fn lemma_push_other(
    l: Seq<TokenAccount>,
    o: Identity,
    a: AssetType,
    v: u64,
    o2: Identity,
    a2: AssetType,
)
    requires
        wf_accounts(l),
        !has_acct(l, o, a),
        !(o2 == o && a2 == a),
    ensures
        balance_of(l.push(TokenAccount { owner: o, asset: a, amount: v }), o2, a2) == balance_of(
            l,
            o2,
            a2,
        ),
        has_acct(l.push(TokenAccount { owner: o, asset: a, amount: v }), o2, a2) == has_acct(
            l,
            o2,
            a2,
        ),
{
    let n = l.len() as int;
    let l2 = l.push(TokenAccount { owner: o, asset: a, amount: v });
    if has_acct(l, o2, a2) {
        let j = acct_idx(l, o2, a2);
        assert(acct_matches(l[j], o2, a2));
        assert(acct_matches(l2[j], o2, a2));
        lemma_unique_idx(l, o2, a2, j);
        assert(wf_accounts(l2)) by {
            assert forall|x: int, y: int|
                0 <= x < l2.len() && 0 <= y < l2.len() && (#[trigger] l2[x]).owner == (
                #[trigger] l2[y]).owner && l2[x].asset == l2[y].asset implies x == y by {
                if x < n && y < n {
                    assert(l2[x] == l[x] && l2[y] == l[y]);
                } else if x == n && y < n {
                    assert(l2[y] == l[y]);
                    assert(acct_matches(l[y], o, a));
                    assert(has_acct(l, o, a));
                } else if x < n && y == n {
                    assert(l2[x] == l[x]);
                    assert(acct_matches(l[x], o, a));
                    assert(has_acct(l, o, a));
                }
            }
        }
        lemma_unique_idx(l2, o2, a2, j);
    } else {
        assert forall|t: int| 0 <= t < l2.len() implies !acct_matches(#[trigger] l2[t], o2, a2) by {
            if t < n {
                assert(l2[t] == l[t]);
                if acct_matches(l[t], o2, a2) {
                    assert(has_acct(l, o2, a2));
                }
            }
        }
        lemma_no_acct(l2, o2, a2);
        lemma_no_acct(l, o2, a2);
    }
}

/// What a credit does: it succeeds exactly when the new balance fits, adds
/// `amount` to the holding of `(o, a)`, and touches nothing else.
pub proof fn lemma_credit_props(l: Seq<TokenAccount>, o: Identity, a: AssetType, amount: u64)
    requires
        wf_accounts(l),
    ensures
        spec_credit(l, o, a, amount) is Some <==> balance_of(l, o, a) + amount <= u64::MAX,
        spec_credit(l, o, a, amount) matches Some(l2) ==> wf_accounts(l2) && has_acct(l2, o, a)
            && balance_of(l2, o, a) == balance_of(l, o, a) + amount,
        spec_credit(l, o, a, amount) matches Some(l2) ==> (forall|o2: Identity, a2: AssetType|
            !(o2 == o && a2 == a) ==> #[trigger] balance_of(l2, o2, a2) == balance_of(l, o2, a2)),
        spec_credit(l, o, a, amount) matches Some(l2) ==> (forall|o2: Identity, a2: AssetType|
            !(o2 == o && a2 == a) ==> #[trigger] has_acct(l2, o2, a2) == has_acct(l, o2, a2)),
{
    if has_acct(l, o, a) {
        let i = acct_idx(l, o, a);
        assert(0 <= i < l.len() && acct_matches(l[i], o, a));
        lemma_unique_idx(l, o, a, i);
        if l[i].amount + amount <= u64::MAX {
            lemma_update_amount(l, o, a, i, (l[i].amount + amount) as u64);
        }
    } else {
        lemma_push_acct(l, o, a, amount);
    }
}

/// What a debit does: it succeeds exactly when the account exists and the
/// balance suffices, takes `amount` from the holding of `(o, a)`, and
/// touches nothing else. A positive balance implies the account exists.
pub proof fn lemma_debit_props(l: Seq<TokenAccount>, o: Identity, a: AssetType, amount: u64)
    requires
        wf_accounts(l),
    ensures
        spec_debit(l, o, a, amount) is Some <==> has_acct(l, o, a) && balance_of(l, o, a)
            >= amount,
        balance_of(l, o, a) > 0 ==> has_acct(l, o, a),
        spec_debit(l, o, a, amount) matches Some(l2) ==> wf_accounts(l2) && has_acct(l2, o, a)
            && balance_of(l2, o, a) == balance_of(l, o, a) - amount,
        spec_debit(l, o, a, amount) matches Some(l2) ==> (forall|o2: Identity, a2: AssetType|
            !(o2 == o && a2 == a) ==> #[trigger] balance_of(l2, o2, a2) == balance_of(l, o2, a2)),
        spec_debit(l, o, a, amount) matches Some(l2) ==> (forall|o2: Identity, a2: AssetType|
            !(o2 == o && a2 == a) ==> #[trigger] has_acct(l2, o2, a2) == has_acct(l, o2, a2)),
{
    if has_acct(l, o, a) {
        let i = acct_idx(l, o, a);
        assert(0 <= i < l.len() && acct_matches(l[i], o, a));
        lemma_unique_idx(l, o, a, i);
        if l[i].amount >= amount {
            lemma_update_amount(l, o, a, i, (l[i].amount - amount) as u64);
        }
    }
}

/// What a transfer does: it succeeds exactly when the source account covers
/// the amount and the destination balance would still fit (a transfer to
/// oneself always fits); it moves `amount` between the two holdings and
/// touches nothing else.
pub proof fn lemma_transfer_props(
    l: Seq<TokenAccount>,
    from: Identity,
    to: Identity,
    a: AssetType,
    amount: u64,
)
    requires
        wf_accounts(l),
    ensures
        spec_transfer(l, from, to, a, amount) is Some <==> has_acct(l, from, a) && balance_of(
            l,
            from,
            a,
        ) >= amount && (from == to || balance_of(l, to, a) + amount <= u64::MAX),
        spec_transfer(l, from, to, a, amount) matches Some(l2) ==> wf_accounts(l2) && has_acct(
            l2,
            to,
            a,
        ) && balance_of(l2, from, a) == if from == to {
            balance_of(l, from, a) as int
        } else {
            balance_of(l, from, a) - amount
        } && balance_of(l2, to, a) == if from == to {
            balance_of(l, to, a) as int
        } else {
            balance_of(l, to, a) + amount
        },
        spec_transfer(l, from, to, a, amount) matches Some(l2) ==> (forall|
            o2: Identity,
            a2: AssetType,
        |
            !(o2 == from && a2 == a) && !(o2 == to && a2 == a) ==> #[trigger] balance_of(
                l2,
                o2,
                a2,
            ) == balance_of(l, o2, a2)),
        spec_transfer(l, from, to, a, amount) matches Some(l2) ==> (forall|
            o2: Identity,
            a2: AssetType,
        |
            !(o2 == from && a2 == a) && !(o2 == to && a2 == a) ==> #[trigger] has_acct(l2, o2, a2)
                == has_acct(l, o2, a2)),
{
    lemma_debit_props(l, from, a, amount);
    if spec_debit(l, from, a, amount) is Some {
        let l1 = spec_debit(l, from, a, amount).unwrap();
        lemma_credit_props(l1, to, a, amount);
        if from == to {
            assert(balance_of(l1, to, a) == balance_of(l, from, a) - amount);
            assert(balance_of(l1, to, a) + amount <= u64::MAX);
        } else {
            assert(balance_of(l1, to, a) == balance_of(l, to, a));
        }
        if spec_credit(l1, to, a, amount) is Some {
            let l2 = spec_credit(l1, to, a, amount).unwrap();
            assert(spec_transfer(l, from, to, a, amount) == Some(l2));
            if from != to {
                assert(balance_of(l2, from, a) == balance_of(l1, from, a));
                assert(balance_of(l2, to, a) == balance_of(l, to, a) + amount);
            }
            assert forall|o2: Identity, a2: AssetType|
                !(o2 == from && a2 == a) && !(o2 == to && a2 == a) implies #[trigger] balance_of(
                l2,
                o2,
                a2,
            ) == balance_of(l, o2, a2) by {
                assert(balance_of(l1, o2, a2) == balance_of(l, o2, a2));
                assert(balance_of(l2, o2, a2) == balance_of(l1, o2, a2));
            }
            assert forall|o2: Identity, a2: AssetType|
                !(o2 == from && a2 == a) && !(o2 == to && a2 == a) implies #[trigger] has_acct(
                l2,
                o2,
                a2,
            ) == has_acct(l, o2, a2) by {
                assert(has_acct(l1, o2, a2) == has_acct(l, o2, a2));
                assert(has_acct(l2, o2, a2) == has_acct(l1, o2, a2));
            }
        }
    }
}

/// A deposit is reversible: after debiting an amount from a holding,
/// crediting the same amount back is always possible and restores every
/// balance on the ledger to what it was.
pub proof fn lemma_debit_credit_round_trip(
    l: Seq<TokenAccount>,
    l1: Seq<TokenAccount>,
    o: Identity,
    a: AssetType,
    amount: u64,
)
    requires
        wf_accounts(l),
        spec_debit(l, o, a, amount) == Some(l1),
    ensures
        spec_credit(l1, o, a, amount) is Some,
        forall|o2: Identity, a2: AssetType| #[trigger]
            balance_of(spec_credit(l1, o, a, amount).unwrap(), o2, a2) == balance_of(l, o2, a2),
{
    lemma_debit_props(l, o, a, amount);
    lemma_credit_props(l1, o, a, amount);
    let l2 = spec_credit(l1, o, a, amount).unwrap();
    assert forall|o2: Identity, a2: AssetType| #[trigger] balance_of(l2, o2, a2) == balance_of(
        l,
        o2,
        a2,
    ) by {
        if !(o2 == o && a2 == a) {
            assert(balance_of(l1, o2, a2) == balance_of(l, o2, a2));
            assert(balance_of(l2, o2, a2) == balance_of(l1, o2, a2));
        }
    }
}

/// The executable ledger: a list of custody accounts, at most one per
/// owner and asset.
pub struct Ledger {
    pub accounts: Vec<TokenAccount>,
}

impl Ledger {
    /// At most one account per owner and asset.
    pub open spec fn wf(&self) -> bool {
        wf_accounts(self.accounts@)
    }

    /// A ledger with no accounts at all.
    pub fn new() -> (r: Ledger)
        ensures
            r.wf(),
            r.accounts@ =~= Seq::<TokenAccount>::empty(),
    {
        Ledger { accounts: Vec::new() }
    }

    /// Find the index of the account of `(o, a)`, if one exists.
    fn find_account(&self, o: &Identity, a: &AssetType) -> (r: Option<usize>)
        requires
            self.wf(),
        ensures
            r is Some <==> has_acct(self.accounts@, *o, *a),
            r matches Some(i) ==> i < self.accounts@.len() && i == acct_idx(
                self.accounts@,
                *o,
                *a,
            ),
    {
        let n = self.accounts.len();
        let mut k: usize = 0;
        while k < n
            invariant
                n == self.accounts@.len(),
                k <= n,
                self.wf(),
                forall|t: int| 0 <= t < k ==> !acct_matches(#[trigger] self.accounts@[t], *o, *a),
            decreases n - k,
        {
            let acc = &self.accounts[k];
            if acc.owner == *o && acc.asset == *a {
                proof {
                    lemma_unique_idx(self.accounts@, *o, *a, k as int);
                }
                return Some(k);
            }
            k += 1;
        }
        proof {
            lemma_no_acct(self.accounts@, *o, *a);
        }
        None
    }

    /// The balance owner `o` holds in asset `a`; zero when no account
    /// exists.
    pub fn balance(&self, o: &Identity, a: &AssetType) -> (r: u64)
        requires
            self.wf(),
        ensures
            r == balance_of(self.accounts@, *o, *a),
    {
        match self.find_account(o, a) {
            Some(i) => self.accounts[i].amount,
            None => 0,
        }
    }

    /// Add `amount` to the holding of `(o, a)`, creating the account when
    /// absent; refused only when the new balance would not fit.
    pub fn credit(&mut self, o: &Identity, a: &AssetType, amount: u64) -> (r: Result<
        (),
        EscrowError,
    >)
        requires
            old(self).wf(),
        ensures
            final(self).wf(),
            r is Ok <==> spec_credit(old(self).accounts@, *o, *a, amount) is Some,
            r is Ok ==> final(self).accounts@ == spec_credit(
                old(self).accounts@,
                *o,
                *a,
                amount,
            ).unwrap(),
            r is Err ==> final(self).accounts@ == old(self).accounts@ && r == Err::<
                (),
                EscrowError,
            >(EscrowError::TransferFailure),
    {
        proof {
            lemma_credit_props(self.accounts@, *o, *a, amount);
        }
        match self.find_account(o, a) {
            Some(i) => {
                let cur = self.accounts[i].amount;
                if amount <= u64::MAX - cur {
                    self.accounts.set(i, TokenAccount { owner: *o, asset: *a, amount: cur + amount });
                    Ok(())
                } else {
                    Err(EscrowError::TransferFailure)
                }
            },
            None => {
                self.accounts.push(TokenAccount { owner: *o, asset: *a, amount });
                Ok(())
            },
        }
    }

    /// Take `amount` from the holding of `(o, a)`; refused when the account
    /// is absent or its balance is below `amount`. The account stays, even
    /// when emptied.
    pub fn debit(&mut self, o: &Identity, a: &AssetType, amount: u64) -> (r: Result<
        (),
        EscrowError,
    >)
        requires
            old(self).wf(),
        ensures
            final(self).wf(),
            r is Ok <==> spec_debit(old(self).accounts@, *o, *a, amount) is Some,
            r is Ok ==> final(self).accounts@ == spec_debit(
                old(self).accounts@,
                *o,
                *a,
                amount,
            ).unwrap(),
            r is Err ==> final(self).accounts@ == old(self).accounts@ && r == Err::<
                (),
                EscrowError,
            >(EscrowError::TransferFailure),
    {
        proof {
            lemma_debit_props(self.accounts@, *o, *a, amount);
        }
        match self.find_account(o, a) {
            Some(i) => {
                let cur = self.accounts[i].amount;
                if cur >= amount {
                    self.accounts.set(i, TokenAccount { owner: *o, asset: *a, amount: cur - amount });
                    Ok(())
                } else {
                    Err(EscrowError::TransferFailure)
                }
            },
            None => Err(EscrowError::TransferFailure),
        }
    }

    /// Move `amount` of asset `a` from `from` to `to`, atomically: on any
    /// refusal the ledger is untouched.
    pub fn transfer(&mut self, from: &Identity, to: &Identity, a: &AssetType, amount: u64) -> (r:
        Result<(), EscrowError>)
        requires
            old(self).wf(),
        ensures
            final(self).wf(),
            r is Ok <==> spec_transfer(old(self).accounts@, *from, *to, *a, amount) is Some,
            r is Ok ==> final(self).accounts@ == spec_transfer(
                old(self).accounts@,
                *from,
                *to,
                *a,
                amount,
            ).unwrap(),
            r is Err ==> final(self).accounts@ == old(self).accounts@ && r == Err::<
                (),
                EscrowError,
            >(EscrowError::TransferFailure),
    {
        proof {
            lemma_transfer_props(self.accounts@, *from, *to, *a, amount);
            lemma_debit_props(self.accounts@, *from, *a, amount);
        }
        let src = self.balance(from, a);
        if src < amount {
            return Err(EscrowError::TransferFailure);
        }
        match self.find_account(from, a) {
            None => Err(EscrowError::TransferFailure),
            Some(_) => {
                if from != to {
                    let dst = self.balance(to, a);
                    if amount > u64::MAX - dst {
                        return Err(EscrowError::TransferFailure);
                    }
                }
                proof {
                    if spec_debit(self.accounts@, *from, *a, amount) is Some {
                        let l1 = spec_debit(self.accounts@, *from, *a, amount).unwrap();
                        lemma_credit_props(l1, *to, *a, amount);
                    }
                }
                match self.debit(from, a, amount) {
                    Err(_) => {
                        proof {
                            assert(false);
                        }
                        Err(EscrowError::TransferFailure)
                    },
                    Ok(()) => {
                        match self.credit(to, a, amount) {
                            Err(_) => {
                                proof {
                                    assert(false);
                                }
                                Err(EscrowError::TransferFailure)
                            },
                            Ok(()) => Ok(()),
                        }
                    },
                }
            },
        }
    }
}

} // verus!
