//! Append-only payment totals.
//!
//! The ledger keeps one running total per asset and one per `(user, asset)`
//! pair.  Both only ever grow: there is no decrement operation anywhere in
//! the crate.  Its well-formedness carries the accounting identity: for
//! every asset, the per-user totals add up exactly to the global total.

use vstd::prelude::*;

use crate::bytes::{bytes_eq, clone_bytes};
use crate::table::{
    entry_of, has_key, key_index, keys_unique, lemma_key_index_is, lemma_push_fresh,
    lemma_update_entry,
};

verus! {

/// Running total of payments in one asset, across all users.
pub struct AssetTotal {
    pub asset: Vec<u8>,
    pub amount: u128,
}

/// Running total of one user's payments in one asset.
pub struct UserAssetTotal {
    pub user: Vec<u8>,
    pub asset: Vec<u8>,
    pub amount: u128,
}

/// Key of a global total: its asset id.
pub open spec fn asset_key() -> spec_fn(AssetTotal) -> Seq<u8> {
    |e: AssetTotal| e.asset@
}

/// Key of a per-user total: the `(user, asset)` pair.
pub open spec fn user_asset_key() -> spec_fn(UserAssetTotal) -> (Seq<u8>, Seq<u8>) {
    |e: UserAssetTotal| (e.user@, e.asset@)
}

/// Sum of the per-user totals for asset `a`.
pub open spec fn sum_for_asset(s: Seq<UserAssetTotal>, a: Seq<u8>) -> int
    decreases s.len(),
{
    if s.len() == 0 {
        0
    } else {
        sum_for_asset(s.drop_last(), a) + if s.last().asset@ == a {
            s.last().amount as int
        } else {
            0
        }
    }
}

/// Global total recorded for asset `a`: the amount of its entry, zero when
/// the asset was never used.
pub open spec fn total_amount_of(s: Seq<AssetTotal>, a: Seq<u8>) -> int {
    if has_key(s, asset_key(), a) {
        entry_of(s, asset_key(), a).amount as int
    } else {
        0
    }
}

/// Total recorded for user `u` in asset `a`: zero when the pair was never
/// used.
pub open spec fn user_amount_of(s: Seq<UserAssetTotal>, u: Seq<u8>, a: Seq<u8>) -> int {
    if has_key(s, user_asset_key(), (u, a)) {
        entry_of(s, user_asset_key(), (u, a)).amount as int
    } else {
        0
    }
}

proof fn lemma_sum_push(s: Seq<UserAssetTotal>, e: UserAssetTotal, a: Seq<u8>)
    ensures
        sum_for_asset(s.push(e), a) == sum_for_asset(s, a) + if e.asset@ == a {
            e.amount as int
        } else {
            0
        },
{
    assert(s.push(e).drop_last() =~= s);
    assert(s.push(e).last() == e);
}

proof fn lemma_sum_update(s: Seq<UserAssetTotal>, i: int, e: UserAssetTotal, a: Seq<u8>)
    requires
        0 <= i < s.len(),
    ensures
        sum_for_asset(s.update(i, e), a) == sum_for_asset(s, a) - (if s[i].asset@ == a {
            s[i].amount as int
        } else {
            0
        }) + (if e.asset@ == a {
            e.amount as int
        } else {
            0
        }),
    decreases s.len(),
{
    let t = s.update(i, e);
    if i == s.len() - 1 {
        assert(t.drop_last() =~= s.drop_last());
        assert(t.last() == e);
        assert(s.last() == s[i]);
    } else {
        assert(t.drop_last() =~= s.drop_last().update(i, e));
        assert(t.last() == s.last());
        lemma_sum_update(s.drop_last(), i, e, a);
    }
}

proof fn lemma_sum_nonneg(s: Seq<UserAssetTotal>, a: Seq<u8>)
    ensures
        sum_for_asset(s, a) >= 0,
    decreases s.len(),
{
    if s.len() > 0 {
        lemma_sum_nonneg(s.drop_last(), a);
    }
}

/// One entry's amount never exceeds the sum over its asset.
proof fn lemma_entry_le_sum(s: Seq<UserAssetTotal>, i: int, a: Seq<u8>)
    requires
        0 <= i < s.len(),
        s[i].asset@ == a,
    ensures
        s[i].amount as int <= sum_for_asset(s, a),
    decreases s.len(),
{
    if i == s.len() - 1 {
        lemma_sum_nonneg(s.drop_last(), a);
        assert(s.last() == s[i]);
    } else {
        lemma_entry_le_sum(s.drop_last(), i, a);
        assert(s.drop_last()[i] == s[i]);
    }
}

/// The two totals tables.
pub struct Ledger {
    pub totals: Vec<AssetTotal>,
    pub user_totals: Vec<UserAssetTotal>,
}

/// How one recorded payment of `amount` in `asset` by `user` changes a
/// ledger: both totals for the pair grow by exactly `amount`, every other
/// total is untouched, and the asset list at most gains `asset` at its end.
pub open spec fn ledger_post(
    pre: Ledger,
    post: Ledger,
    user: Seq<u8>,
    asset: Seq<u8>,
    amount: u128,
) -> bool {
    &&& post.has_total(asset)
    &&& post.total_of(asset) == pre.total_of(asset) + amount
    &&& post.has_user_total(user, asset)
    &&& post.user_total_of(user, asset) == pre.user_total_of(user, asset) + amount
    &&& (forall|a: Seq<u8>| a != asset ==> #[trigger] post.has_total(a) == pre.has_total(a))
    &&& (forall|a: Seq<u8>| a != asset ==> #[trigger] post.total_of(a) == pre.total_of(a))
    &&& (forall|u: Seq<u8>, a: Seq<u8>|
        !(u == user && a == asset) ==> #[trigger] post.has_user_total(u, a)
            == pre.has_user_total(u, a))
    &&& (forall|u: Seq<u8>, a: Seq<u8>|
        !(u == user && a == asset) ==> #[trigger] post.user_total_of(u, a)
            == pre.user_total_of(u, a))
    &&& post.totals@.len() == pre.totals@.len() + (if pre.has_total(asset) {
        0int
    } else {
        1int
    })
    &&& (forall|i: int|
        0 <= i < pre.totals@.len() ==> #[trigger] post.totals@[i].asset@ == pre.totals@[i].asset@)
    &&& (!pre.has_total(asset) ==> post.totals@[post.totals@.len() - 1].asset@ == asset)
}

impl Ledger {
    /// The accounting identity: for every asset, the per-user totals add up
    /// exactly to the global total.
    pub open spec fn accounting_identity(self) -> bool {
        forall|a: Seq<u8>|
            #[trigger] sum_for_asset(self.user_totals@, a) == total_amount_of(self.totals@, a)
    }

    /// Well-formedness: unique keys in both tables, every per-user entry's
    /// asset present in the global table, and the accounting identity.
    pub open spec fn wf(self) -> bool {
        &&& keys_unique(self.totals@, asset_key())
        &&& keys_unique(self.user_totals@, user_asset_key())
        &&& forall|i: int|
            0 <= i < self.user_totals@.len() ==> has_key(
                self.totals@,
                asset_key(),
                #[trigger] self.user_totals@[i].asset@,
            )
        &&& self.accounting_identity()
    }

    /// Whether asset `a` was ever used for a payment.
    pub open spec fn has_total(self, a: Seq<u8>) -> bool {
        has_key(self.totals@, asset_key(), a)
    }

    /// The global total for asset `a`.
    pub open spec fn total_of(self, a: Seq<u8>) -> int {
        total_amount_of(self.totals@, a)
    }

    /// Whether user `u` ever paid in asset `a`.
    pub open spec fn has_user_total(self, u: Seq<u8>, a: Seq<u8>) -> bool {
        has_key(self.user_totals@, user_asset_key(), (u, a))
    }

    /// User `u`'s total for asset `a`.
    pub open spec fn user_total_of(self, u: Seq<u8>, a: Seq<u8>) -> int {
        user_amount_of(self.user_totals@, u, a)
    }

    /// An empty ledger.
    pub fn new() -> (r: Ledger)
        ensures
            r.wf(),
            r.totals@.len() == 0,
            r.user_totals@.len() == 0,
    {
        let r = Ledger { totals: Vec::new(), user_totals: Vec::new() };
        proof {
            assert forall|a: Seq<u8>|
                #[trigger] sum_for_asset(r.user_totals@, a) == total_amount_of(
                    r.totals@,
                    a,
                ) by {
                assert(!has_key(r.totals@, asset_key(), a));
            }
        }
        r
    }

    /// Adds `amount` to the global total for `asset` and to `user`'s total
    /// for it, creating either entry on first touch.
    pub fn record(&mut self, user: &Vec<u8>, asset: &Vec<u8>, amount: u128)
        requires
            old(self).wf(),
            old(self).total_of(asset@) + amount <= u128::MAX,
        ensures
            final(self).wf(),
            ledger_post(*old(self), *final(self), user@, asset@, amount),
    {
        let ghost old_totals = self.totals@;
        let ghost old_uts = self.user_totals@;

        // Global total: add or create.
        match Self::find_total(&self.totals, asset) {
            Some(i) => {
                proof {
                    lemma_key_index_is(old_totals, asset_key(), i as int);
                }
                let cur = self.totals[i].amount;
                let e = AssetTotal { asset: clone_bytes(asset), amount: cur + amount };
                proof {
                    lemma_update_entry(old_totals, asset_key(), i as int, e);
                }
                self.totals[i] = e;
            },
            None => {
                let e = AssetTotal { asset: clone_bytes(asset), amount };
                proof {
                    lemma_push_fresh(old_totals, asset_key(), e);
                }
                self.totals.push(e);
            },
        }
        let ghost new_totals = self.totals@;

        // Per-user total: add or create.  The entry's amount never exceeds
        // the global total, so the addition below cannot overflow.
        match Self::find_user_total(&self.user_totals, user, asset) {
            Some(j) => {
                proof {
                    lemma_key_index_is(old_uts, user_asset_key(), j as int);
                    lemma_entry_le_sum(old_uts, j as int, asset@);
                }
                let cur = self.user_totals[j].amount;
                let e = UserAssetTotal {
                    user: clone_bytes(user),
                    asset: clone_bytes(asset),
                    amount: cur + amount,
                };
                proof {
                    lemma_update_entry(old_uts, user_asset_key(), j as int, e);
                    lemma_sum_update_all(old_uts, j as int, e);
                }
                self.user_totals[j] = e;
            },
            None => {
                let e = UserAssetTotal {
                    user: clone_bytes(user),
                    asset: clone_bytes(asset),
                    amount,
                };
                proof {
                    lemma_push_fresh(old_uts, user_asset_key(), e);
                    lemma_sum_push_all(old_uts, e);
                }
                self.user_totals.push(e);
            },
        }

        proof {
            assert forall|a: Seq<u8>|
                #[trigger] sum_for_asset(self.user_totals@, a) == total_amount_of(
                    self.totals@,
                    a,
                ) by {
                assert(sum_for_asset(old_uts, a) == total_amount_of(old_totals, a));
            }
            assert forall|i: int|
                0 <= i < self.user_totals@.len() implies has_key(
                self.totals@,
                asset_key(),
                #[trigger] self.user_totals@[i].asset@,
            ) by {
                if i < old_uts.len() && self.user_totals@[i] == old_uts[i] {
                    assert(has_key(old_totals, asset_key(), old_uts[i].asset@));
                }
            }
        }
    }

    /// Looks up the index of the entry for `asset` in the global table.
    fn find_total(totals: &Vec<AssetTotal>, asset: &Vec<u8>) -> (r: Option<usize>)
        ensures
            match r {
                Some(i) => i < totals@.len() && totals@[i as int].asset@ == asset@,
                None => !has_key(totals@, asset_key(), asset@),
            },
    {
        let mut i: usize = 0;
        while i < totals.len()
            invariant
                i <= totals@.len(),
                forall|j: int| 0 <= j < i ==> totals@[j].asset@ != asset@,
            decreases totals@.len() - i,
        {
            if bytes_eq(&totals[i].asset, asset) {
                return Some(i);
            }
            i += 1;
        }
        None
    }

    /// Looks up the index of the entry for `(user, asset)` in the per-user
    /// table.
    fn find_user_total(uts: &Vec<UserAssetTotal>, user: &Vec<u8>, asset: &Vec<u8>) -> (r: Option<
        usize,
    >)
        ensures
            match r {
                Some(i) => i < uts@.len() && uts@[i as int].user@ == user@ && uts@[i as int].asset@
                    == asset@,
                None => !has_key(uts@, user_asset_key(), (user@, asset@)),
            },
    {
        let mut i: usize = 0;
        while i < uts.len()
            invariant
                i <= uts@.len(),
                forall|j: int|
                    0 <= j < i ==> !(uts@[j].user@ == user@ && uts@[j].asset@ == asset@),
            decreases uts@.len() - i,
        {
            if bytes_eq(&uts[i].user, user) && bytes_eq(&uts[i].asset, asset) {
                return Some(i);
            }
            i += 1;
        }
        None
    }

    /// The recorded global total for `asset`; zero when never used.
    pub fn total_for(&self, asset: &Vec<u8>) -> (r: u128)
        requires
            self.wf(),
        ensures
            r as int == self.total_of(asset@),
    {
        match Self::find_total(&self.totals, asset) {
            Some(i) => {
                proof {
                    lemma_key_index_is(self.totals@, asset_key(), i as int);
                }
                self.totals[i].amount
            },
            None => 0,
        }
    }

    /// The entry of the per-user table for `(user, asset)`, if any.
    pub fn user_total_lookup(uts: &Vec<UserAssetTotal>, user: &Vec<u8>, asset: &Vec<u8>) -> (r:
        Option<u128>)
        requires
            keys_unique(uts@, user_asset_key()),
        ensures
            match r {
                Some(a) => has_key(uts@, user_asset_key(), (user@, asset@)) && a == entry_of(
                    uts@,
                    user_asset_key(),
                    (user@, asset@),
                ).amount,
                None => !has_key(uts@, user_asset_key(), (user@, asset@)),
            },
    {
        match Self::find_user_total(uts, user, asset) {
            Some(i) => {
                proof {
                    lemma_key_index_is(uts@, user_asset_key(), i as int);
                }
                Some(uts[i].amount)
            },
            None => None,
        }
    }

    /// The recorded total of `user` for `asset`; zero when never used.
    pub fn user_total_for(&self, user: &Vec<u8>, asset: &Vec<u8>) -> (r: u128)
        requires
            self.wf(),
        ensures
            r as int == self.user_total_of(user@, asset@),
    {
        match Self::find_user_total(&self.user_totals, user, asset) {
            Some(i) => {
                proof {
                    lemma_key_index_is(self.user_totals@, user_asset_key(), i as int);
                }
                self.user_totals[i].amount
            },
            None => 0,
        }
    }
}

proof fn lemma_sum_update_all(s: Seq<UserAssetTotal>, i: int, e: UserAssetTotal)
    requires
        0 <= i < s.len(),
    ensures
        forall|a: Seq<u8>|
            #[trigger] sum_for_asset(s.update(i, e), a) == sum_for_asset(s, a) - (if s[i].asset@
                == a {
                s[i].amount as int
            } else {
                0
            }) + (if e.asset@ == a {
                e.amount as int
            } else {
                0
            }),
{
    assert forall|a: Seq<u8>|
        #[trigger] sum_for_asset(s.update(i, e), a) == sum_for_asset(s, a) - (if s[i].asset@
            == a {
            s[i].amount as int
        } else {
            0
        }) + (if e.asset@ == a {
            e.amount as int
        } else {
            0
        }) by {
        lemma_sum_update(s, i, e, a);
    }
}

proof fn lemma_sum_push_all(s: Seq<UserAssetTotal>, e: UserAssetTotal)
    ensures
        forall|a: Seq<u8>|
            #[trigger] sum_for_asset(s.push(e), a) == sum_for_asset(s, a) + (if e.asset@ == a {
                e.amount as int
            } else {
                0
            }),
{
    assert forall|a: Seq<u8>|
        #[trigger] sum_for_asset(s.push(e), a) == sum_for_asset(s, a) + (if e.asset@ == a {
            e.amount as int
        } else {
            0
        }) by {
        lemma_sum_push(s, e, a);
    }
}

/// The accounting identity, re-stated as a fact about any well-formed
/// ledger: for every asset id, at any point in time, the per-user totals
/// for that asset add up exactly to the global total for it.
pub proof fn lemma_accounting_identity(l: Ledger, a: Seq<u8>)
    requires
        l.wf(),
    ensures
        sum_for_asset(l.user_totals@, a) == total_amount_of(l.totals@, a),
{
}

/// A single user's total never exceeds the global total for the asset.
pub proof fn lemma_user_total_le_total(l: Ledger, u: Seq<u8>, a: Seq<u8>)
    requires
        l.wf(),
    ensures
        l.user_total_of(u, a) <= l.total_of(a),
{
    if has_key(l.user_totals@, user_asset_key(), (u, a)) {
        let i = key_index(l.user_totals@, user_asset_key(), (u, a));
        assert(0 <= i < l.user_totals@.len() && user_asset_key()(l.user_totals@[i]) == (u, a));
        lemma_entry_le_sum(l.user_totals@, i, a);
    } else {
        lemma_sum_nonneg(l.user_totals@, a);
    }
}

} // verus!
