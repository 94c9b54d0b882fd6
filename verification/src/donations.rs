//! The donation ledger.
//!
//! A simpler sibling of the subscription engine built from the same
//! primitives: an allow-list of tokens, a whitelist of claim addresses, a
//! donor set, and the same append-only [`Ledger`] for per-token and
//! per-donor totals.  There is no expiry logic; claiming hands back
//! forwarding instructions for whatever balances the host reports.

use vstd::prelude::*;

use crate::bytes::{bytes_key, clone_bytes, egld_id, egld_token_id, find_bytes};
use crate::errors::DonationError;
use crate::ledger::{ledger_post, AssetTotal, Ledger};
use crate::structs::{Transfer, TransferModel};
use crate::table::{has_key, key_index, keys_unique, lemma_key_index_is, lemma_push_fresh, lemma_remove_at};

verus! {

/// The rows a claim pays out: for every donated token, in table order, its
/// reported balance — kept only when that balance is positive.
pub open spec fn claimable_rows(totals: Seq<AssetTotal>, bals: Seq<u128>) -> Seq<(Seq<u8>, u128)>
    decreases bals.len(),
{
    if bals.len() == 0 || totals.len() != bals.len() {
        Seq::empty()
    } else {
        let rest = claimable_rows(totals.drop_last(), bals.drop_last());
        if bals.last() > 0 {
            rest.push((totals.last().asset@, bals.last()))
        } else {
            rest
        }
    }
}

/// The whole durable state of the donation ledger.
pub struct Donations {
    /// Tokens donations are currently accepted in.
    pub allowed_token_ids: Vec<Vec<u8>>,
    /// Addresses allowed to claim the collected tokens.
    pub allowed_withdraw_addresses: Vec<Vec<u8>>,
    /// Every address that ever donated.
    pub donors: Vec<Vec<u8>>,
    /// Per-token and per-`(donor, token)` totals.  Its asset list doubles
    /// as the set of tokens ever donated, which may keep tokens that were
    /// disabled later.
    pub ledger: Ledger,
}

impl Donations {
    /// Well-formedness: the three sets hold no duplicates, every per-donor
    /// ledger row belongs to a registered donor, and the ledger itself is
    /// well-formed.
    pub open spec fn wf(self) -> bool {
        &&& keys_unique(self.allowed_token_ids@, bytes_key())
        &&& keys_unique(self.allowed_withdraw_addresses@, bytes_key())
        &&& keys_unique(self.donors@, bytes_key())
        &&& forall|i: int|
            0 <= i < self.ledger.user_totals@.len() ==> has_key(
                self.donors@,
                bytes_key(),
                #[trigger] self.ledger.user_totals@[i].user@,
            )
        &&& self.ledger.wf()
    }

    /// Whether donations in token `t` are currently accepted.
    pub open spec fn token_allowed(self, t: Seq<u8>) -> bool {
        has_key(self.allowed_token_ids@, bytes_key(), t)
    }

    /// Whether address `a` may claim the collected tokens.
    pub open spec fn address_whitelisted(self, a: Seq<u8>) -> bool {
        has_key(self.allowed_withdraw_addresses@, bytes_key(), a)
    }

    /// Whether `u` ever donated.
    pub open spec fn is_donor(self, u: Seq<u8>) -> bool {
        has_key(self.donors@, bytes_key(), u)
    }

    /// A fresh donation ledger: only the native asset is accepted, nobody
    /// may claim yet, nothing was donated.
    pub fn init() -> (r: Donations)
        ensures
            r.wf(),
            r.allowed_token_ids@.len() == 1,
            r.allowed_token_ids@[0]@ == egld_id(),
            r.token_allowed(egld_id()),
            r.allowed_withdraw_addresses@.len() == 0,
            r.donors@.len() == 0,
            r.ledger.totals@.len() == 0,
            r.ledger.user_totals@.len() == 0,
    {
        let mut allowed: Vec<Vec<u8>> = Vec::new();
        let egld = egld_token_id();
        let ghost ge = egld;
        proof {
            lemma_push_fresh(allowed@, bytes_key(), ge);
        }
        allowed.push(egld);
        Donations {
            allowed_token_ids: allowed,
            allowed_withdraw_addresses: Vec::new(),
            donors: Vec::new(),
            ledger: Ledger::new(),
        }
    }

    /// Adds a token to the allow-list.
    pub fn enable_token(&mut self, is_owner: bool, token: Vec<u8>) -> (r: Result<
        (),
        DonationError,
    >)
        requires
            old(self).wf(),
        ensures
            final(self).wf(),
            r == (if !is_owner {
                Err::<(), DonationError>(DonationError::Unauthorized)
            } else if old(self).token_allowed(token@) {
                Err::<(), DonationError>(DonationError::AlreadyExists)
            } else {
                Ok::<(), DonationError>(())
            }),
            r is Err ==> *final(self) == *old(self),
            r is Ok ==> final(self).allowed_token_ids@ == old(self).allowed_token_ids@.push(token),
            r is Ok ==> final(self).token_allowed(token@),
            forall|t: Seq<u8>|
                t != token@ ==> #[trigger] final(self).token_allowed(t) == old(
                    self,
                ).token_allowed(t),
            final(self).allowed_withdraw_addresses == old(self).allowed_withdraw_addresses,
            final(self).donors == old(self).donors,
            final(self).ledger == old(self).ledger,
    {
        if !is_owner {
            return Err(DonationError::Unauthorized);
        }
        if find_bytes(&self.allowed_token_ids, &token).is_some() {
            return Err(DonationError::AlreadyExists);
        }
        let ghost gt = token;
        proof {
            lemma_push_fresh(self.allowed_token_ids@, bytes_key(), gt);
        }
        self.allowed_token_ids.push(token);
        Ok(())
    }

    /// Removes a token from the allow-list; already-collected balances of
    /// it stay claimable.
    pub fn disable_token(&mut self, is_owner: bool, token: &Vec<u8>) -> (r: Result<
        (),
        DonationError,
    >)
        requires
            old(self).wf(),
        ensures
            final(self).wf(),
            r == (if !is_owner {
                Err::<(), DonationError>(DonationError::Unauthorized)
            } else if !old(self).token_allowed(token@) {
                Err::<(), DonationError>(DonationError::NotFound)
            } else {
                Ok::<(), DonationError>(())
            }),
            r is Err ==> *final(self) == *old(self),
            r is Ok ==> final(self).allowed_token_ids@ == old(self).allowed_token_ids@.remove(
                key_index(old(self).allowed_token_ids@, bytes_key(), token@),
            ),
            r is Ok ==> !final(self).token_allowed(token@),
            forall|t: Seq<u8>|
                t != token@ ==> #[trigger] final(self).token_allowed(t) == old(
                    self,
                ).token_allowed(t),
            final(self).allowed_withdraw_addresses == old(self).allowed_withdraw_addresses,
            final(self).donors == old(self).donors,
            final(self).ledger == old(self).ledger,
    {
        if !is_owner {
            return Err(DonationError::Unauthorized);
        }
        let idx = match find_bytes(&self.allowed_token_ids, token) {
            None => {
                return Err(DonationError::NotFound);
            },
            Some(i) => i,
        };
        proof {
            lemma_key_index_is(self.allowed_token_ids@, bytes_key(), idx as int);
            lemma_remove_at(self.allowed_token_ids@, bytes_key(), idx as int);
        }
        self.allowed_token_ids.remove(idx);
        Ok(())
    }

    /// Adds an address to the claim whitelist.
    pub fn whitelist_withdraw_address(&mut self, is_owner: bool, address: Vec<u8>) -> (r: Result<
        (),
        DonationError,
    >)
        requires
            old(self).wf(),
        ensures
            final(self).wf(),
            r == (if !is_owner {
                Err::<(), DonationError>(DonationError::Unauthorized)
            } else if old(self).address_whitelisted(address@) {
                Err::<(), DonationError>(DonationError::AlreadyExists)
            } else {
                Ok::<(), DonationError>(())
            }),
            r is Err ==> *final(self) == *old(self),
            r is Ok ==> final(self).allowed_withdraw_addresses@ == old(
                self,
            ).allowed_withdraw_addresses@.push(address),
            r is Ok ==> final(self).address_whitelisted(address@),
            forall|a: Seq<u8>|
                a != address@ ==> #[trigger] final(self).address_whitelisted(a) == old(
                    self,
                ).address_whitelisted(a),
            final(self).allowed_token_ids == old(self).allowed_token_ids,
            final(self).donors == old(self).donors,
            final(self).ledger == old(self).ledger,
    {
        if !is_owner {
            return Err(DonationError::Unauthorized);
        }
        if find_bytes(&self.allowed_withdraw_addresses, &address).is_some() {
            return Err(DonationError::AlreadyExists);
        }
        let ghost ga = address;
        proof {
            lemma_push_fresh(self.allowed_withdraw_addresses@, bytes_key(), ga);
        }
        self.allowed_withdraw_addresses.push(address);
        Ok(())
    }

    /// Removes an address from the claim whitelist.
    pub fn remove_withdraw_address(&mut self, is_owner: bool, address: &Vec<u8>) -> (r: Result<
        (),
        DonationError,
    >)
        requires
            old(self).wf(),
        ensures
            final(self).wf(),
            r == (if !is_owner {
                Err::<(), DonationError>(DonationError::Unauthorized)
            } else if !old(self).address_whitelisted(address@) {
                Err::<(), DonationError>(DonationError::NotFound)
            } else {
                Ok::<(), DonationError>(())
            }),
            r is Err ==> *final(self) == *old(self),
            r is Ok ==> final(self).allowed_withdraw_addresses@ == old(
                self,
            ).allowed_withdraw_addresses@.remove(
                key_index(old(self).allowed_withdraw_addresses@, bytes_key(), address@),
            ),
            r is Ok ==> !final(self).address_whitelisted(address@),
            forall|a: Seq<u8>|
                a != address@ ==> #[trigger] final(self).address_whitelisted(a) == old(
                    self,
                ).address_whitelisted(a),
            final(self).allowed_token_ids == old(self).allowed_token_ids,
            final(self).donors == old(self).donors,
            final(self).ledger == old(self).ledger,
    {
        if !is_owner {
            return Err(DonationError::Unauthorized);
        }
        let idx = match find_bytes(&self.allowed_withdraw_addresses, address) {
            None => {
                return Err(DonationError::NotFound);
            },
            Some(i) => i,
        };
        proof {
            lemma_key_index_is(self.allowed_withdraw_addresses@, bytes_key(), idx as int);
            lemma_remove_at(self.allowed_withdraw_addresses@, bytes_key(), idx as int);
        }
        self.allowed_withdraw_addresses.remove(idx);
        Ok(())
    }

    /// Checks and registers one donation of `amount` in `token` by
    /// `caller`: the donor is registered and both totals grow by the
    /// amount.
    pub fn register_donation(&mut self, caller: &Vec<u8>, token: &Vec<u8>, amount: u128) -> (r:
        Result<(), DonationError>)
        requires
            old(self).wf(),
            old(self).token_allowed(token@) ==> old(self).ledger.total_of(token@) + amount
                <= u128::MAX,
        ensures
            final(self).wf(),
            donation_post(*old(self), *final(self), caller@, token@, amount, r),
    {
        if find_bytes(&self.allowed_token_ids, token).is_none() {
            return Err(DonationError::AssetNotAccepted);
        }
        if find_bytes(&self.donors, caller).is_none() {
            let d = clone_bytes(caller);
            let ghost gd = d;
            proof {
                lemma_push_fresh(self.donors@, bytes_key(), gd);
            }
            self.donors.push(d);
        }
        let ghost mid = *self;
        self.ledger.record(caller, token, amount);
        proof {
            assert forall|i: int| 0 <= i < self.ledger.user_totals@.len() implies has_key(
                self.donors@,
                bytes_key(),
                #[trigger] self.ledger.user_totals@[i].user@,
            ) by {
                if self.ledger.user_totals@[i].user@ == caller@ {
                    assert(self.is_donor(caller@));
                } else {
                    assert(self.ledger.has_user_total(
                        self.ledger.user_totals@[i].user@,
                        self.ledger.user_totals@[i].asset@,
                    )) by {
                        lemma_key_index_is(self.ledger.user_totals@, crate::ledger::user_asset_key(), i);
                    }
                    assert(mid.ledger.has_user_total(
                        self.ledger.user_totals@[i].user@,
                        self.ledger.user_totals@[i].asset@,
                    ));
                    let j = key_index(
                        mid.ledger.user_totals@,
                        crate::ledger::user_asset_key(),
                        (self.ledger.user_totals@[i].user@, self.ledger.user_totals@[i].asset@),
                    );
                    assert(0 <= j < mid.ledger.user_totals@.len());
                    assert(mid.ledger.user_totals@[j].user@ == self.ledger.user_totals@[i].user@);
                    assert(has_key(mid.donors@, bytes_key(), mid.ledger.user_totals@[j].user@));
                }
            }
        }
        Ok(())
    }

    /// A donation attached to a transfer of the native asset.
    pub fn donate_egld(&mut self, caller: &Vec<u8>, amount: u128) -> (r: Result<
        (),
        DonationError,
    >)
        requires
            old(self).wf(),
            old(self).token_allowed(egld_id()) ==> old(self).ledger.total_of(egld_id()) + amount
                <= u128::MAX,
        ensures
            final(self).wf(),
            donation_post(*old(self), *final(self), caller@, egld_id(), amount, r),
    {
        let egld = egld_token_id();
        self.register_donation(caller, &egld, amount)
    }

    /// A donation attached to a transfer of any other asset.
    pub fn donate_esdt(&mut self, caller: &Vec<u8>, token: &Vec<u8>, amount: u128) -> (r: Result<
        (),
        DonationError,
    >)
        requires
            old(self).wf(),
            old(self).token_allowed(token@) ==> old(self).ledger.total_of(token@) + amount
                <= u128::MAX,
        ensures
            final(self).wf(),
            donation_post(*old(self), *final(self), caller@, token@, amount, r),
    {
        self.register_donation(caller, token, amount)
    }

    /// Hands out the forwarding instructions a claim produces: every
    /// donated token with a positive reported balance goes, in full, to the
    /// caller.  `balances` reports the host's balance for each donated
    /// token, in the ledger's asset order.
    pub fn claim_tokens(&self, caller: &Vec<u8>, balances: &Vec<u128>) -> (r: Result<
        Vec<Transfer>,
        DonationError,
    >)
        requires
            balances@.len() == self.ledger.totals@.len(),
        ensures
            (r is Err) == (!self.address_whitelisted(caller@) || claimable_rows(
                self.ledger.totals@,
                balances@,
            ).len() == 0),
            r is Err ==> r == Err::<Vec<Transfer>, DonationError>(
                if !self.address_whitelisted(caller@) {
                    DonationError::Unauthorized
                } else {
                    DonationError::NothingToClaim
                },
            ),
            match r {
                Result::Ok(ts) => ts@.len() == claimable_rows(self.ledger.totals@, balances@).len()
                    && forall|i: int|
                    0 <= i < ts@.len() ==> (#[trigger] ts@[i])@ == (TransferModel {
                        to: caller@,
                        asset: claimable_rows(self.ledger.totals@, balances@)[i].0,
                        amount: claimable_rows(self.ledger.totals@, balances@)[i].1,
                    }),
                Result::Err(_) => true,
            },
    {
        if find_bytes(&self.allowed_withdraw_addresses, caller).is_none() {
            return Err(DonationError::Unauthorized);
        }
        if self.ledger.totals.len() == 0 {
            return Err(DonationError::NothingToClaim);
        }
        let mut out: Vec<Transfer> = Vec::new();
        let mut i: usize = 0;
        while i < balances.len()
            invariant
                balances@.len() == self.ledger.totals@.len(),
                i <= balances@.len(),
                out@.len() == claimable_rows(
                    self.ledger.totals@.take(i as int),
                    balances@.take(i as int),
                ).len(),
                forall|j: int|
                    0 <= j < out@.len() ==> (#[trigger] out@[j])@ == (TransferModel {
                        to: caller@,
                        asset: claimable_rows(
                            self.ledger.totals@.take(i as int),
                            balances@.take(i as int),
                        )[j].0,
                        amount: claimable_rows(
                            self.ledger.totals@.take(i as int),
                            balances@.take(i as int),
                        )[j].1,
                    }),
            decreases balances@.len() - i,
        {
            proof {
                assert(self.ledger.totals@.take(i as int + 1).drop_last() =~= self.ledger.totals@
                    .take(i as int));
                assert(balances@.take(i as int + 1).drop_last() =~= balances@.take(i as int));
                assert(self.ledger.totals@.take(i as int + 1).last() == self.ledger.totals@[
                    i as int
                ]);
                assert(balances@.take(i as int + 1).last() == balances@[i as int]);
            }
            let bal = balances[i];
            if bal > 0 {
                let t = Transfer {
                    to: clone_bytes(caller),
                    asset: clone_bytes(&self.ledger.totals[i].asset),
                    amount: bal,
                };
                out.push(t);
            }
            i += 1;
        }
        proof {
            assert(self.ledger.totals@.take(self.ledger.totals@.len() as int)
                =~= self.ledger.totals@);
            assert(balances@.take(balances@.len() as int) =~= balances@);
        }
        if out.len() == 0 {
            return Err(DonationError::NothingToClaim);
        }
        Ok(out)
    }

    /// The `(token, total)` pairs ever donated, in first-donation order.
    pub fn get_total_donations(&self) -> (r: Vec<(Vec<u8>, u128)>)
        ensures
            r@.len() == self.ledger.totals@.len(),
            forall|i: int|
                0 <= i < r@.len() ==> (#[trigger] r@[i]).0@ == self.ledger.totals@[i].asset@
                    && r@[i].1 == self.ledger.totals@[i].amount,
    {
        let mut r: Vec<(Vec<u8>, u128)> = Vec::new();
        let mut i: usize = 0;
        while i < self.ledger.totals.len()
            invariant
                i <= self.ledger.totals@.len(),
                r@.len() == i,
                forall|j: int|
                    0 <= j < i ==> (#[trigger] r@[j]).0@ == self.ledger.totals@[j].asset@
                        && r@[j].1 == self.ledger.totals@[j].amount,
            decreases self.ledger.totals@.len() - i,
        {
            let pair = (clone_bytes(&self.ledger.totals[i].asset), self.ledger.totals[i].amount);
            r.push(pair);
            i += 1;
        }
        r
    }

    /// The `(token, total)` pairs donated by `address`, over the donated
    /// tokens in first-donation order; empty for an address that never
    /// donated.
    pub fn get_user_donations(&self, address: &Vec<u8>) -> (r: Vec<(Vec<u8>, u128)>)
        requires
            self.wf(),
        ensures
            r@.len() == user_donation_rows(self.ledger.totals@, self.ledger.user_totals@, address@)
                .len(),
            forall|i: int|
                0 <= i < r@.len() ==> (#[trigger] r@[i]).0@ == user_donation_rows(
                    self.ledger.totals@,
                    self.ledger.user_totals@,
                    address@,
                )[i].0 && r@[i].1 == user_donation_rows(
                    self.ledger.totals@,
                    self.ledger.user_totals@,
                    address@,
                )[i].1,
    {
        let mut r: Vec<(Vec<u8>, u128)> = Vec::new();
        let mut i: usize = 0;
        while i < self.ledger.totals.len()
            invariant
                self.wf(),
                i <= self.ledger.totals@.len(),
                r@.len() == user_donation_rows(
                    self.ledger.totals@.take(i as int),
                    self.ledger.user_totals@,
                    address@,
                ).len(),
                forall|j: int|
                    0 <= j < r@.len() ==> (#[trigger] r@[j]).0@ == user_donation_rows(
                        self.ledger.totals@.take(i as int),
                        self.ledger.user_totals@,
                        address@,
                    )[j].0 && r@[j].1 == user_donation_rows(
                        self.ledger.totals@.take(i as int),
                        self.ledger.user_totals@,
                        address@,
                    )[j].1,
            decreases self.ledger.totals@.len() - i,
        {
            proof {
                assert(self.ledger.totals@.take(i as int + 1).drop_last() =~= self.ledger.totals@
                    .take(i as int));
                assert(self.ledger.totals@.take(i as int + 1).last() == self.ledger.totals@[
                    i as int
                ]);
            }
            match crate::ledger::Ledger::user_total_lookup(
                &self.ledger.user_totals,
                address,
                &self.ledger.totals[i].asset,
            ) {
                Some(a) => {
                    let pair = (clone_bytes(&self.ledger.totals[i].asset), a);
                    r.push(pair);
                },
                None => {},
            }
            i += 1;
        }
        proof {
            assert(self.ledger.totals@.take(self.ledger.totals@.len() as int)
                =~= self.ledger.totals@);
        }
        r
    }
}

/// How one donation call ends: refused outright with nothing changed when
/// the token is not on the allow-list; otherwise the caller joins the donor
/// set and both of the ledger's totals for the token grow by the amount.
pub open spec fn donation_post(
    pre: Donations,
    post: Donations,
    caller: Seq<u8>,
    token: Seq<u8>,
    amount: u128,
    r: Result<(), DonationError>,
) -> bool {
    &&& r == (if !pre.token_allowed(token) {
        Err::<(), DonationError>(DonationError::AssetNotAccepted)
    } else {
        Ok::<(), DonationError>(())
    })
    &&& (r is Err ==> post == pre)
    &&& (r is Ok ==> {
        &&& post.is_donor(caller)
        &&& (pre.is_donor(caller) ==> post.donors == pre.donors)
        &&& (!pre.is_donor(caller) ==> post.donors@.len() == pre.donors@.len() + 1
            && post.donors@[pre.donors@.len() as int]@ == caller && (forall|i: int|
            0 <= i < pre.donors@.len() ==> #[trigger] post.donors@[i]@ == pre.donors@[i]@))
        &&& (forall|u: Seq<u8>|
            u != caller ==> #[trigger] post.is_donor(u) == pre.is_donor(u))
        &&& ledger_post(pre.ledger, post.ledger, caller, token, amount)
    })
    &&& post.allowed_token_ids == pre.allowed_token_ids
    &&& post.allowed_withdraw_addresses == pre.allowed_withdraw_addresses
}

/// The donation rows of one donor: for every donated token, in table
/// order, the donor's total for it — kept only when the donor gave in that
/// token.
pub open spec fn user_donation_rows(
    totals: Seq<AssetTotal>,
    uts: Seq<crate::ledger::UserAssetTotal>,
    u: Seq<u8>,
) -> Seq<(Seq<u8>, u128)>
    decreases totals.len(),
{
    if totals.len() == 0 {
        Seq::empty()
    } else {
        let rest = user_donation_rows(totals.drop_last(), uts, u);
        let a = totals.last().asset@;
        if has_key(uts, crate::ledger::user_asset_key(), (u, a)) {
            rest.push(
                (
                    a,
                    crate::table::entry_of(uts, crate::ledger::user_asset_key(), (u, a)).amount,
                ),
            )
        } else {
            rest
        }
    }
}

} // verus!
