//! The subscription engine.
//!
//! A [`Subscriptions`] value holds the whole durable state of the engine:
//! the global configuration, the plan catalog with its per-asset prices,
//! the per-user entitlement rows, and the payment ledger.  The host passes
//! in everything it alone knows — the owner verdict for gated operations,
//! the caller's address, the received transfer and the current timestamp —
//! and executes the returned [`Transfer`] instructions.
//!
//! Every operation either succeeds or returns an error having changed
//! nothing.

use vstd::prelude::*;

use crate::bytes::{bytes_eq, clone_bytes, egld_id, egld_token_id};
use crate::errors::SubscriptionError;
use crate::ledger::Ledger;
use crate::structs::{Plan, PlanModel, PlanStatus, Transfer, TransferModel, UserPlan, UserPlanModel};
use crate::table::{
    entry_of, has_key, key_index, keys_unique, lemma_key_index_is, lemma_push_fresh,
    lemma_remove_at, lemma_update_entry,
};

verus! {

/// One row of the price table: `asset_id` buys `plan_id` for exactly
/// `price`.  An asset is a member of a plan's allowed-asset set precisely
/// when such a row exists, so the set and the price map cannot drift apart.
pub struct PriceEntry {
    pub plan_id: Vec<u8>,
    pub asset_id: Vec<u8>,
    pub price: u128,
}

/// One row of the entitlement table: `user`'s window for `plan.plan_id`.
pub struct UserPlanEntry {
    pub user: Vec<u8>,
    pub plan: UserPlan,
}

/// Key of a catalog row: the plan id.
pub open spec fn plan_key() -> spec_fn(Plan) -> Seq<u8> {
    |p: Plan| p.id@
}

/// Key of a price row: the `(plan, asset)` pair.
pub open spec fn price_key() -> spec_fn(PriceEntry) -> (Seq<u8>, Seq<u8>) {
    |e: PriceEntry| (e.plan_id@, e.asset_id@)
}

/// Key of an entitlement row: the `(user, plan)` pair.
pub open spec fn user_plan_key() -> spec_fn(UserPlanEntry) -> (Seq<u8>, Seq<u8>) {
    |e: UserPlanEntry| (e.user@, e.plan.plan_id@)
}

/// Key of a user-set row: the address itself.
pub open spec fn user_key() -> spec_fn(Vec<u8>) -> Seq<u8> {
    |u: Vec<u8>| u@
}

/// The expiry a payment at `now` produces, given the previous expiry (if an
/// entitlement exists) and the plan's validity.
///
/// A payment strictly before the current expiry stacks: the bought duration
/// is added on top of the unexpired window.  A payment at or after the
/// expiry, or with no prior entitlement, resets: the window restarts at the
/// payment time and any lapsed remainder is discarded.
pub open spec fn next_expiry(prev: Option<int>, now: u64, validity: u64) -> int {
    match prev {
        Some(e) => if e > now {
            e + validity
        } else {
            now + validity
        },
        None => now + validity,
    }
}

/// The whole durable state of the subscription engine.
pub struct Subscriptions {
    /// Whether the engine accepts payments at all.
    pub enabled: bool,
    /// Where accepted payments are forwarded; must be set before enabling.
    pub payment_address: Option<Vec<u8>>,
    /// The plan catalog, keyed by plan id.
    pub plans: Vec<Plan>,
    /// The price table, keyed by `(plan, asset)`.
    pub prices: Vec<PriceEntry>,
    /// Every user that ever activated a plan.
    pub users: Vec<Vec<u8>>,
    /// The entitlement table, keyed by `(user, plan)`.
    pub user_plans: Vec<UserPlanEntry>,
    /// Per-asset and per-`(user, asset)` payment totals.
    pub ledger: Ledger,
}

impl Subscriptions {
    /// Well-formedness: unique keys everywhere, price rows only for catalog
    /// plans, entitlement rows only for registered users, a payout address
    /// whenever the engine is enabled, and a well-formed ledger.
    pub open spec fn wf(self) -> bool {
        &&& keys_unique(self.plans@, plan_key())
        &&& keys_unique(self.prices@, price_key())
        &&& forall|i: int|
            0 <= i < self.prices@.len() ==> self.has_plan(#[trigger] self.prices@[i].plan_id@)
        &&& keys_unique(self.users@, user_key())
        &&& keys_unique(self.user_plans@, user_plan_key())
        &&& forall|i: int|
            0 <= i < self.user_plans@.len() ==> has_key(
                self.users@,
                user_key(),
                #[trigger] self.user_plans@[i].user@,
            )
        &&& (self.enabled ==> self.payment_address is Some)
        &&& self.ledger.wf()
    }

    /// Whether a plan with id `pid` is in the catalog.
    pub open spec fn has_plan(self, pid: Seq<u8>) -> bool {
        has_key(self.plans@, plan_key(), pid)
    }

    /// The catalog record of plan `pid`; meaningful only when `has_plan`.
    pub open spec fn plan_of(self, pid: Seq<u8>) -> PlanModel {
        entry_of(self.plans@, plan_key(), pid)@
    }

    /// Whether asset `aid` is in plan `pid`'s allowed-asset set, i.e.
    /// whether a price row for the pair exists.
    pub open spec fn has_price(self, pid: Seq<u8>, aid: Seq<u8>) -> bool {
        has_key(self.prices@, price_key(), (pid, aid))
    }

    /// The configured price of plan `pid` in asset `aid`; meaningful only
    /// when `has_price`.
    pub open spec fn price_of(self, pid: Seq<u8>, aid: Seq<u8>) -> u128 {
        entry_of(self.prices@, price_key(), (pid, aid)).price
    }

    /// Whether `u` ever activated any plan.
    pub open spec fn has_user(self, u: Seq<u8>) -> bool {
        has_key(self.users@, user_key(), u)
    }

    /// Whether `u` has an entitlement row for plan `pid`.
    pub open spec fn has_user_plan(self, u: Seq<u8>, pid: Seq<u8>) -> bool {
        has_key(self.user_plans@, user_plan_key(), (u, pid))
    }

    /// `u`'s entitlement row for `pid`; meaningful only when
    /// `has_user_plan`.
    pub open spec fn user_plan_of(self, u: Seq<u8>, pid: Seq<u8>) -> UserPlanModel {
        entry_of(self.user_plans@, user_plan_key(), (u, pid)).plan@
    }

    /// The configured payout address; meaningful only when one is set.
    pub open spec fn payout_of(self) -> Seq<u8> {
        match self.payment_address {
            Some(a) => a@,
            None => Seq::empty(),
        }
    }

    /// The expiry `u`'s entitlement for `pid` currently has, if any.
    pub open spec fn prev_expiry_of(self, u: Seq<u8>, pid: Seq<u8>) -> Option<int> {
        if self.has_user_plan(u, pid) {
            Some(self.user_plan_of(u, pid).expires_at as int)
        } else {
            None
        }
    }

    /// The ordered precondition checks of `pay`, and the error each failure
    /// produces.  A payment is accepted exactly when the engine is enabled,
    /// the plan exists, the asset is in its allowed set, the amount equals
    /// the configured price, and the plan's status is `Enabled`.
    pub open spec fn pay_check(self, pid: Seq<u8>, asset: Seq<u8>, amount: u128) -> Result<
        (),
        SubscriptionError,
    > {
        if !self.enabled {
            Err(SubscriptionError::ContractDisabled)
        } else if !self.has_plan(pid) {
            Err(SubscriptionError::UnknownPlan)
        } else if !self.has_price(pid, asset) {
            Err(SubscriptionError::AssetNotAccepted)
        } else if amount != self.price_of(pid, asset) {
            Err(SubscriptionError::InvalidAmount)
        } else if self.plan_of(pid).status != PlanStatus::Enabled {
            Err(SubscriptionError::PlanDisabled)
        } else {
            Ok(())
        }
    }

    /// The machine limits a successful payment must respect: the new expiry
    /// must fit in a `u64` and the asset's running total in a `u128`.
    pub open spec fn pay_fits(
        self,
        user: Seq<u8>,
        pid: Seq<u8>,
        asset: Seq<u8>,
        amount: u128,
        now: u64,
    ) -> bool {
        self.pay_check(pid, asset, amount) is Ok ==> {
            &&& next_expiry(self.prev_expiry_of(user, pid), now, self.plan_of(pid).validity)
                <= u64::MAX
            &&& self.ledger.total_of(asset) + amount <= u128::MAX
        }
    }

    /// A fresh engine: disabled, no payout address, everything empty.
    pub fn init() -> (r: Subscriptions)
        ensures
            r.wf(),
            !r.enabled,
            r.payment_address is None,
            r.plans@.len() == 0,
            r.prices@.len() == 0,
            r.users@.len() == 0,
            r.user_plans@.len() == 0,
            r.ledger.totals@.len() == 0,
            r.ledger.user_totals@.len() == 0,
    {
        Subscriptions {
            enabled: false,
            payment_address: None,
            plans: Vec::new(),
            prices: Vec::new(),
            users: Vec::new(),
            user_plans: Vec::new(),
            ledger: Ledger::new(),
        }
    }

    /// Sets the global enabled flag to the requested value.  Enabling
    /// demands a configured payout address; disabling is always allowed.
    pub fn set_status(&mut self, is_owner: bool, status: bool) -> (r: Result<
        (),
        SubscriptionError,
    >)
        requires
            old(self).wf(),
        ensures
            final(self).wf(),
            r == (if !is_owner {
                Err::<(), SubscriptionError>(SubscriptionError::Unauthorized)
            } else if status && !(old(self).payment_address is Some) {
                Err::<(), SubscriptionError>(SubscriptionError::ConfigurationError)
            } else {
                Ok::<(), SubscriptionError>(())
            }),
            r is Err ==> *final(self) == *old(self),
            r is Ok ==> *final(self) == (Subscriptions { enabled: status, ..*old(self) }),
    {
        if !is_owner {
            return Err(SubscriptionError::Unauthorized);
        }
        if status && self.payment_address.is_none() {
            return Err(SubscriptionError::ConfigurationError);
        }
        self.enabled = status;
        Ok(())
    }

    /// Sets the address collected payments are forwarded to.
    pub fn set_payment_address(&mut self, is_owner: bool, address: Vec<u8>) -> (r: Result<
        (),
        SubscriptionError,
    >)
        requires
            old(self).wf(),
        ensures
            final(self).wf(),
            r == (if is_owner {
                Ok::<(), SubscriptionError>(())
            } else {
                Err::<(), SubscriptionError>(SubscriptionError::Unauthorized)
            }),
            r is Err ==> *final(self) == *old(self),
            r is Ok ==> *final(self) == (Subscriptions {
                payment_address: Some(address),
                ..*old(self)
            }),
    {
        if !is_owner {
            return Err(SubscriptionError::Unauthorized);
        }
        self.payment_address = Some(address);
        Ok(())
    }

    /// Adds a plan to the catalog with status `Enabled` and the given
    /// validity.  The reserved refund fields start inert (`false`, `0`).
    pub fn add_plan(&mut self, is_owner: bool, plan_id: Vec<u8>, validity: u64) -> (r: Result<
        (),
        SubscriptionError,
    >)
        requires
            old(self).wf(),
        ensures
            final(self).wf(),
            r == (if !is_owner {
                Err::<(), SubscriptionError>(SubscriptionError::Unauthorized)
            } else if old(self).has_plan(plan_id@) {
                Err::<(), SubscriptionError>(SubscriptionError::AlreadyExists)
            } else {
                Ok::<(), SubscriptionError>(())
            }),
            r is Err ==> *final(self) == *old(self),
            r is Ok ==> final(self).plans@ == old(self).plans@.push(
                (Plan {
                    id: plan_id,
                    status: PlanStatus::Enabled,
                    validity,
                    allows_refund: false,
                    refund_period: 0,
                }),
            ),
            r is Ok ==> final(self).has_plan(plan_id@) && final(self).plan_of(plan_id@)
                == (PlanModel {
                id: plan_id@,
                status: PlanStatus::Enabled,
                validity,
                allows_refund: false,
                refund_period: 0,
            }),
            forall|p: Seq<u8>|
                p != plan_id@ ==> #[trigger] final(self).has_plan(p) == old(self).has_plan(p),
            forall|p: Seq<u8>|
                p != plan_id@ && old(self).has_plan(p) ==> #[trigger] final(self).plan_of(p)
                    == old(self).plan_of(p),
            final(self).prices == old(self).prices,
            final(self).users == old(self).users,
            final(self).user_plans == old(self).user_plans,
            final(self).ledger == old(self).ledger,
            final(self).enabled == old(self).enabled,
            final(self).payment_address == old(self).payment_address,
    {
        if !is_owner {
            return Err(SubscriptionError::Unauthorized);
        }
        if Self::find_plan(&self.plans, &plan_id).is_some() {
            return Err(SubscriptionError::AlreadyExists);
        }
        let plan = Plan {
            id: plan_id,
            status: PlanStatus::Enabled,
            validity,
            allows_refund: false,
            refund_period: 0,
        };
        let ghost gp = plan;
        proof {
            lemma_push_fresh(self.plans@, plan_key(), gp);
        }
        self.plans.push(plan);
        Ok(())
    }

    /// Sets a plan's status to `Enabled`.
    pub fn enable_subscription_plan(&mut self, is_owner: bool, plan_id: &Vec<u8>) -> (r: Result<
        (),
        SubscriptionError,
    >)
        requires
            old(self).wf(),
        ensures
            final(self).wf(),
            r == (if !is_owner {
                Err::<(), SubscriptionError>(SubscriptionError::Unauthorized)
            } else if !old(self).has_plan(plan_id@) {
                Err::<(), SubscriptionError>(SubscriptionError::NotFound)
            } else {
                Ok::<(), SubscriptionError>(())
            }),
            r is Err ==> *final(self) == *old(self),
            r is Ok ==> final(self).plans@ == old(self).plans@.update(
                key_index(old(self).plans@, plan_key(), plan_id@),
                (Plan {
                    status: PlanStatus::Enabled,
                    ..old(self).plans@[key_index(old(self).plans@, plan_key(), plan_id@)]
                }),
            ),
            r is Ok ==> final(self).plan_of(plan_id@) == (PlanModel {
                status: PlanStatus::Enabled,
                ..old(self).plan_of(plan_id@)
            }),
            forall|p: Seq<u8>| #[trigger] final(self).has_plan(p) == old(self).has_plan(p),
            forall|p: Seq<u8>|
                p != plan_id@ && old(self).has_plan(p) ==> #[trigger] final(self).plan_of(p)
                    == old(self).plan_of(p),
            final(self).prices == old(self).prices,
            final(self).users == old(self).users,
            final(self).user_plans == old(self).user_plans,
            final(self).ledger == old(self).ledger,
            final(self).enabled == old(self).enabled,
            final(self).payment_address == old(self).payment_address,
    {
        self.set_plan_status(is_owner, plan_id, PlanStatus::Enabled)
    }

    /// Sets a plan's status to `Disabled`; its rows and prices stay.
    pub fn disable_subscription_plan(&mut self, is_owner: bool, plan_id: &Vec<u8>) -> (r: Result<
        (),
        SubscriptionError,
    >)
        requires
            old(self).wf(),
        ensures
            final(self).wf(),
            r == (if !is_owner {
                Err::<(), SubscriptionError>(SubscriptionError::Unauthorized)
            } else if !old(self).has_plan(plan_id@) {
                Err::<(), SubscriptionError>(SubscriptionError::NotFound)
            } else {
                Ok::<(), SubscriptionError>(())
            }),
            r is Err ==> *final(self) == *old(self),
            r is Ok ==> final(self).plans@ == old(self).plans@.update(
                key_index(old(self).plans@, plan_key(), plan_id@),
                (Plan {
                    status: PlanStatus::Disabled,
                    ..old(self).plans@[key_index(old(self).plans@, plan_key(), plan_id@)]
                }),
            ),
            r is Ok ==> final(self).plan_of(plan_id@) == (PlanModel {
                status: PlanStatus::Disabled,
                ..old(self).plan_of(plan_id@)
            }),
            forall|p: Seq<u8>| #[trigger] final(self).has_plan(p) == old(self).has_plan(p),
            forall|p: Seq<u8>|
                p != plan_id@ && old(self).has_plan(p) ==> #[trigger] final(self).plan_of(p)
                    == old(self).plan_of(p),
            final(self).prices == old(self).prices,
            final(self).users == old(self).users,
            final(self).user_plans == old(self).user_plans,
            final(self).ledger == old(self).ledger,
            final(self).enabled == old(self).enabled,
            final(self).payment_address == old(self).payment_address,
    {
        self.set_plan_status(is_owner, plan_id, PlanStatus::Disabled)
    }

    /// Shared body of the two status toggles.
    fn set_plan_status(&mut self, is_owner: bool, plan_id: &Vec<u8>, status: PlanStatus) -> (r:
        Result<(), SubscriptionError>)
        requires
            old(self).wf(),
        ensures
            final(self).wf(),
            r == (if !is_owner {
                Err::<(), SubscriptionError>(SubscriptionError::Unauthorized)
            } else if !old(self).has_plan(plan_id@) {
                Err::<(), SubscriptionError>(SubscriptionError::NotFound)
            } else {
                Ok::<(), SubscriptionError>(())
            }),
            r is Err ==> *final(self) == *old(self),
            r is Ok ==> final(self).plans@ == old(self).plans@.update(
                key_index(old(self).plans@, plan_key(), plan_id@),
                (Plan {
                    status,
                    ..old(self).plans@[key_index(old(self).plans@, plan_key(), plan_id@)]
                }),
            ),
            r is Ok ==> final(self).plan_of(plan_id@) == (PlanModel {
                status,
                ..old(self).plan_of(plan_id@)
            }),
            forall|p: Seq<u8>| #[trigger] final(self).has_plan(p) == old(self).has_plan(p),
            forall|p: Seq<u8>|
                p != plan_id@ && old(self).has_plan(p) ==> #[trigger] final(self).plan_of(p)
                    == old(self).plan_of(p),
            final(self).prices == old(self).prices,
            final(self).users == old(self).users,
            final(self).user_plans == old(self).user_plans,
            final(self).ledger == old(self).ledger,
            final(self).enabled == old(self).enabled,
            final(self).payment_address == old(self).payment_address,
    {
        if !is_owner {
            return Err(SubscriptionError::Unauthorized);
        }
        let idx = match Self::find_plan(&self.plans, plan_id) {
            None => {
                return Err(SubscriptionError::NotFound);
            },
            Some(i) => i,
        };
        let ghost old_plans = self.plans@;
        proof {
            lemma_key_index_is(old_plans, plan_key(), idx as int);
        }
        let old_plan = self.plans.remove(idx);
        let plan = Plan { status, ..old_plan };
        let ghost gp = plan;
        self.plans.insert(idx, plan);
        proof {
            assert(self.plans@ =~= old_plans.update(idx as int, gp));
            lemma_update_entry(old_plans, plan_key(), idx as int, gp);
        }
        Ok(())
    }

    /// Upserts the price of `plan_id` in `asset_id`: the asset joins the
    /// plan's allowed set if new, and its price is set or overwritten.
    pub fn set_subscription_plan_price(
        &mut self,
        is_owner: bool,
        plan_id: &Vec<u8>,
        asset_id: &Vec<u8>,
        price: u128,
    ) -> (r: Result<(), SubscriptionError>)
        requires
            old(self).wf(),
        ensures
            final(self).wf(),
            r == (if !is_owner {
                Err::<(), SubscriptionError>(SubscriptionError::Unauthorized)
            } else if !old(self).has_plan(plan_id@) {
                Err::<(), SubscriptionError>(SubscriptionError::NotFound)
            } else {
                Ok::<(), SubscriptionError>(())
            }),
            r is Err ==> *final(self) == *old(self),
            r is Ok ==> final(self).has_price(plan_id@, asset_id@) && final(self).price_of(
                plan_id@,
                asset_id@,
            ) == price,
            r is Ok ==> old(self).has_price(plan_id@, asset_id@) ==> final(self).prices@
                == old(self).prices@.update(
                key_index(old(self).prices@, price_key(), (plan_id@, asset_id@)),
                (PriceEntry {
                    price,
                    ..old(self).prices@[key_index(
                        old(self).prices@,
                        price_key(),
                        (plan_id@, asset_id@),
                    )]
                }),
            ),
            r is Ok ==> !old(self).has_price(plan_id@, asset_id@) ==> {
                &&& final(self).prices@.len() == old(self).prices@.len() + 1
                &&& forall|i: int|
                    0 <= i < old(self).prices@.len() ==> final(self).prices@[i]
                        == old(self).prices@[i]
                &&& final(self).prices@[old(self).prices@.len() as int].plan_id@ == plan_id@
                &&& final(self).prices@[old(self).prices@.len() as int].asset_id@ == asset_id@
                &&& final(self).prices@[old(self).prices@.len() as int].price == price
            },
            forall|p: Seq<u8>, a: Seq<u8>|
                !(p == plan_id@ && a == asset_id@) ==> #[trigger] final(self).has_price(p, a)
                    == old(self).has_price(p, a),
            forall|p: Seq<u8>, a: Seq<u8>|
                !(p == plan_id@ && a == asset_id@) && old(self).has_price(p, a)
                    ==> #[trigger] final(self).price_of(p, a) == old(self).price_of(p, a),
            final(self).plans == old(self).plans,
            final(self).users == old(self).users,
            final(self).user_plans == old(self).user_plans,
            final(self).ledger == old(self).ledger,
            final(self).enabled == old(self).enabled,
            final(self).payment_address == old(self).payment_address,
    {
        if !is_owner {
            return Err(SubscriptionError::Unauthorized);
        }
        if Self::find_plan(&self.plans, plan_id).is_none() {
            return Err(SubscriptionError::NotFound);
        }
        let ghost old_prices = self.prices@;
        match Self::find_price(&self.prices, plan_id, asset_id) {
            Some(i) => {
                proof {
                    lemma_key_index_is(old_prices, price_key(), i as int);
                }
                let old_e = self.prices.remove(i);
                let e = PriceEntry { price, ..old_e };
                let ghost ge = e;
                self.prices.insert(i, e);
                proof {
                    assert(self.prices@ =~= old_prices.update(i as int, ge));
                    lemma_update_entry(old_prices, price_key(), i as int, ge);
                }
            },
            None => {
                let e = PriceEntry {
                    plan_id: clone_bytes(plan_id),
                    asset_id: clone_bytes(asset_id),
                    price,
                };
                let ghost ge = e;
                proof {
                    lemma_push_fresh(old_prices, price_key(), ge);
                }
                self.prices.push(e);
            },
        }
        Ok(())
    }

    /// Removes `asset_id` from `plan_id`'s allowed-asset set together with
    /// its price row — the two leave atomically.
    pub fn remove_subscription_plan_token(
        &mut self,
        is_owner: bool,
        plan_id: &Vec<u8>,
        asset_id: &Vec<u8>,
    ) -> (r: Result<(), SubscriptionError>)
        requires
            old(self).wf(),
        ensures
            final(self).wf(),
            r == (if !is_owner {
                Err::<(), SubscriptionError>(SubscriptionError::Unauthorized)
            } else if !old(self).has_plan(plan_id@) {
                Err::<(), SubscriptionError>(SubscriptionError::NotFound)
            } else if !old(self).has_price(plan_id@, asset_id@) {
                Err::<(), SubscriptionError>(SubscriptionError::AssetNotAccepted)
            } else {
                Ok::<(), SubscriptionError>(())
            }),
            r is Err ==> *final(self) == *old(self),
            r is Ok ==> final(self).prices@ == old(self).prices@.remove(
                key_index(old(self).prices@, price_key(), (plan_id@, asset_id@)),
            ),
            r is Ok ==> !final(self).has_price(plan_id@, asset_id@),
            forall|p: Seq<u8>, a: Seq<u8>|
                !(p == plan_id@ && a == asset_id@) ==> #[trigger] final(self).has_price(p, a)
                    == old(self).has_price(p, a),
            forall|p: Seq<u8>, a: Seq<u8>|
                !(p == plan_id@ && a == asset_id@) && old(self).has_price(p, a)
                    ==> #[trigger] final(self).price_of(p, a) == old(self).price_of(p, a),
            final(self).plans == old(self).plans,
            final(self).users == old(self).users,
            final(self).user_plans == old(self).user_plans,
            final(self).ledger == old(self).ledger,
            final(self).enabled == old(self).enabled,
            final(self).payment_address == old(self).payment_address,
    {
        if !is_owner {
            return Err(SubscriptionError::Unauthorized);
        }
        if Self::find_plan(&self.plans, plan_id).is_none() {
            return Err(SubscriptionError::NotFound);
        }
        let idx = match Self::find_price(&self.prices, plan_id, asset_id) {
            None => {
                return Err(SubscriptionError::AssetNotAccepted);
            },
            Some(i) => i,
        };
        proof {
            lemma_key_index_is(self.prices@, price_key(), idx as int);
            lemma_remove_at(self.prices@, price_key(), idx as int);
        }
        self.prices.remove(idx);
        Ok(())
    }

    /// Removes a plan from the catalog and cascades: every price row and
    /// allowed-asset membership of the plan is deleted with it, leaving no
    /// residue.
    pub fn remove_plan(&mut self, is_owner: bool, plan_id: &Vec<u8>) -> (r: Result<
        (),
        SubscriptionError,
    >)
        requires
            old(self).wf(),
        ensures
            final(self).wf(),
            r == (if !is_owner {
                Err::<(), SubscriptionError>(SubscriptionError::Unauthorized)
            } else if !old(self).has_plan(plan_id@) {
                Err::<(), SubscriptionError>(SubscriptionError::NotFound)
            } else {
                Ok::<(), SubscriptionError>(())
            }),
            r is Err ==> *final(self) == *old(self),
            r is Ok ==> final(self).plans@ == old(self).plans@.remove(
                key_index(old(self).plans@, plan_key(), plan_id@),
            ),
            r is Ok ==> !final(self).has_plan(plan_id@),
            forall|p: Seq<u8>|
                p != plan_id@ ==> #[trigger] final(self).has_plan(p) == old(self).has_plan(p),
            forall|p: Seq<u8>|
                p != plan_id@ && old(self).has_plan(p) ==> #[trigger] final(self).plan_of(p)
                    == old(self).plan_of(p),
            r is Ok ==> final(self).prices@ == prices_without_plan(old(self).prices@, plan_id@),
            r is Ok ==> forall|a: Seq<u8>| !final(self).has_price(plan_id@, a),
            forall|p: Seq<u8>, a: Seq<u8>|
                p != plan_id@ ==> #[trigger] final(self).has_price(p, a) == old(self).has_price(
                    p,
                    a,
                ),
            forall|p: Seq<u8>, a: Seq<u8>|
                p != plan_id@ && old(self).has_price(p, a) ==> #[trigger] final(self).price_of(
                    p,
                    a,
                ) == old(self).price_of(p, a),
            final(self).users == old(self).users,
            final(self).user_plans == old(self).user_plans,
            final(self).ledger == old(self).ledger,
            final(self).enabled == old(self).enabled,
            final(self).payment_address == old(self).payment_address,
    {
        if !is_owner {
            return Err(SubscriptionError::Unauthorized);
        }
        let idx = match Self::find_plan(&self.plans, plan_id) {
            None => {
                return Err(SubscriptionError::NotFound);
            },
            Some(i) => i,
        };
        proof {
            lemma_key_index_is(self.plans@, plan_key(), idx as int);
            lemma_remove_at(self.plans@, plan_key(), idx as int);
        }
        self.plans.remove(idx);

        let ghost old_prices = self.prices@;
        proof {
            lemma_prices_without_plan(old_prices, plan_id@);
            assert(old_prices.take(0).len() == 0);
            assert(self.prices@ =~= prices_without_plan(old_prices.take(0), plan_id@)
                + old_prices.skip(0));
        }
        let mut i: usize = 0;
        let ghost mut j: int = 0;
        while i < self.prices.len()
            invariant
                0 <= j <= old_prices.len(),
                i as int == prices_without_plan(old_prices.take(j), plan_id@).len(),
                self.prices@ == prices_without_plan(old_prices.take(j), plan_id@)
                    + old_prices.skip(j),
                self.plans@ == old(self).plans@.remove(
                    key_index(old(self).plans@, plan_key(), plan_id@),
                ),
                self.users == old(self).users,
                self.user_plans == old(self).user_plans,
                self.ledger == old(self).ledger,
                self.enabled == old(self).enabled,
                self.payment_address == old(self).payment_address,
            decreases old_prices.len() - j,
        {
            proof {
                assert(old_prices.skip(j).len() > 0);
                assert(self.prices@[i as int] == old_prices.skip(j)[0]);
                assert(old_prices.skip(j)[0] == old_prices[j]);
                assert(old_prices.take(j + 1).drop_last() =~= old_prices.take(j));
                assert(old_prices.take(j + 1).last() == old_prices[j]);
            }
            let ghost before = self.prices@;
            if bytes_eq(&self.prices[i].plan_id, plan_id) {
                self.prices.remove(i);
                proof {
                    before.remove_ensures(i as int);
                    assert(prices_without_plan(old_prices.take(j + 1), plan_id@)
                        =~= prices_without_plan(old_prices.take(j), plan_id@));
                    assert(self.prices@ =~= prices_without_plan(old_prices.take(j + 1), plan_id@)
                        + old_prices.skip(j + 1));
                }
            } else {
                i += 1;
                proof {
                    assert(prices_without_plan(old_prices.take(j + 1), plan_id@)
                        =~= prices_without_plan(old_prices.take(j), plan_id@).push(old_prices[j]));
                    assert(self.prices@ =~= prices_without_plan(old_prices.take(j + 1), plan_id@)
                        + old_prices.skip(j + 1));
                }
            }
            proof {
                j = j + 1;
            }
        }
        proof {
            assert(old_prices.skip(j).len() == old_prices.len() - j);
            assert(j == old_prices.len());
            assert(old_prices.take(j) =~= old_prices);
            assert(self.prices@ =~= prices_without_plan(old_prices, plan_id@));
            assert forall|k: int| 0 <= k < self.prices@.len() implies self.has_plan(
                #[trigger] self.prices@[k].plan_id@,
            ) by {
                let r = prices_without_plan(old_prices, plan_id@);
                assert(self.prices@ == r);
                assert(r[k] == self.prices@[k]);
                assert(r[k].plan_id@ != plan_id@ && old_prices.contains(r[k]));
                let m = choose|m: int| 0 <= m < old_prices.len() && old_prices[m] == r[k];
                assert(old(self).prices@[m] == old_prices[m]);
                assert(old(self).has_plan(old(self).prices@[m].plan_id@));
                assert(old(self).has_plan(r[k].plan_id@));
                assert(plan_key()(old(self).plans@[idx as int]) == plan_id@);
                assert(self.plans@ == old(self).plans@.remove(idx as int));
                assert(has_key(old(self).plans@.remove(idx as int), plan_key(), r[k].plan_id@)
                    == has_key(old(self).plans@, plan_key(), r[k].plan_id@));
            }
        }
        Ok(())
    }

    /// Activates or extends `user`'s entitlement for `plan` at time `now`,
    /// registering the user on first contact.
    ///
    /// The expiry follows [`next_expiry`]: a first payment or a lapsed
    /// renewal starts the window at `now`, a timely renewal stacks the
    /// validity on top of the unexpired window.  `first_subscribed` is set
    /// once and never changes afterwards; rows are never deleted.
    pub fn activate_user_plan(&mut self, user: &Vec<u8>, plan: &Plan, now: u64)
        requires
            old(self).wf(),
            next_expiry(old(self).prev_expiry_of(user@, plan.id@), now, plan.validity)
                <= u64::MAX,
        ensures
            final(self).wf(),
            entitlement_post(*old(self), *final(self), user@, plan.id@, plan.validity, now),
            final(self).plans == old(self).plans,
            final(self).prices == old(self).prices,
            final(self).ledger == old(self).ledger,
            final(self).enabled == old(self).enabled,
            final(self).payment_address == old(self).payment_address,
    {
        if Self::find_user(&self.users, user).is_none() {
            let u = clone_bytes(user);
            let ghost gu = u;
            proof {
                assert(user_key()(gu) == user@);
                lemma_push_fresh(self.users@, user_key(), gu);
            }
            self.users.push(u);
        }
        let ghost old_ups = self.user_plans@;
        match Self::find_user_plan(&self.user_plans, user, &plan.id) {
            Some(i) => {
                proof {
                    lemma_key_index_is(old_ups, user_plan_key(), i as int);
                }
                let old_e = self.user_plans.remove(i);
                let new_expires = if old_e.plan.expires_at > now {
                    old_e.plan.expires_at + plan.validity
                } else {
                    now + plan.validity
                };
                let e = UserPlanEntry {
                    user: old_e.user,
                    plan: UserPlan {
                        plan_id: old_e.plan.plan_id,
                        expires_at: new_expires,
                        first_subscribed: old_e.plan.first_subscribed,
                        last_subscribed: now,
                    },
                };
                let ghost ge = e;
                self.user_plans.insert(i, e);
                proof {
                    assert(self.user_plans@ =~= old_ups.update(i as int, ge));
                    lemma_update_entry(old_ups, user_plan_key(), i as int, ge);
                }
            },
            None => {
                let e = UserPlanEntry {
                    user: clone_bytes(user),
                    plan: UserPlan {
                        plan_id: clone_bytes(&plan.id),
                        expires_at: now + plan.validity,
                        first_subscribed: now,
                        last_subscribed: now,
                    },
                };
                let ghost ge = e;
                proof {
                    assert(user_plan_key()(ge) == (user@, plan.id@));
                    lemma_push_fresh(old_ups, user_plan_key(), ge);
                }
                self.user_plans.push(e);
            },
        }
        proof {
            assert(self.user_plan_of(user@, plan.id@) =~= (UserPlanModel {
                plan_id: plan.id@,
                expires_at: next_expiry(
                    old(self).prev_expiry_of(user@, plan.id@),
                    now,
                    plan.validity,
                ) as u64,
                first_subscribed: if old(self).has_user_plan(user@, plan.id@) {
                    old(self).user_plan_of(user@, plan.id@).first_subscribed
                } else {
                    now
                },
                last_subscribed: now,
            }));
            assert forall|k: int| 0 <= k < self.user_plans@.len() implies has_key(
                self.users@,
                user_key(),
                #[trigger] self.user_plans@[k].user@,
            ) by {
                if self.user_plans@[k].user@ == user@ {
                    assert(self.has_user(user@));
                } else {
                    assert(self.user_plans@[k] == old_ups[k]);
                    assert(has_key(old(self).users@, user_key(), old_ups[k].user@));
                    assert(self.has_user(old_ups[k].user@) == old(self).has_user(
                        old_ups[k].user@,
                    ));
                }
            }
        }
    }

    /// Adds one verified payment to the historic totals: the global total
    /// for the asset and the caller's total for it, both append-only.
    pub fn register_historic_data(&mut self, caller: &Vec<u8>, asset: &Vec<u8>, amount: u128)
        requires
            old(self).wf(),
            old(self).ledger.total_of(asset@) + amount <= u128::MAX,
        ensures
            final(self).wf(),
            crate::ledger::ledger_post(old(self).ledger, final(self).ledger, caller@, asset@, amount),
            final(self).plans == old(self).plans,
            final(self).prices == old(self).prices,
            final(self).users == old(self).users,
            final(self).user_plans == old(self).user_plans,
            final(self).enabled == old(self).enabled,
            final(self).payment_address == old(self).payment_address,
    {
        self.ledger.record(caller, asset, amount);
    }

    /// Verifies and registers one payment of `amount` in `asset` by
    /// `caller` for plan `plan_id` at time `now`.
    ///
    /// The checks run in order — engine enabled, plan known, asset
    /// accepted, amount exactly the configured price, plan enabled — and the
    /// first failure aborts the call with the matching error and no state
    /// change at all.  On success the entitlement is extended, the totals
    /// grow, and the returned instruction forwards the full amount to the
    /// configured payout address.
    pub fn register_payment(
        &mut self,
        caller: &Vec<u8>,
        plan_id: &Vec<u8>,
        asset: &Vec<u8>,
        amount: u128,
        now: u64,
    ) -> (r: Result<Transfer, SubscriptionError>)
        requires
            old(self).wf(),
            old(self).pay_fits(caller@, plan_id@, asset@, amount, now),
        ensures
            final(self).wf(),
            pay_post(*old(self), *final(self), caller@, plan_id@, asset@, amount, now, r),
    {
        if !self.enabled {
            return Err(SubscriptionError::ContractDisabled);
        }
        let plan_idx = match Self::find_plan(&self.plans, plan_id) {
            None => {
                return Err(SubscriptionError::UnknownPlan);
            },
            Some(i) => i,
        };
        let price_idx = match Self::find_price(&self.prices, plan_id, asset) {
            None => {
                return Err(SubscriptionError::AssetNotAccepted);
            },
            Some(i) => i,
        };
        proof {
            lemma_key_index_is(self.plans@, plan_key(), plan_idx as int);
            lemma_key_index_is(self.prices@, price_key(), price_idx as int);
        }
        if self.prices[price_idx].price != amount {
            return Err(SubscriptionError::InvalidAmount);
        }
        let plan = self.plans[plan_idx].clone();
        if plan.status == PlanStatus::Disabled {
            return Err(SubscriptionError::PlanDisabled);
        }
        proof {
            assert(old(self).pay_check(plan_id@, asset@, amount) is Ok);
        }
        self.activate_user_plan(caller, &plan, now);
        let ghost mid = *self;
        self.register_historic_data(caller, asset, amount);
        proof {
            let pre = *old(self);
            assert(plan.validity == pre.plan_of(plan_id@).validity);
            assert(entitlement_post(pre, mid, caller@, plan_id@, plan.validity, now));
            assert(self.users == mid.users && self.user_plans == mid.user_plans);
            assert forall|u: Seq<u8>| u != caller@ implies #[trigger] self.has_user(u)
                == pre.has_user(u) by {
                assert(mid.has_user(u) == pre.has_user(u));
            }
            assert forall|u: Seq<u8>, p: Seq<u8>|
                !(u == caller@ && p == plan_id@) implies #[trigger] self.has_user_plan(u, p)
                == pre.has_user_plan(u, p) by {
                assert(mid.has_user_plan(u, p) == pre.has_user_plan(u, p));
            }
            assert forall|u: Seq<u8>, p: Seq<u8>|
                !(u == caller@ && p == plan_id@) && pre.has_user_plan(u, p)
                implies #[trigger] self.user_plan_of(u, p) == pre.user_plan_of(u, p) by {
                assert(mid.user_plan_of(u, p) == pre.user_plan_of(u, p));
            }
            assert(entitlement_post(pre, *self, caller@, plan_id@, plan.validity, now));
        }
        let payout = match &self.payment_address {
            Some(a) => clone_bytes(a),
            None => {
                proof {
                    assert(false);
                }
                vstd::pervasive::unreached()
            },
        };
        Ok(Transfer { to: payout, asset: clone_bytes(asset), amount })
    }

    /// A payment attached to a transfer of the native asset.
    pub fn pay_with_egld(&mut self, caller: &Vec<u8>, plan_id: &Vec<u8>, amount: u128, now: u64)
        -> (r: Result<Transfer, SubscriptionError>)
        requires
            old(self).wf(),
            old(self).pay_fits(caller@, plan_id@, egld_id(), amount, now),
        ensures
            final(self).wf(),
            pay_post(*old(self), *final(self), caller@, plan_id@, egld_id(), amount, now, r),
    {
        let egld = egld_token_id();
        self.register_payment(caller, plan_id, &egld, amount, now)
    }

    /// A payment attached to a transfer of any other asset.
    pub fn pay_with_esdt(
        &mut self,
        caller: &Vec<u8>,
        plan_id: &Vec<u8>,
        asset: &Vec<u8>,
        amount: u128,
        now: u64,
    ) -> (r: Result<Transfer, SubscriptionError>)
        requires
            old(self).wf(),
            old(self).pay_fits(caller@, plan_id@, asset@, amount, now),
        ensures
            final(self).wf(),
            pay_post(*old(self), *final(self), caller@, plan_id@, asset@, amount, now, r),
    {
        self.register_payment(caller, plan_id, asset, amount, now)
    }

    /// Looks up the catalog index of plan `plan_id`.
    fn find_plan(plans: &Vec<Plan>, plan_id: &Vec<u8>) -> (r: Option<usize>)
        ensures
            match r {
                Some(i) => i < plans@.len() && plans@[i as int].id@ == plan_id@,
                None => !has_key(plans@, plan_key(), plan_id@),
            },
    {
        let mut i: usize = 0;
        while i < plans.len()
            invariant
                i <= plans@.len(),
                forall|j: int| 0 <= j < i ==> plans@[j].id@ != plan_id@,
            decreases plans@.len() - i,
        {
            if bytes_eq(&plans[i].id, plan_id) {
                return Some(i);
            }
            i += 1;
        }
        None
    }

    /// Looks up the price-table index of `(plan_id, asset_id)`.
    fn find_price(prices: &Vec<PriceEntry>, plan_id: &Vec<u8>, asset_id: &Vec<u8>) -> (r: Option<
        usize,
    >)
        ensures
            match r {
                Some(i) => i < prices@.len() && prices@[i as int].plan_id@ == plan_id@
                    && prices@[i as int].asset_id@ == asset_id@,
                None => !has_key(prices@, price_key(), (plan_id@, asset_id@)),
            },
    {
        let mut i: usize = 0;
        while i < prices.len()
            invariant
                i <= prices@.len(),
                forall|j: int|
                    0 <= j < i ==> !(prices@[j].plan_id@ == plan_id@ && prices@[j].asset_id@
                        == asset_id@),
            decreases prices@.len() - i,
        {
            if bytes_eq(&prices[i].plan_id, plan_id) && bytes_eq(&prices[i].asset_id, asset_id) {
                return Some(i);
            }
            i += 1;
        }
        None
    }

    /// Looks up the index of `user` in the user set.
    fn find_user(users: &Vec<Vec<u8>>, user: &Vec<u8>) -> (r: Option<usize>)
        ensures
            match r {
                Some(i) => i < users@.len() && users@[i as int]@ == user@,
                None => !has_key(users@, user_key(), user@),
            },
    {
        let mut i: usize = 0;
        while i < users.len()
            invariant
                i <= users@.len(),
                forall|j: int| 0 <= j < i ==> users@[j]@ != user@,
            decreases users@.len() - i,
        {
            if bytes_eq(&users[i], user) {
                return Some(i);
            }
            i += 1;
        }
        None
    }

    /// Looks up the entitlement-table index of `(user, plan_id)`.
    fn find_user_plan(ups: &Vec<UserPlanEntry>, user: &Vec<u8>, plan_id: &Vec<u8>) -> (r: Option<
        usize,
    >)
        ensures
            match r {
                Some(i) => i < ups@.len() && ups@[i as int].user@ == user@
                    && ups@[i as int].plan.plan_id@ == plan_id@,
                None => !has_key(ups@, user_plan_key(), (user@, plan_id@)),
            },
    {
        let mut i: usize = 0;
        while i < ups.len()
            invariant
                i <= ups@.len(),
                forall|j: int|
                    0 <= j < i ==> !(ups@[j].user@ == user@ && ups@[j].plan.plan_id@ == plan_id@),
            decreases ups@.len() - i,
        {
            if bytes_eq(&ups[i].user, user) && bytes_eq(&ups[i].plan.plan_id, plan_id) {
                return Some(i);
            }
            i += 1;
        }
        None
    }
}

/// How one verified payment at `now` changes the user set and the
/// entitlement table: the paying user is registered, their row for the plan
/// is created or extended per [`next_expiry`], and nothing else moves.
pub open spec fn entitlement_post(
    pre: Subscriptions,
    post: Subscriptions,
    user: Seq<u8>,
    pid: Seq<u8>,
    validity: u64,
    now: u64,
) -> bool {
    &&& post.has_user(user)
    &&& (pre.has_user(user) ==> post.users == pre.users)
    &&& (!pre.has_user(user) ==> {
        &&& post.users@.len() == pre.users@.len() + 1
        &&& (forall|i: int|
            0 <= i < pre.users@.len() ==> #[trigger] post.users@[i]@ == pre.users@[i]@)
        &&& post.users@[pre.users@.len() as int]@ == user
    })
    &&& (forall|u: Seq<u8>| u != user ==> #[trigger] post.has_user(u) == pre.has_user(u))
    &&& post.has_user_plan(user, pid)
    &&& post.user_plan_of(user, pid) == (UserPlanModel {
        plan_id: pid,
        expires_at: next_expiry(pre.prev_expiry_of(user, pid), now, validity) as u64,
        first_subscribed: if pre.has_user_plan(user, pid) {
            pre.user_plan_of(user, pid).first_subscribed
        } else {
            now
        },
        last_subscribed: now,
    })
    &&& (forall|u: Seq<u8>, p: Seq<u8>|
        !(u == user && p == pid) ==> #[trigger] post.has_user_plan(u, p) == pre.has_user_plan(
            u,
            p,
        ))
    &&& (forall|u: Seq<u8>, p: Seq<u8>|
        !(u == user && p == pid) && pre.has_user_plan(u, p) ==> #[trigger] post.user_plan_of(
            u,
            p,
        ) == pre.user_plan_of(u, p))
    &&& post.user_plans@.len() == pre.user_plans@.len() + (if pre.has_user_plan(user, pid) {
        0int
    } else {
        1int
    })
}

/// The full contract of one `pay` call: on a failed check, exactly the
/// matching error and a state identical to before; on success, the
/// forwarding instruction to the payout address, the entitlement
/// transition, the ledger growth, and an untouched catalog and
/// configuration.
pub open spec fn pay_post(
    pre: Subscriptions,
    post: Subscriptions,
    user: Seq<u8>,
    pid: Seq<u8>,
    asset: Seq<u8>,
    amount: u128,
    now: u64,
    r: Result<Transfer, SubscriptionError>,
) -> bool {
    match pre.pay_check(pid, asset, amount) {
        Result::Err(e) => r == Result::<Transfer, SubscriptionError>::Err(e) && post == pre,
        Result::Ok(_) => {
            &&& (match r {
                Result::Ok(t) => t@ == (TransferModel {
                    to: pre.payout_of(),
                    asset: asset,
                    amount: amount,
                }),
                Result::Err(_) => false,
            })
            &&& entitlement_post(pre, post, user, pid, pre.plan_of(pid).validity, now)
            &&& crate::ledger::ledger_post(pre.ledger, post.ledger, user, asset, amount)
            &&& post.plans == pre.plans
            &&& post.prices == pre.prices
            &&& post.enabled == pre.enabled
            &&& post.payment_address == pre.payment_address
        },
    }
}

/// The expiry standing after a sequence of payments at the given times, all
/// for one plan with the given validity, starting from no entitlement.
/// Meaningful only for a non-empty sequence.
pub open spec fn expiry_after(times: Seq<u64>, validity: u64) -> int
    recommends
        times.len() >= 1,
    decreases times.len(),
{
    if times.len() == 0 {
        0
    } else if times.len() == 1 {
        next_expiry(None, times[0], validity)
    } else {
        next_expiry(Some(expiry_after(times.drop_last(), validity)), times.last(), validity)
    }
}

/// Timely renewals stack losslessly: for payments at strictly increasing
/// times, each strictly before the expiry the previous payments produced,
/// the final expiry is the first payment time plus as many validities as
/// there were payments.
pub proof fn lemma_timely_renewals_stack(times: Seq<u64>, validity: u64)
    requires
        times.len() >= 1,
        forall|i: int, j: int| 0 <= i < j < times.len() ==> times[i] < times[j],
        forall|i: int|
            0 < i < times.len() ==> (times[i] as int) < expiry_after(times.take(i), validity),
    ensures
        expiry_after(times, validity) == times[0] + times.len() * validity,
    decreases times.len(),
{
    if times.len() == 1 {
        assert(times[0] + 1 * validity == times[0] + validity) by (nonlinear_arith);
    } else {
        let t0 = times.drop_last();
        assert(t0 =~= times.take(times.len() - 1));
        assert forall|i: int|
            0 < i < t0.len() implies (t0[i] as int) < expiry_after(t0.take(i), validity) by {
            assert(t0.take(i) =~= times.take(i));
            assert(t0[i] == times[i]);
        }
        lemma_timely_renewals_stack(t0, validity);
        assert((times.last() as int) < expiry_after(t0, validity));
        assert(t0[0] == times[0]);
        assert(times[0] + (times.len() - 1) * validity + validity == times[0] + times.len()
            * validity) by (nonlinear_arith);
    }
}

/// A payment strictly after the current expiry resets the window: the new
/// expiry is the payment time plus one validity, and whatever stacked
/// duration had lapsed is discarded rather than carried forward.
pub proof fn lemma_lapsed_payment_resets(prev: int, now: u64, validity: u64)
    requires
        prev < now,
    ensures
        next_expiry(Some(prev), now, validity) == now + validity,
{
}

/// A payment never moves an expiry backwards: stacking extends the window,
/// and a reset happens only at or after the old expiry, so the new window
/// still ends no earlier than the old one did.
pub proof fn lemma_expiry_never_decreases(prev: int, now: u64, validity: u64)
    ensures
        next_expiry(Some(prev), now, validity) >= prev,
{
}

/// The price table with every row of plan `pid` removed, order otherwise
/// kept.
pub open spec fn prices_without_plan(s: Seq<PriceEntry>, pid: Seq<u8>) -> Seq<PriceEntry>
    decreases s.len(),
{
    if s.len() == 0 {
        Seq::empty()
    } else {
        let rest = prices_without_plan(s.drop_last(), pid);
        if s.last().plan_id@ == pid {
            rest
        } else {
            rest.push(s.last())
        }
    }
}

/// What the cascade leaves behind: unique keys, no row of `pid` at all, every
/// other `(plan, asset)` row exactly as it was, and nothing that was not
/// already in the table.
pub proof fn lemma_prices_without_plan(s: Seq<PriceEntry>, pid: Seq<u8>)
    requires
        keys_unique(s, price_key()),
    ensures
        keys_unique(prices_without_plan(s, pid), price_key()),
        forall|a: Seq<u8>| !has_key(prices_without_plan(s, pid), price_key(), (pid, a)),
        forall|p: Seq<u8>, a: Seq<u8>|
            p != pid ==> #[trigger] has_key(prices_without_plan(s, pid), price_key(), (p, a))
                == has_key(s, price_key(), (p, a)),
        forall|p: Seq<u8>, a: Seq<u8>|
            p != pid && has_key(s, price_key(), (p, a)) ==> #[trigger] entry_of(
                prices_without_plan(s, pid),
                price_key(),
                (p, a),
            ) == entry_of(s, price_key(), (p, a)),
        forall|i: int|
            0 <= i < prices_without_plan(s, pid).len() ==> (#[trigger] prices_without_plan(
                s,
                pid,
            )[i]).plan_id@ != pid && s.contains(prices_without_plan(s, pid)[i]),
    decreases s.len(),
{
    let r = prices_without_plan(s, pid);
    if s.len() == 0 {
        assert forall|a: Seq<u8>| !has_key(r, price_key(), (pid, a)) by {}
    } else {
        let s0 = s.drop_last();
        let e = s.last();
        assert(keys_unique(s0, price_key()));
        lemma_prices_without_plan(s0, pid);
        let r0 = prices_without_plan(s0, pid);
        assert(s =~= s0.push(e));
        assert(!has_key(s0, price_key(), price_key()(e))) by {
            if has_key(s0, price_key(), price_key()(e)) {
                let m = choose|m: int|
                    0 <= m < s0.len() && price_key()(s0[m]) == price_key()(e);
                assert(price_key()(s[m]) != price_key()(s[s.len() - 1]));
            }
        }
        lemma_push_fresh(s0, price_key(), e);
        if e.plan_id@ == pid {
            assert(r == r0);
            assert forall|p: Seq<u8>, a: Seq<u8>| p != pid implies #[trigger] has_key(
                r,
                price_key(),
                (p, a),
            ) == has_key(s, price_key(), (p, a)) by {
                assert((p, a) != price_key()(e));
            }
            assert forall|p: Seq<u8>, a: Seq<u8>|
                p != pid && has_key(s, price_key(), (p, a)) implies #[trigger] entry_of(
                r,
                price_key(),
                (p, a),
            ) == entry_of(s, price_key(), (p, a)) by {
                assert((p, a) != price_key()(e));
            }
            assert forall|i: int|
                0 <= i < r.len() implies (#[trigger] r[i]).plan_id@ != pid && s.contains(
                r[i],
            ) by {
                assert(s0.contains(r[i]));
                let m = choose|m: int| 0 <= m < s0.len() && s0[m] == r[i];
                assert(s[m] == r[i]);
            }
        } else {
            assert(r == r0.push(e));
            assert(!has_key(r0, price_key(), price_key()(e))) by {
                assert(has_key(r0, price_key(), (e.plan_id@, e.asset_id@)) == has_key(
                    s0,
                    price_key(),
                    (e.plan_id@, e.asset_id@),
                ));
            }
            lemma_push_fresh(r0, price_key(), e);
            assert forall|a: Seq<u8>| !has_key(r, price_key(), (pid, a)) by {
                assert((pid, a) != price_key()(e));
                assert(has_key(r, price_key(), (pid, a)) == has_key(r0, price_key(), (pid, a)));
            }
            assert forall|p: Seq<u8>, a: Seq<u8>| p != pid implies #[trigger] has_key(
                r,
                price_key(),
                (p, a),
            ) == has_key(s, price_key(), (p, a)) by {
                if (p, a) == price_key()(e) {
                    assert(has_key(r, price_key(), (p, a)));
                    assert(has_key(s, price_key(), (p, a)));
                } else {
                    assert(has_key(r, price_key(), (p, a)) == has_key(r0, price_key(), (p, a)));
                    assert(has_key(s, price_key(), (p, a)) == has_key(s0, price_key(), (p, a)));
                }
            }
            assert forall|p: Seq<u8>, a: Seq<u8>|
                p != pid && has_key(s, price_key(), (p, a)) implies #[trigger] entry_of(
                r,
                price_key(),
                (p, a),
            ) == entry_of(s, price_key(), (p, a)) by {
                if (p, a) == price_key()(e) {
                    assert(entry_of(r, price_key(), (p, a)) == e);
                    assert(entry_of(s, price_key(), (p, a)) == e);
                } else {
                    assert(has_key(s0, price_key(), (p, a)));
                    assert(entry_of(r, price_key(), (p, a)) == entry_of(r0, price_key(), (p, a)));
                    assert(entry_of(s, price_key(), (p, a)) == entry_of(s0, price_key(), (p, a)));
                }
            }
            assert forall|i: int|
                0 <= i < r.len() implies (#[trigger] r[i]).plan_id@ != pid && s.contains(
                r[i],
            ) by {
                if i < r0.len() {
                    assert(r[i] == r0[i]);
                    assert(s0.contains(r0[i]));
                    let m = choose|m: int| 0 <= m < s0.len() && s0[m] == r0[i];
                    assert(s[m] == r[i]);
                } else {
                    assert(r[i] == e);
                    assert(s[s.len() - 1] == e);
                }
            }
        }
    }
}

} // verus!
