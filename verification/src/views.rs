//! Read-only enumeration over the engine's state.
//!
//! Views never mutate and never fail: a query about an unknown plan or
//! user simply returns an empty result.  [`Subscriptions`] implements the
//! trait over its own tables.

use vstd::prelude::*;

use crate::bytes::{bytes_eq, clone_bytes};
use crate::structs::{Plan, PlanModel, UserPlan, UserPlanModel};
use crate::subscriptions::{PriceEntry, Subscriptions, UserPlanEntry};

verus! {

/// The `(asset, price)` rows configured for plan `pid`, in table order.
pub open spec fn plan_price_rows(s: Seq<PriceEntry>, pid: Seq<u8>) -> Seq<(Seq<u8>, u128)>
    decreases s.len(),
{
    if s.len() == 0 {
        Seq::empty()
    } else {
        let rest = plan_price_rows(s.drop_last(), pid);
        if s.last().plan_id@ == pid {
            rest.push((s.last().asset_id@, s.last().price))
        } else {
            rest
        }
    }
}

/// User `u`'s entitlement rows, in table order.
pub open spec fn user_plan_rows(s: Seq<UserPlanEntry>, u: Seq<u8>) -> Seq<UserPlanModel>
    decreases s.len(),
{
    if s.len() == 0 {
        Seq::empty()
    } else {
        let rest = user_plan_rows(s.drop_last(), u);
        if s.last().user@ == u {
            rest.push(s.last().plan@)
        } else {
            rest
        }
    }
}

/// The read-only enumerations of the subscription engine.
pub trait ViewsModule: Sized {
    /// All catalog plans, in catalog order.
    spec fn view_plans(&self) -> Seq<PlanModel>;

    /// The `(asset, price)` pairs priced for plan `pid`, in table order.
    spec fn view_plan_prices(&self, pid: Seq<u8>) -> Seq<(Seq<u8>, u128)>;

    /// User `u`'s entitlement rows, in table order.
    spec fn view_user_plans(&self, u: Seq<u8>) -> Seq<UserPlanModel>;

    /// All catalog plans, full records.
    fn get_subscription_plans(&self) -> (r: Vec<Plan>)
        ensures
            r@.len() == self.view_plans().len(),
            forall|i: int| 0 <= i < r@.len() ==> (#[trigger] r@[i])@ == self.view_plans()[i],
    ;

    /// The `(asset, price)` pairs priced for `plan_id`; empty when the
    /// plan is unknown or nothing is priced for it.
    fn get_subscription_plan_prices(&self, plan_id: &Vec<u8>) -> (r: Vec<(Vec<u8>, u128)>)
        ensures
            r@.len() == self.view_plan_prices(plan_id@).len(),
            forall|i: int|
                0 <= i < r@.len() ==> (#[trigger] r@[i]).0@ == self.view_plan_prices(plan_id@)[i].0
                    && r@[i].1 == self.view_plan_prices(plan_id@)[i].1,
    ;

    /// All entitlement rows of `user`; empty when the user never activated
    /// any plan.
    fn get_user_plans(&self, user: &Vec<u8>) -> (r: Vec<UserPlan>)
        ensures
            r@.len() == self.view_user_plans(user@).len(),
            forall|i: int|
                0 <= i < r@.len() ==> (#[trigger] r@[i])@ == self.view_user_plans(user@)[i],
    ;
}

impl ViewsModule for Subscriptions {
    open spec fn view_plans(&self) -> Seq<PlanModel> {
        self.plans@.map_values(|p: Plan| p@)
    }

    open spec fn view_plan_prices(&self, pid: Seq<u8>) -> Seq<(Seq<u8>, u128)> {
        plan_price_rows(self.prices@, pid)
    }

    open spec fn view_user_plans(&self, u: Seq<u8>) -> Seq<UserPlanModel> {
        user_plan_rows(self.user_plans@, u)
    }

    fn get_subscription_plans(&self) -> (r: Vec<Plan>) {
        let mut r: Vec<Plan> = Vec::new();
        let mut i: usize = 0;
        while i < self.plans.len()
            invariant
                i <= self.plans@.len(),
                r@.len() == i,
                forall|j: int| 0 <= j < i ==> (#[trigger] r@[j])@ == self.plans@[j]@,
            decreases self.plans@.len() - i,
        {
            r.push(self.plans[i].clone());
            i += 1;
        }
        r
    }

    fn get_subscription_plan_prices(&self, plan_id: &Vec<u8>) -> (r: Vec<(Vec<u8>, u128)>) {
        let mut r: Vec<(Vec<u8>, u128)> = Vec::new();
        let mut i: usize = 0;
        while i < self.prices.len()
            invariant
                i <= self.prices@.len(),
                r@.len() == plan_price_rows(self.prices@.take(i as int), plan_id@).len(),
                forall|j: int|
                    0 <= j < r@.len() ==> (#[trigger] r@[j]).0@ == plan_price_rows(
                        self.prices@.take(i as int),
                        plan_id@,
                    )[j].0 && r@[j].1 == plan_price_rows(self.prices@.take(i as int), plan_id@)[j].1,
            decreases self.prices@.len() - i,
        {
            proof {
                assert(self.prices@.take(i as int + 1).drop_last() =~= self.prices@.take(i as int));
                assert(self.prices@.take(i as int + 1).last() == self.prices@[i as int]);
            }
            if bytes_eq(&self.prices[i].plan_id, plan_id) {
                let pair = (clone_bytes(&self.prices[i].asset_id), self.prices[i].price);
                r.push(pair);
            }
            i += 1;
        }
        proof {
            assert(self.prices@.take(self.prices@.len() as int) =~= self.prices@);
        }
        r
    }

    fn get_user_plans(&self, user: &Vec<u8>) -> (r: Vec<UserPlan>) {
        let mut r: Vec<UserPlan> = Vec::new();
        let mut i: usize = 0;
        while i < self.user_plans.len()
            invariant
                i <= self.user_plans@.len(),
                r@.len() == user_plan_rows(self.user_plans@.take(i as int), user@).len(),
                forall|j: int|
                    0 <= j < r@.len() ==> (#[trigger] r@[j])@ == user_plan_rows(
                        self.user_plans@.take(i as int),
                        user@,
                    )[j],
            decreases self.user_plans@.len() - i,
        {
            proof {
                assert(self.user_plans@.take(i as int + 1).drop_last() =~= self.user_plans@.take(
                    i as int,
                ));
                assert(self.user_plans@.take(i as int + 1).last() == self.user_plans@[i as int]);
            }
            if bytes_eq(&self.user_plans[i].user, user) {
                r.push(self.user_plans[i].plan.clone());
            }
            i += 1;
        }
        proof {
            assert(self.user_plans@.take(self.user_plans@.len() as int) =~= self.user_plans@);
        }
        r
    }
}

} // verus!
