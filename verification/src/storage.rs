//! Read access to the engine's stored flags and sets.
//!
//! A few cells of the durable state answer queries directly, without any
//! shaping; this trait is that surface, and [`Subscriptions`] implements
//! it over its own state.

use vstd::prelude::*;

use crate::bytes::clone_bytes;
use crate::structs::Plan;
use crate::subscriptions::Subscriptions;

verus! {

/// The queries the stored state answers directly.
pub trait StorageModule: Sized {
    /// The global enabled flag.
    spec fn view_enabled(&self) -> bool;

    /// The ids of every catalog plan, in catalog order.
    spec fn view_plan_ids(&self) -> Seq<Seq<u8>>;

    /// Every user that ever activated a plan, in registration order.
    spec fn view_users(&self) -> Seq<Seq<u8>>;

    /// Every asset id ever used for a payment, in first-use order.
    spec fn view_payment_assets(&self) -> Seq<Seq<u8>>;

    /// Whether the engine currently accepts payments.
    fn is_enabled(&self) -> (r: bool)
        ensures
            r == self.view_enabled(),
    ;

    /// The ids of every catalog plan.
    fn get_plan_ids(&self) -> (r: Vec<Vec<u8>>)
        ensures
            r@.len() == self.view_plan_ids().len(),
            forall|i: int| 0 <= i < r@.len() ==> (#[trigger] r@[i])@ == self.view_plan_ids()[i],
    ;

    /// Every user that ever activated a plan.
    fn get_users(&self) -> (r: Vec<Vec<u8>>)
        ensures
            r@.len() == self.view_users().len(),
            forall|i: int| 0 <= i < r@.len() ==> (#[trigger] r@[i])@ == self.view_users()[i],
    ;

    /// Every asset id ever used for a payment.
    fn get_payment_token_ids(&self) -> (r: Vec<Vec<u8>>)
        ensures
            r@.len() == self.view_payment_assets().len(),
            forall|i: int|
                0 <= i < r@.len() ==> (#[trigger] r@[i])@ == self.view_payment_assets()[i],
    ;
}

impl StorageModule for Subscriptions {
    open spec fn view_enabled(&self) -> bool {
        self.enabled
    }

    open spec fn view_plan_ids(&self) -> Seq<Seq<u8>> {
        self.plans@.map_values(|p: Plan| p.id@)
    }

    open spec fn view_users(&self) -> Seq<Seq<u8>> {
        self.users@.map_values(|u: Vec<u8>| u@)
    }

    open spec fn view_payment_assets(&self) -> Seq<Seq<u8>> {
        self.ledger.totals@.map_values(|e: crate::ledger::AssetTotal| e.asset@)
    }

    fn is_enabled(&self) -> (r: bool) {
        self.enabled
    }

    fn get_plan_ids(&self) -> (r: Vec<Vec<u8>>) {
        let mut r: Vec<Vec<u8>> = Vec::new();
        let mut i: usize = 0;
        while i < self.plans.len()
            invariant
                i <= self.plans@.len(),
                r@.len() == i,
                forall|j: int| 0 <= j < i ==> (#[trigger] r@[j])@ == self.plans@[j].id@,
            decreases self.plans@.len() - i,
        {
            r.push(clone_bytes(&self.plans[i].id));
            i += 1;
        }
        r
    }

    fn get_users(&self) -> (r: Vec<Vec<u8>>) {
        let mut r: Vec<Vec<u8>> = Vec::new();
        let mut i: usize = 0;
        while i < self.users.len()
            invariant
                i <= self.users@.len(),
                r@.len() == i,
                forall|j: int| 0 <= j < i ==> (#[trigger] r@[j])@ == self.users@[j]@,
            decreases self.users@.len() - i,
        {
            r.push(clone_bytes(&self.users[i]));
            i += 1;
        }
        r
    }

    fn get_payment_token_ids(&self) -> (r: Vec<Vec<u8>>) {
        let mut r: Vec<Vec<u8>> = Vec::new();
        let mut i: usize = 0;
        while i < self.ledger.totals.len()
            invariant
                i <= self.ledger.totals@.len(),
                r@.len() == i,
                forall|j: int| 0 <= j < i ==> (#[trigger] r@[j])@ == self.ledger.totals@[j].asset@,
            decreases self.ledger.totals@.len() - i,
        {
            r.push(clone_bytes(&self.ledger.totals[i].asset));
            i += 1;
        }
        r
    }
}

} // verus!
