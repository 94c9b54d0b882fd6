//! Records of the catalog and of user entitlements.

use vstd::prelude::*;

use crate::bytes::clone_bytes;

verus! {

/// Whether a catalog plan currently accepts payments.
#[derive(Clone, Copy, Debug, PartialEq, Eq, Structural)]
pub enum PlanStatus {
    Enabled,
    Disabled,
}

/// A subscription product in the catalog.
///
/// `allows_refund` and `refund_period` are reserved fields: they are stored
/// and reported but no operation of the engine ever acts on them.
#[derive(Debug)]
pub struct Plan {
    /// Opaque unique key of the plan.
    pub id: Vec<u8>,
    /// Whether the plan currently accepts payments.
    pub status: PlanStatus,
    /// Entitlement duration bought by one payment, in seconds.
    pub validity: u64,
    /// Reserved; never read.
    pub allows_refund: bool,
    /// Reserved; never read.
    pub refund_period: u64,
}

/// The mathematical value of a [`Plan`].
#[verifier::ext_equal]
pub ghost struct PlanModel {
    pub id: Seq<u8>,
    pub status: PlanStatus,
    pub validity: u64,
    pub allows_refund: bool,
    pub refund_period: u64,
}

impl View for Plan {
    type V = PlanModel;

    open spec fn view(&self) -> PlanModel {
        PlanModel {
            id: self.id@,
            status: self.status,
            validity: self.validity,
            allows_refund: self.allows_refund,
            refund_period: self.refund_period,
        }
    }
}

impl Clone for Plan {
    fn clone(&self) -> (r: Self)
        ensures
            r@ == self@,
    {
        Plan {
            id: clone_bytes(&self.id),
            status: self.status,
            validity: self.validity,
            allows_refund: self.allows_refund,
            refund_period: self.refund_period,
        }
    }
}

/// A user's entitlement window for one plan.
///
/// Created on the first successful payment for that plan by that user and
/// never deleted afterwards: a lapsed record stays in storage as history.
#[derive(Debug)]
pub struct UserPlan {
    /// The plan this entitlement belongs to.
    pub plan_id: Vec<u8>,
    /// The instant the entitlement runs out.
    pub expires_at: u64,
    /// The time of the first payment; immutable afterwards.
    pub first_subscribed: u64,
    /// The time of the most recent payment.
    pub last_subscribed: u64,
}

/// The mathematical value of a [`UserPlan`].
#[verifier::ext_equal]
pub ghost struct UserPlanModel {
    pub plan_id: Seq<u8>,
    pub expires_at: u64,
    pub first_subscribed: u64,
    pub last_subscribed: u64,
}

impl View for UserPlan {
    type V = UserPlanModel;

    open spec fn view(&self) -> UserPlanModel {
        UserPlanModel {
            plan_id: self.plan_id@,
            expires_at: self.expires_at,
            first_subscribed: self.first_subscribed,
            last_subscribed: self.last_subscribed,
        }
    }
}

impl Clone for UserPlan {
    fn clone(&self) -> (r: Self)
        ensures
            r@ == self@,
    {
        UserPlan {
            plan_id: clone_bytes(&self.plan_id),
            expires_at: self.expires_at,
            first_subscribed: self.first_subscribed,
            last_subscribed: self.last_subscribed,
        }
    }
}

/// An outbound transfer instruction, handed to the host to execute.
#[derive(Debug)]
pub struct Transfer {
    /// The account the amount goes to.
    pub to: Vec<u8>,
    /// The asset transferred.
    pub asset: Vec<u8>,
    /// The amount transferred.
    pub amount: u128,
}

/// The mathematical value of a [`Transfer`].
#[verifier::ext_equal]
pub ghost struct TransferModel {
    pub to: Seq<u8>,
    pub asset: Seq<u8>,
    pub amount: u128,
}

impl View for Transfer {
    type V = TransferModel;

    open spec fn view(&self) -> TransferModel {
        TransferModel { to: self.to@, asset: self.asset@, amount: self.amount }
    }
}

} // verus!
