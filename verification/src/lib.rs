//! A subscription billing and entitlement ledger.
//!
//! The crate keeps a catalog of subscription plans priced in multiple asset
//! types, verifies incoming payments against that catalog, extends a
//! per-user entitlement window under a time-based stacking/reset rule, and
//! accumulates append-only payment totals per asset and per user.  Two
//! sibling components are built from the same primitives: a donation ledger
//! (set membership plus accumulation, no expiry logic) and a stateless
//! payment forwarder.
//!
//! The host that drives the engine is modelled by plain values: the caller's
//! identity verdict, the current timestamp, and the received transfer all
//! arrive as arguments, and each outbound transfer is returned as a
//! [`structs::Transfer`] instruction for the host to execute.  Every
//! operation is total over its stated preconditions and mutates nothing when
//! it fails.

pub mod bytes;
pub mod donations;
pub mod errors;
pub mod ledger;
pub mod payment_proxy;
pub mod storage;
pub mod structs;
pub mod subscriptions;
pub mod table;
pub mod views;
