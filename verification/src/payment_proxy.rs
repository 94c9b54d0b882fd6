//! The stateless payment forwarder.
//!
//! Accepts a transfer of any asset and hands back the instruction that
//! forwards it, in full, to the owner configured at deployment.

use vstd::prelude::*;

use crate::bytes::{clone_bytes, egld_id, egld_token_id};
use crate::structs::{Transfer, TransferModel};

verus! {

/// A forwarder bound to one owner address.
pub struct PaymentProxy {
    /// Where every received payment is sent.
    pub owner: Vec<u8>,
}

impl PaymentProxy {
    /// A proxy forwarding everything to `owner`.
    pub fn init(owner: Vec<u8>) -> (r: PaymentProxy)
        ensures
            r.owner == owner,
    {
        PaymentProxy { owner }
    }

    /// The instruction forwarding one received payment to the owner.
    pub fn forward_payment(&self, asset: &Vec<u8>, amount: u128) -> (t: Transfer)
        ensures
            t@ == (TransferModel { to: self.owner@, asset: asset@, amount }),
    {
        Transfer { to: clone_bytes(&self.owner), asset: clone_bytes(asset), amount }
    }

    /// A received payment in the native asset.
    pub fn pay_with_egld(&self, amount: u128) -> (t: Transfer)
        ensures
            t@ == (TransferModel { to: self.owner@, asset: egld_id(), amount }),
    {
        let egld = egld_token_id();
        self.forward_payment(&egld, amount)
    }

    /// A received payment in any other asset.
    pub fn pay_with_esdt(&self, asset: &Vec<u8>, amount: u128) -> (t: Transfer)
        ensures
            t@ == (TransferModel { to: self.owner@, asset: asset@, amount }),
    {
        self.forward_payment(asset, amount)
    }
}

} // verus!
