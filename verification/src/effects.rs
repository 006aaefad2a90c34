//! Values that describe the host-side effects an operation asks for.
//!
//! The library never moves funds or schedules calls itself: a mutating
//! operation returns the payments and requests the host must perform, as
//! plain data.

use vstd::prelude::*;

verus! {

/// What one unit of persistent storage costs in prepaid rent, in the
/// smallest native unit.
pub const STORAGE_PRICE_PER_BYTE: u128 = 10_000_000_000_000_000_000;

/// One transfer the host is asked to perform: pay `to` the given `amount`.
pub struct Payment {
    /// The receiving account.
    pub to: String,
    /// The amount, in the smallest native unit.
    pub amount: u128,
}

/// The mathematical value of a payment.
pub ghost struct PaymentView {
    /// The receiving account.
    pub to: Seq<char>,
    /// The amount.
    pub amount: u128,
}

impl View for Payment {
    type V = PaymentView;

    open spec fn view(&self) -> PaymentView {
        PaymentView { to: self.to@, amount: self.amount }
    }
}

/// The account-and-amount pairs a list of payments pays.
pub open spec fn payments_entries(ps: Seq<Payment>) -> Seq<(Seq<char>, u128)> {
    Seq::new(ps.len(), |i: int| (ps[i].to@, ps[i].amount))
}

} // verus!
