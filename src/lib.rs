//! A tally of vote weight per candidate, kept in ranking order, and the
//! decisions of a gateway that forwards requests to a ledger contract.

pub mod ranking;
pub mod gateway;
