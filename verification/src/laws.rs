//! What holds of the contract as a whole.
pub mod accrual;
pub mod actions;
pub mod admin;
pub mod admin_calls;
pub mod amounts;
pub mod calls;
pub mod claims;
pub mod closing;
pub mod entries;
pub mod escrow_calls;
pub mod escrows;
pub mod history;
pub mod layout;
pub mod lifetimes;
pub mod money;
pub mod payments;
pub mod payouts;
pub mod receipts;
pub mod solvency;
pub mod stream_calls;
pub mod streams;
pub mod tips;
