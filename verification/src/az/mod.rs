//! Data about the Azure tenant: subscriptions, virtual machines and prices.
pub mod identity;
pub mod pricing;
pub mod subscriptions;
pub mod vmlist;
