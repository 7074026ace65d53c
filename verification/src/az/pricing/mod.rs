//! Retail price records of the Azure price list.
pub mod retrieve;
