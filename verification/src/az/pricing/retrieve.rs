//! One record of the Azure retail price list, as far as its text is concerned.
use vstd::prelude::*;

verus! {

/// The text fields of one retail price record. The amounts of a record are
/// kept beside it by the caller: this type carries what the price rules read.
#[derive(Clone, Debug, PartialEq, Eq, Default)]
pub struct PriceOption {
    pub arm_region_name: String,
    pub arm_sku_name: String,
    pub currency_code: String,
    pub location: String,
    pub product_name: String,
    pub sku_name: String,
    pub meter_name: String,
    /// Only set for `Reservation` records.
    pub reservation_term: Option<String>,
    /// `Consumption`, `DevTestConsumption` or `Reservation`.
    pub type_bill: String,
    pub unit_of_measure: String,
    pub service_name: String,
}

} // verus!
