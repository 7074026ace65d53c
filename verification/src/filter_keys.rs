//! The keys that are kept of an Azure virtual machine listing.
use vstd::prelude::*;

verus! {

/// The flex group of a virtual machine, as a CSV lookup gives it, with the
/// base sizes of the group as one text.
#[derive(Debug, Clone, PartialEq, Eq)]
pub struct FlexLookUp {
    pub flex_group: String,
    pub flex_sku_name: String,
    pub flex_ratio: String,
    pub flex_options: String,
}

} // verus!
