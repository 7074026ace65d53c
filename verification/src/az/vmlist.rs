//! The virtual machines of a subscription.
use vstd::prelude::*;

use crate::text::{trim_by, trim_matches, CharClass};

verus! {

/// All virtual machines that were listed.
#[derive(Debug)]
pub struct VirtualMachines(pub Vec<VM>);

/// One virtual machine: what the inventory reads of the Azure record.
#[derive(Debug)]
pub struct VM {
    pub id: String,
    /// The resource id again.
    pub vm_id: String,
    pub name: String,
    pub location: String,
    pub zones: Option<Vec<String>>,
    /// Added from the flex group table.
    pub flex_lookup: Option<FlexLookUp>,
    pub vm_size: String,
}

/// The flex group of a virtual machine and the base sizes of that group.
#[derive(Debug, Clone)]
pub struct FlexLookUp {
    pub flex_group: String,
    pub flex_sku_name: String,
    pub flex_ratio: String,
    pub flex_options: Vec<String>,
}

impl View for FlexLookUp {
    type V = (Seq<char>, Seq<char>, Seq<char>, Seq<Seq<char>>);

    open spec fn view(&self) -> Self::V {
        (self.flex_group@, self.flex_sku_name@, self.flex_ratio@, self.flex_options.deep_view())
    }
}

/// The size name that a JSON string literal spells: without its quotes.
pub open spec fn size_from_json(json: Seq<char>) -> Seq<char> {
    trim_by(json, CharClass::Exactly('"'))
}

impl VM {
    /// A virtual machine from the fields of its Azure record: the resource id
    /// (kept twice), the name, the location, the zones and the size
    /// serialized as JSON, whose quotes are taken off.
    pub fn new(id: String, name: String, location: String, zones: Vec<String>, vm_size_json: String) -> (r: VM)
        ensures
            r.id == id,
            r.vm_id@ == id@,
            r.name == name,
            r.location == location,
            r.zones == Some(zones),
            r.flex_lookup is None,
            r.vm_size@ == size_from_json(vm_size_json@),
    {
        let vm_size = trim_matches(vm_size_json.as_str(), '"').to_owned();
        let vm_id = id.clone();
        VM { id, vm_id, name, location, zones: Some(zones), flex_lookup: None, vm_size }
    }
}

} // verus!
