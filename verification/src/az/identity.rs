//! Subscriptions as the Azure management REST interface lists them.
use vstd::prelude::*;

verus! {

#[verifier::external_type_specification]
#[verifier::external_body]
pub struct ExJsonValue(serde_json::Value);

/// A page of subscriptions with the count that the service gives for it.
#[derive(Debug, PartialEq)]
pub struct Subscriptions {
    pub value: Vec<Subscription>,
    pub count: Count,
}

/// The count of a list: its kind (such as `Total`) and its value.
#[derive(Debug, PartialEq, Eq)]
pub struct Count {
    count_type: String,
    pub value: usize,
}

/// One subscription.
#[derive(Debug, PartialEq)]
pub struct Subscription {
    pub id: String,
    pub authorization_source: String,
    pub managed_by_tenants: Vec<Option<serde_json::Value>>,
    pub subscription_id: String,
    pub tenant_id: String,
    pub display_name: String,
    pub state: String,
    pub subscription_policies: SubscriptionPolicies,
}

#[derive(Debug, PartialEq, Eq)]
pub struct SubscriptionPolicies {
    pub location_placement_id: String,
    pub quota_id: String,
    pub spending_limit: String,
}

impl Count {
    /// A count of the given kind and value.
    pub fn new(count_type: String, value: usize) -> (r: Count)
        ensures
            r.count_type() == count_type,
            r.count_value() == value,
    {
        Count { count_type, value }
    }

    pub closed spec fn count_type(&self) -> String {
        self.count_type
    }

    pub closed spec fn count_value(&self) -> usize {
        self.value
    }
}

impl Subscriptions {
    /// The number of subscriptions, which must be the count the service gave.
    pub fn len(&self) -> (r: usize)
        requires
            self.value.len() == self.count.count_value(),
        ensures
            r == self.value.len(),
            r == self.count.count_value(),
    {
        self.value.len()
    }
}

} // verus!
