//! Subscriptions as the Azure subscription client lists them.
use vstd::prelude::*;

verus! {

/// All subscriptions that were listed.
#[derive(Debug, PartialEq)]
pub struct Subscriptions(pub Vec<Subscription>);

/// The state of a subscription.
#[derive(Debug, Clone, Copy, PartialEq, Eq, Structural)]
pub enum SubscriptionState {
    Enabled,
    Warned,
    PastDue,
    Disabled,
    Deleted,
}

/// One subscription: what the inventory reads of the Azure record.
#[derive(Debug, PartialEq)]
pub struct Subscription {
    pub subscription_id: String,
    pub display_name: String,
    pub state: SubscriptionState,
}

impl Subscription {
    /// A subscription with the given id, display name and state.
    pub fn new(subscription_id: String, display_name: String, state: SubscriptionState) -> (r: Subscription)
        ensures
            r.subscription_id == subscription_id,
            r.display_name == display_name,
            r.state == state,
    {
        Subscription { subscription_id, display_name, state }
    }
}

impl Subscriptions {
    /// The number of subscriptions.
    pub fn len(&self) -> (r: usize)
        ensures
            r == self.0.len(),
    {
        self.0.len()
    }
}

} // verus!
