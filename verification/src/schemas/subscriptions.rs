//! Records of the subscriptions table.

use vstd::prelude::*;

verus! {

/// A name and value attached to a subscription product.
#[derive(Debug)]
pub struct SubscriptionProductTag {
    pub tag_name: Option<String>,
    pub tag_value: Option<String>,
}

} // verus!
