//! Records of the warehouse tables.

pub mod account;
pub mod subscriptions;

use std::collections::HashMap;
use vstd::prelude::*;

verus! {

/// A localized text of a container.
#[derive(Debug)]
pub struct ContainerLocalizedItem {
    pub event_timestamp: Option<String>,
    pub id: Option<i64>,
    pub locale_code: Option<String>,
    pub name: Option<String>,
    pub value: Option<String>,
}

/// A localized text of a catalogue entry.
#[derive(Debug)]
pub struct CatalogLocalizedItem {
    pub event_timestamp: Option<String>,
    pub id: Option<i64>,
    pub locale_code: Option<String>,
    pub name: Option<String>,
    pub value: Option<String>,
}

/// A row of the accounts table.
#[derive(Debug)]
pub struct AccountRecord {
    pub account_id: Option<String>,
    pub account_snapshot_ts: Option<String>,
    pub account_profiles: Option<AccountProfile>,
    pub account_profile_id: Option<String>,
    pub account_profile_maturity_rating: Option<String>,
    pub account_profile_cf_preferred_app_language: Option<String>,
    pub account_profile_cf_preferred_content_audio_language: Option<String>,
    pub account_profile_cf_preferred_content_subtitle_language: Option<String>,
    pub account_created_ts: Option<String>,
    pub account_country_code: Option<String>,
    pub account_tenure_days: Option<i32>,
    pub account_external_id: Option<i64>,
    pub region_country_name: Option<String>,
    pub region_major: Option<String>,
    pub region_minor: Option<String>,
}

/// A viewer profile of an account.
#[derive(Debug)]
pub struct AccountProfile {
    pub profile_id: Option<String>,
    pub profile_name: Option<String>,
    pub maturity_rating: Option<String>,
    pub extended_maturity_rating: Option<String>,
    pub deleted: Option<i32>,
    pub avatar: Option<String>,
    pub profile_type: Option<String>,
    pub custom_fields: Option<HashMap<String, String>>,
    pub created: Option<String>,
    pub event_timestamp: Option<String>,
}

} // verus!
