//! Records of the accounts table.

use std::collections::HashMap;
use vstd::prelude::*;

verus! {

/// A viewer profile of an account.
#[derive(Debug)]
pub struct AccountProfile {
    pub profile_id: Option<String>,
    pub profile_name: Option<String>,
    pub maturity_rating: Option<String>,
    pub extended_maturity_rating: Option<String>,
    pub deleted: Option<i32>,
    pub avatar: Option<String>,
    pub profile_type: Option<String>,
    pub custom_fields: Option<HashMap<String, String>>,
    pub created: Option<String>,
    pub event_timestamp: Option<String>,
}

/// An external identity linked to an account.
#[derive(Debug)]
pub struct IdentityProvider {
    pub identity_provider: Option<String>,
    pub identity_provider_user_id: Option<String>,
    pub region: Option<String>,
}

/// A row of the accounts table.
#[derive(Debug)]
pub struct AccountRecord {
    pub account_id: Option<String>,
    pub account_tenant: Option<String>,
    pub account_snapshot_ts: Option<String>,
    pub account_profiles: Option<AccountProfile>,
    pub account_profile_id: Option<String>,
    pub account_profile_name: Option<String>,
    pub account_profile_maturity_rating: Option<String>,
    pub account_profile_extended_maturity_rating: Option<HashMap<String, String>>,
    pub account_profile_deleted: Option<bool>,
    pub account_profile_avatar: Option<String>,
    pub account_profile_type: Option<String>,
    pub account_profile_cf_age_consent: Option<bool>,
    pub account_profile_cf_autoplay: Option<bool>,
    pub account_profile_cf_country: Option<String>,
    pub account_profile_cf_cr_beta_opt_in: Option<bool>,
    pub account_profile_cf_crleg_email_verified: Option<bool>,
    pub account_profile_cf_do_not_sell: Option<bool>,
    pub account_profile_cf_exclude_from_reporting: Option<bool>,
    pub account_profile_cf_extended_maturity_rating: Option<HashMap<String, String>>,
    pub account_profile_cf_mature_content_flag_manga: Option<bool>,
    pub account_profile_cf_performance_test_user: Option<bool>,
    pub account_profile_cf_preferred_app_language: Option<String>,
    pub account_profile_cf_preferred_communication_language: Option<String>,
    pub account_profile_cf_preferred_content_audio_language: Option<String>,
    pub account_profile_cf_preferred_content_subtitle_language: Option<String>,
    pub account_profile_cf_preferred_default_video_quality: Option<String>,
    pub account_profile_cf_public_profile_enabled: Option<bool>,
    pub account_profile_cf_qa_user: Option<bool>,
    pub account_profile_cf_redacted: Option<bool>,
    pub account_profile_cf_sound: Option<bool>,
    pub account_profile_cf_wallpaper: Option<String>,
    pub account_credentials_email: Option<String>,
    pub account_credentials_phone: Option<String>,
    pub account_credentials_username: Option<String>,
    pub account_credentials_password: Option<String>,
    pub account_identities_no_new_sessions_allowed: Option<bool>,
    pub account_identities_email_verified: Option<bool>,
    pub account_identities_force_password_reset: Option<bool>,
    pub account_identities_status: Option<String>,
    pub account_identities_disabled: Option<bool>,
    pub account_identities_contact_cs: Option<bool>,
    pub account_identity_providers: Option<Vec<IdentityProvider>>,
    pub account_amazon_identity_provider_user_id: Option<String>,
    pub account_amazon_identity_provider_region: Option<String>,
    pub account_subscriptions_subscription_id: Option<i64>,
    pub account_subscriptions_country_code: Option<String>,
    pub account_created_ts: Option<String>,
    pub account_updated_ts: Option<String>,
    pub account_profile_created_ts: Option<String>,
    pub account_profile_updated_ts: Option<String>,
    pub account_login_history_country_code: Option<String>,
    pub account_country_code: Option<String>,
    pub account_tenure_days: Option<i32>,
    pub account_external_id: Option<i64>,
    pub account_profile_is_test: Option<bool>,
    pub account_first_country_code: Option<String>,
    pub account_is_test: Option<bool>,
    pub region_country_name: Option<String>,
    pub region_major: Option<String>,
    pub region_minor: Option<String>,
    pub region_portal: Option<String>,
    pub account_funimation_venue_id: Option<i32>,
    pub account_funimation_migration_ts: Option<String>,
    pub account_wakanim_id: Option<String>,
    pub account_wakanim_migration_ts: Option<String>,
    pub account_vrv_id: Option<i64>,
    pub account_vrv_migration_ts: Option<String>,
}

} // verus!
