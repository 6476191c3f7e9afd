//! Records of the engagement and catalogue tables.

use std::collections::HashMap;
use vstd::prelude::*;

verus! {

/// A localized text of a catalogue entry.
#[derive(Debug)]
pub struct LocalizedItem {
    pub event_timestamp: Option<String>,
    pub id: Option<i64>,
    pub locale_code: Option<String>,
    pub name: Option<String>,
    pub value: Option<String>,
}

/// Genre names by locale.
#[derive(Debug)]
pub struct GenresStruct {
    pub en: Option<Vec<String>>,
}

/// Keywords by locale.
#[derive(Debug)]
pub struct KeywordsStruct {
    pub en: Option<Vec<String>>,
}

/// When and where a subtitle track may be watched.
#[derive(Debug)]
pub struct SubtitleWindow {
    pub geo: Option<Vec<String>>,
    pub locale: Option<String>,
    pub watch_end: Option<String>,
    pub watch_start: Option<String>,
}

/// Attributes of a container beyond its core fields.
#[derive(Debug)]
pub struct ContainerAdditionalAttributes {
    pub audio_locale: Option<String>,
    pub available_offline: Option<bool>,
    pub bg_color: Option<String>,
    pub closed_captions_available: Option<bool>,
    pub content_provider: Option<String>,
    pub editorial_rating: Option<i64>,
    pub episode: Option<String>,
    pub episode_air_date: Option<String>,
    pub episode_production_id: Option<String>,
    pub genres: Option<GenresStruct>,
    pub is_auto_ingest: Option<bool>,
    pub is_dubbed: Option<bool>,
    pub is_master: Option<bool>,
    pub is_movie_auto_publish: Option<bool>,
    pub is_simulcast: Option<bool>,
    pub is_subbed: Option<bool>,
    pub keywords: Option<KeywordsStruct>,
    pub linked_guid: Option<String>,
    pub movie_release_year: Option<i64>,
    pub original_audio_locale: Option<String>,
    pub qc_failure_reason: Option<Vec<String>>,
    pub qc_notes: Option<String>,
    pub season_display_number: Option<String>,
    pub season_identifier: Option<String>,
    pub season_sequence_number: Option<i64>,
    pub season_tags: Option<HashMap<String, Vec<String>>>,
    pub seo_description: Option<String>,
    pub seo_title: Option<String>,
    pub sequence_number: Option<i64>,
    pub series_launch_year: Option<i64>,
    pub subscriptions: Option<String>,
    pub subtitle_window: Option<Vec<SubtitleWindow>>,
    pub title: Option<String>,
}

/// When and where a container may be listed and watched.
#[derive(Debug)]
pub struct ContainerRestrictionWindow {
    pub audio_locale: Option<String>,
    pub geo: Option<Vec<String>>,
    pub level: Option<Vec<String>>,
    pub list_end: Option<String>,
    pub list_start: Option<String>,
    pub watch_end: Option<String>,
    pub watch_start: Option<String>,
}

/// When and where a container's subtitle track may be watched.
#[derive(Debug)]
pub struct ContainerSubtitleWindow {
    pub event_timestamp: Option<String>,
    pub id: Option<i64>,
    pub locale: Option<String>,
    pub watch_start: Option<String>,
    pub watch_end: Option<String>,
    pub geo_str: Option<Vec<String>>,
}

} // verus!
