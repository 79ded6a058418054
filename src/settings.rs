//! Sync configuration as it is kept in the key-value settings: each value is
//! stored as text (JSON for strings and flags, decimal for the watermark).
use vstd::prelude::*;

use crate::model::opt_view;
use crate::remote::{i64_parse, parse_i64};
use crate::sync::SyncConfig;

verus! {

/// What `serde_json::from_str::<String>` gives for these chars.
pub uninterp spec fn json_string_value(s: Seq<char>) -> Option<Seq<char>>;

/// What `serde_json::from_str::<bool>` gives for these chars.
pub uninterp spec fn json_bool_value(s: Seq<char>) -> Option<bool>;

/// What `serde_json::to_string` writes for a string with these chars.
pub uninterp spec fn json_string_text(s: Seq<char>) -> Seq<char>;

/// What `i64::to_string` writes for this number.
pub uninterp spec fn decimal_text(v: i64) -> Seq<char>;

/// Relies on serde_json::from_str::<String>: reads a JSON string.
#[verifier::external_body]
fn decode_json_string(s: &str) -> (r: Option<String>)
    ensures
        opt_view(r) == json_string_value(s@),
{
    serde_json::from_str::<String>(s).ok()
}

/// Relies on serde_json::from_str::<bool>: reads a JSON boolean.
#[verifier::external_body]
fn decode_json_bool(s: &str) -> (r: Option<bool>)
    ensures
        r == json_bool_value(s@),
{
    serde_json::from_str::<bool>(s).ok()
}

/// Relies on serde_json::to_string for a string (which cannot fail for one).
#[verifier::external_body]
fn encode_json_string(s: &str) -> (r: String)
    ensures
        r@ == json_string_text(s@),
{
    match serde_json::to_string(s) {
        Ok(t) => t,
        Err(_) => String::new(),
    }
}

/// Relies on serde_json::to_string for a boolean: `true` or `false`.
#[verifier::external_body]
fn encode_json_bool(b: bool) -> (r: String)
    ensures
        r@ == (if b {
            "true"@
        } else {
            "false"@
        }),
{
    match serde_json::to_string(&b) {
        Ok(t) => t,
        Err(_) => String::new(),
    }
}

/// Relies on i64's to_string: the number in decimal.
#[verifier::external_body]
fn decimal(v: i64) -> (r: String)
    ensures
        r@ == decimal_text(v),
{
    v.to_string()
}

/// The JSON string in `raw`, if it holds one.
pub open spec fn decoded_string(raw: Option<String>) -> Option<Seq<char>> {
    match raw {
        Some(s) => json_string_value(s@),
        None => None,
    }
}

/// The sync configuration read from the stored setting texts (`None` where
/// a setting is missing). An unreadable or missing server URL falls back to
/// `default_url`, a missing credential is empty, a missing watermark is zero
/// and auto-sync is off unless stored as on.
pub fn sync_config_from_settings(
    server_url: Option<String>,
    api_key: Option<String>,
    last_sync_time: Option<String>,
    auto_sync: Option<String>,
    default_url: String,
) -> (r: SyncConfig)
    ensures
        r.server_url@ == match decoded_string(server_url) {
            Some(u) => u,
            None => default_url@,
        },
        r.api_key@ == match decoded_string(api_key) {
            Some(k) => k,
            None => Seq::<char>::empty(),
        },
        r.last_sync_time == match last_sync_time {
            Some(t) => match i64_parse(t@) {
                Some(v) => v,
                None => 0,
            },
            None => 0,
        },
        r.auto_sync == match auto_sync {
            Some(a) => match json_bool_value(a@) {
                Some(b) => b,
                None => false,
            },
            None => false,
        },
{
    let url = match &server_url {
        Some(s) => match decode_json_string(s.as_str()) {
            Some(u) => u,
            None => default_url,
        },
        None => default_url,
    };
    let key = match &api_key {
        Some(s) => match decode_json_string(s.as_str()) {
            Some(k) => k,
            None => String::new(),
        },
        None => String::new(),
    };
    let last = match &last_sync_time {
        Some(t) => match parse_i64(t.as_str()) {
            Some(v) => v,
            None => 0,
        },
        None => 0,
    };
    let auto = match &auto_sync {
        Some(a) => match decode_json_bool(a.as_str()) {
            Some(b) => b,
            None => false,
        },
        None => false,
    };
    SyncConfig { server_url: url, api_key: key, last_sync_time: last, auto_sync: auto }
}

/// The (key, text) settings that saving `config` writes: the server URL and
/// the credential only when not empty, the watermark only when positive,
/// and the auto-sync flag always, in that order.
pub open spec fn settings_spec(config: SyncConfig) -> Seq<(Seq<char>, Seq<char>)> {
    let a = if config.server_url@.len() > 0 {
        seq![("serverUrl"@, json_string_text(config.server_url@))]
    } else {
        Seq::empty()
    };
    let b = if config.api_key@.len() > 0 {
        seq![("apiKey"@, json_string_text(config.api_key@))]
    } else {
        Seq::empty()
    };
    let c = if config.last_sync_time > 0 {
        seq![("lastSyncTime"@, decimal_text(config.last_sync_time))]
    } else {
        Seq::empty()
    };
    let d = seq![
        ("autoSync"@, if config.auto_sync {
            "true"@
        } else {
            "false"@
        }),
    ];
    a + b + c + d
}

/// The settings to write when saving a sync configuration.
pub fn sync_settings_to_write(config: &SyncConfig) -> (r: Vec<(String, String)>)
    ensures
        r@.map_values(|e: (String, String)| (e.0@, e.1@)) == settings_spec(*config),
{
    let mut out: Vec<(String, String)> = Vec::new();
    if config.server_url.as_str().unicode_len() > 0 {
        out.push(("serverUrl".to_owned(), encode_json_string(config.server_url.as_str())));
    }
    if config.api_key.as_str().unicode_len() > 0 {
        out.push(("apiKey".to_owned(), encode_json_string(config.api_key.as_str())));
    }
    if config.last_sync_time > 0 {
        out.push(("lastSyncTime".to_owned(), decimal(config.last_sync_time)));
    }
    out.push(("autoSync".to_owned(), encode_json_bool(config.auto_sync)));
    assert(out@.map_values(|e: (String, String)| (e.0@, e.1@)) =~= settings_spec(*config));
    out
}

} // verus!
