//! The remote API's side of the sync protocol that is not transport: the
//! path a pull asks for, and the version headers the server answers with.
use vstd::prelude::*;

use crate::model::opt_view;
use crate::text::push_str;

verus! {

/// The datastore layout this client speaks.
pub const DATASTORE_VERSION: i64 = 1;

/// The sync protocol this client speaks.
pub const PROTOCOL_VERSION: i64 = 1;

/// What chrono writes for the UTC time `ms` milliseconds after the epoch,
/// in the layout `%Y-%m-%dT%H:%M:%S%.3fZ`; `None` when chrono cannot
/// represent that time.
pub uninterp spec fn iso_text(ms: i64) -> Option<Seq<char>>;

/// What `str::parse::<i64>` gives for these chars.
pub uninterp spec fn i64_parse(s: Seq<char>) -> Option<i64>;

/// Relies on chrono's DateTime::from_timestamp_millis and format.
#[verifier::external_body]
fn format_iso_millis(ms: i64) -> (r: Option<String>)
    ensures
        opt_view(r) == iso_text(ms),
{
    match chrono::DateTime::from_timestamp_millis(ms) {
        Some(dt) => Some(dt.format("%Y-%m-%dT%H:%M:%S%.3fZ").to_string()),
        None => None,
    }
}

/// Relies on str::parse::<i64>.
#[verifier::external_body]
pub(crate) fn parse_i64(s: &str) -> (r: Option<i64>)
    ensures
        r == i64_parse(s@),
{
    s.parse::<i64>().ok()
}

/// The ISO 8601 text of a time; the epoch's text when the time cannot be
/// represented.
pub open spec fn iso_string_spec(ms: i64) -> Seq<char> {
    match iso_text(ms) {
        Some(t) => t,
        None => "1970-01-01T00:00:00.000Z"@,
    }
}

/// Writes a time, in milliseconds since the epoch, as ISO 8601 UTC with
/// milliseconds.
pub fn to_iso_string(unix_ms: i64) -> (r: String)
    ensures
        r@ == iso_string_spec(unix_ms),
{
    match format_iso_millis(unix_ms) {
        Some(t) => t,
        None => "1970-01-01T00:00:00.000Z".to_owned(),
    }
}

/// The path a pull asks for: the items changed since a positive watermark,
/// or all items.
pub open spec fn pull_path_spec(since: Option<i64>) -> Seq<char> {
    match since {
        Some(t) => if t > 0 {
            "/items/since/"@ + iso_string_spec(t)
        } else {
            "/items"@
        },
        None => "/items"@,
    }
}

/// The path of the pull request.
pub fn pull_path(since: Option<i64>) -> (r: String)
    ensures
        r@ == pull_path_spec(since),
{
    match since {
        Some(t) => {
            if t > 0 {
                let mut path = "/items/since/".to_owned();
                let iso = to_iso_string(t);
                push_str(&mut path, iso.as_str());
                return path;
            }
        },
        None => {},
    }
    "/items".to_owned()
}

/// A server that speaks another version than this client.
#[derive(Debug, Clone, Copy, PartialEq, Eq, Structural)]
pub enum VersionMismatch {
    Datastore { server: i64 },
    Protocol { server: i64 },
}

pub open spec fn versions_post(
    datastore: Option<Seq<char>>,
    protocol: Option<Seq<char>>,
    r: Result<(), VersionMismatch>,
) -> bool {
    let ds = match datastore {
        Some(d) => i64_parse(d),
        None => None,
    };
    let pr = match protocol {
        Some(p) => i64_parse(p),
        None => None,
    };
    if ds is Some && ds->0 != DATASTORE_VERSION {
        r == Err::<(), VersionMismatch>(VersionMismatch::Datastore { server: ds->0 })
    } else if pr is Some && pr->0 != PROTOCOL_VERSION {
        r == Err::<(), VersionMismatch>(VersionMismatch::Protocol { server: pr->0 })
    } else {
        r == Ok::<(), VersionMismatch>(())
    }
}

/// Checks the version headers of a server answer. A header that is
/// missing or not a number is ignored; a number other than this client's
/// version is a mismatch, the datastore version checked first.
pub fn check_server_versions(datastore: Option<&str>, protocol: Option<&str>) -> (r: Result<
    (),
    VersionMismatch,
>)
    ensures
        versions_post(
            match datastore {
                Some(d) => Some(d@),
                None => None,
            },
            match protocol {
                Some(p) => Some(p@),
                None => None,
            },
            r,
        ),
{
    if let Some(d) = datastore {
        if let Some(v) = parse_i64(d) {
            if v != DATASTORE_VERSION {
                return Err(VersionMismatch::Datastore { server: v });
            }
        }
    }
    if let Some(p) = protocol {
        if let Some(v) = parse_i64(p) {
            if v != PROTOCOL_VERSION {
                return Err(VersionMismatch::Protocol { server: v });
            }
        }
    }
    Ok(())
}

} // verus!
