use peek_datastore::remote::{
    check_server_versions, pull_path, to_iso_string, VersionMismatch, DATASTORE_VERSION,
    PROTOCOL_VERSION,
};
use peek_datastore::settings::{sync_config_from_settings, sync_settings_to_write};
use peek_datastore::sync::SyncConfig;

#[test]
fn iso_strings() {
    assert_eq!(to_iso_string(1_704_067_200_000), "2024-01-01T00:00:00.000Z");
    assert_eq!(to_iso_string(1_704_067_200_123), "2024-01-01T00:00:00.123Z");
    assert_eq!(to_iso_string(0), "1970-01-01T00:00:00.000Z");
    assert_eq!(to_iso_string(i64::MAX), "1970-01-01T00:00:00.000Z");
}

#[test]
fn pull_paths() {
    assert_eq!(pull_path(None), "/items");
    assert_eq!(pull_path(Some(0)), "/items");
    assert_eq!(pull_path(Some(-5)), "/items");
    assert_eq!(pull_path(Some(1_704_067_200_000)), "/items/since/2024-01-01T00:00:00.000Z");
}

#[test]
fn version_headers() {
    assert_eq!(check_server_versions(None, None), Ok(()));
    let ds = DATASTORE_VERSION.to_string();
    let pr = PROTOCOL_VERSION.to_string();
    assert_eq!(check_server_versions(Some(&ds), Some(&pr)), Ok(()));
    assert_eq!(check_server_versions(Some("not a number"), Some(&pr)), Ok(()));
    assert_eq!(
        check_server_versions(Some("99"), Some("98")),
        Err(VersionMismatch::Datastore { server: 99 })
    );
    assert_eq!(
        check_server_versions(Some(&ds), Some("98")),
        Err(VersionMismatch::Protocol { server: 98 })
    );
}

#[test]
fn config_from_stored_settings() {
    let c = sync_config_from_settings(
        Some("\"https://sync.example\"".to_string()),
        Some("\"key-1\"".to_string()),
        Some("1700".to_string()),
        Some("true".to_string()),
        "https://default.example".to_string(),
    );
    assert_eq!(c.server_url, "https://sync.example");
    assert_eq!(c.api_key, "key-1");
    assert_eq!(c.last_sync_time, 1700);
    assert!(c.auto_sync);

    let d = sync_config_from_settings(
        None,
        Some("not json".to_string()),
        Some("soon".to_string()),
        None,
        "https://default.example".to_string(),
    );
    assert_eq!(d.server_url, "https://default.example");
    assert_eq!(d.api_key, "");
    assert_eq!(d.last_sync_time, 0);
    assert!(!d.auto_sync);
}

#[test]
fn settings_written_for_a_config() {
    let c = SyncConfig {
        server_url: "https://s".to_string(),
        api_key: String::new(),
        last_sync_time: 42,
        auto_sync: false,
    };
    let w = sync_settings_to_write(&c);
    assert_eq!(
        w,
        vec![
            ("serverUrl".to_string(), "\"https://s\"".to_string()),
            ("lastSyncTime".to_string(), "42".to_string()),
            ("autoSync".to_string(), "false".to_string()),
        ]
    );
    let c = SyncConfig {
        server_url: String::new(),
        api_key: "k".to_string(),
        last_sync_time: 0,
        auto_sync: true,
    };
    let w = sync_settings_to_write(&c);
    assert_eq!(
        w,
        vec![
            ("apiKey".to_string(), "\"k\"".to_string()),
            ("autoSync".to_string(), "true".to_string()),
        ]
    );
}
