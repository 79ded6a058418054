use peek_datastore::commands::{
    datastore_add_item, datastore_delete_item, datastore_get_item, datastore_get_item_tags,
    datastore_get_items_by_tag, datastore_hard_delete_item, datastore_query_items,
    datastore_tag_item, datastore_untag_item, datastore_update_item, CommandResponse,
};
use peek_datastore::model::{ItemFilter, ItemOptions};
use peek_datastore::store::{Store, StoreError};
use peek_datastore::sync::{
    apply_push_results, begin_full_sync, build_push_batch, finish_full_sync, from_iso_string,
    get_sync_status, merge_server_item, pull_items, MergeOutcome, ServerItem, SyncConfig,
    SyncError,
};
use peek_datastore::themes::ThemeRegistry;

const T1: &str = "2024-01-01T00:00:00.000Z";
const T1_MS: i64 = 1_704_067_200_000;
const T2_MS: i64 = 1_704_067_260_000;
const T3: &str = "2024-01-01T00:02:00Z";
const T3_MS: i64 = 1_704_067_320_000;

fn opts(content: &str) -> ItemOptions {
    ItemOptions {
        content: Some(content.to_string()),
        mime_type: None,
        metadata: None,
        starred: None,
        archived: None,
    }
}

fn all_items() -> ItemFilter {
    ItemFilter {
        item_type: None,
        starred: None,
        archived: None,
        include_deleted: Some(true),
        limit: None,
        sort_by: None,
    }
}

fn remote(id: &str, content: &str, updated: &str, tags: &[&str]) -> ServerItem {
    ServerItem {
        id: id.to_string(),
        item_type: "text".to_string(),
        content: Some(content.to_string()),
        tags: tags.iter().map(|t| t.to_string()).collect(),
        metadata: None,
        created_at: T1.to_string(),
        updated_at: updated.to_string(),
    }
}

fn config(url: &str, key: &str, last: i64) -> SyncConfig {
    SyncConfig {
        server_url: url.to_string(),
        api_key: key.to_string(),
        last_sync_time: last,
        auto_sync: false,
    }
}

/// A store with one local item that was pushed as `remote_id` and then
/// edited so that its update time is `T2_MS`.
fn store_with_synced_item(remote_id: &str) -> (Store, String) {
    let mut store = Store::new();
    let id = store.add_item("text", &opts("local"), T1_MS).unwrap();
    let batch = build_push_batch(&store, 0);
    let r = apply_push_results(&mut store, &batch, &vec![Some(remote_id.to_string())], T1_MS);
    assert_eq!(r.pushed, 1);
    assert!(store.update_item(&id, &opts("local edit"), T2_MS));
    (store, id)
}

#[test]
fn iso_times_are_read() {
    assert_eq!(from_iso_string(T1), T1_MS);
    assert_eq!(from_iso_string(T3), T3_MS);
    assert_eq!(from_iso_string("2024-01-01T01:00:00+01:00"), T1_MS);
    assert_eq!(from_iso_string("not a time"), 0);
    assert_eq!(from_iso_string(""), 0);
}

#[test]
fn merge_older_remote_is_conflict() {
    let (mut store, id) = store_with_synced_item("S");
    let before = store.get_item(&id).unwrap();
    let r = pull_items(&mut store, &vec![remote("S", "remote", T1, &[])], 9_000_000_000_000);
    assert_eq!(r.conflicts, 1);
    assert_eq!(r.pulled, 0);
    let after = store.get_item(&id).unwrap();
    assert_eq!(after.content, before.content);
    assert_eq!(after.updated_at, T2_MS);
}

#[test]
fn merge_newer_remote_wins() {
    let (mut store, id) = store_with_synced_item("S");
    let r = pull_items(&mut store, &vec![remote("S", "remote", T3, &["news"])], 9_000_000_000_000);
    assert_eq!(r.pulled, 1);
    assert_eq!(r.conflicts, 0);
    let after = store.get_item(&id).unwrap();
    assert_eq!(after.content.as_deref(), Some("remote"));
    assert_eq!(after.updated_at, T3_MS);
    assert_eq!(after.synced_at, 9_000_000_000_000);
    let tags = store.get_item_tags(&id);
    assert_eq!(tags.len(), 1);
    assert_eq!(tags[0].name, "news");
    assert_eq!(store.query_items(&all_items()).len(), 1);
}

#[test]
fn merge_equal_time_is_skipped() {
    let mut store = Store::new();
    let first = merge_server_item(&mut store, &remote("R", "x", T1, &[]), T2_MS);
    assert_eq!(first, Ok(MergeOutcome::Pulled));
    let second = merge_server_item(&mut store, &remote("R", "y", T1, &[]), T2_MS);
    assert_eq!(second, Ok(MergeOutcome::Skipped));
    let items = store.query_items(&all_items());
    assert_eq!(items.len(), 1);
    assert_eq!(items[0].content.as_deref(), Some("x"));
}

#[test]
fn pull_creates_new_synced_item_with_tags() {
    let mut store = Store::new();
    let now = T3_MS;
    let r = pull_items(&mut store, &vec![remote("remote-123", "hello", T1, &["work", "Important"])], now);
    assert_eq!(r.pulled, 1);
    let items = store.query_items(&all_items());
    assert_eq!(items.len(), 1);
    let it = &items[0];
    assert_eq!(it.sync_id, "remote-123");
    assert_eq!(it.sync_source, "server");
    assert_eq!(it.created_at, T1_MS);
    assert_eq!(it.updated_at, T1_MS);
    assert_eq!(it.synced_at, now);
    assert_eq!(it.content.as_deref(), Some("hello"));
    let names: Vec<String> = store.get_item_tags(&it.id).into_iter().map(|t| t.name).collect();
    assert_eq!(names, vec!["work".to_string(), "Important".to_string()]);
    assert_eq!(get_sync_status(&store, &config("u", "k", 0)).pending_count, 0);
}

#[test]
fn pull_rejects_bad_remote_items() {
    let mut store = Store::new();
    assert_eq!(
        merge_server_item(&mut store, &remote("", "x", T1, &[]), 1),
        Err(StoreError::Validation)
    );
    let mut odd = remote("Q", "x", T1, &[]);
    odd.item_type = "note".to_string();
    assert_eq!(merge_server_item(&mut store, &odd, 1), Err(StoreError::Validation));
    let r = pull_items(&mut store, &vec![odd, remote("P", "ok", T1, &[])], 1);
    assert_eq!(r.pulled, 1);
    assert_eq!(store.query_items(&all_items()).len(), 1);
}

#[test]
fn push_then_pull_does_not_duplicate() {
    let mut store = Store::new();
    let id = store.add_item("url", &opts("https://a.com"), T1_MS).unwrap();
    let batch = build_push_batch(&store, 0);
    assert_eq!(batch.len(), 1);
    let r = apply_push_results(&mut store, &batch, &vec![Some("srv-1".to_string())], T1_MS);
    assert_eq!(r.pushed, 1);
    let mut copy = remote("srv-1", "https://a.com", T1, &[]);
    copy.item_type = "url".to_string();
    let p = pull_items(&mut store, &vec![copy], T3_MS);
    assert_eq!(p.pulled + p.conflicts, 0);
    let items = store.query_items(&all_items());
    assert_eq!(items.len(), 1);
    assert_eq!(items[0].id, id);
}

#[test]
fn push_batch_carries_item_fields() {
    let mut store = Store::new();
    let mut o = opts("note body");
    o.metadata = Some("{\"k\":1}".to_string());
    let a = store.add_item("text", &o, 10).unwrap();
    let b = store.add_item("url", &opts("https://b.com"), 20).unwrap();
    let (tag, _) = store.get_or_create_tag("work", 30);
    store.tag_item(&a, &tag.id, 30).unwrap();
    let batch = build_push_batch(&store, 0);
    assert_eq!(batch.len(), 2);
    assert_eq!(batch[0].local_id, a);
    assert_eq!(batch[0].sync_id, a);
    assert_eq!(batch[0].item_type, "text");
    assert_eq!(batch[0].content.as_deref(), Some("note body"));
    assert_eq!(batch[0].metadata.as_deref(), Some("{\"k\":1}"));
    assert_eq!(batch[0].tags, vec!["work".to_string()]);
    assert_eq!(batch[1].local_id, b);
    assert_eq!(batch[1].metadata, None);
    assert!(batch[1].tags.is_empty());
}

#[test]
fn push_failures_are_counted_and_skipped() {
    let mut store = Store::new();
    let a = store.add_item("text", &opts("a"), 10).unwrap();
    let b = store.add_item("text", &opts("b"), 10).unwrap();
    let batch = build_push_batch(&store, 0);
    let r = apply_push_results(&mut store, &batch, &vec![None, Some("srv-b".to_string())], 20);
    assert_eq!(r.pushed, 1);
    assert_eq!(r.failed, 1);
    assert_eq!(store.get_item(&a).unwrap().sync_id, "");
    let got = store.get_item(&b).unwrap();
    assert_eq!(got.sync_id, "srv-b");
    assert_eq!(got.sync_source, "server");
    assert_eq!(got.synced_at, 20);
    assert_eq!(get_sync_status(&store, &config("u", "k", 0)).pending_count, 1);
}

#[test]
fn push_refuses_remote_id_already_taken() {
    let mut store = Store::new();
    let _a = store.add_item("text", &opts("a"), 10).unwrap();
    let _b = store.add_item("text", &opts("b"), 10).unwrap();
    let batch = build_push_batch(&store, 0);
    let r = apply_push_results(
        &mut store,
        &batch,
        &vec![Some("same".to_string()), Some("same".to_string())],
        20,
    );
    assert_eq!(r.pushed, 1);
    assert_eq!(r.failed, 1);
}

#[test]
fn dirty_items_are_pushed_once_a_sync_happened() {
    let (store, id) = store_with_synced_item("S");
    assert!(build_push_batch(&store, 0).is_empty());
    let batch = build_push_batch(&store, T1_MS);
    assert_eq!(batch.len(), 1);
    assert_eq!(batch[0].local_id, id);
    assert_eq!(get_sync_status(&store, &config("u", "k", T1_MS)).pending_count, 1);
}

#[test]
fn deleted_items_are_not_pushed() {
    let mut store = Store::new();
    let a = store.add_item("text", &opts("a"), 10).unwrap();
    assert!(store.delete_item(&a, 11));
    assert!(build_push_batch(&store, 0).is_empty());
    assert_eq!(get_sync_status(&store, &config("u", "k", 0)).pending_count, 0);
}

#[test]
fn full_sync_needs_url_and_key() {
    assert_eq!(begin_full_sync(&config("", "k", 0), 5).err(), Some(SyncError::NotConfigured));
    assert_eq!(begin_full_sync(&config("u", "", 0), 5).err(), Some(SyncError::NotConfigured));
    let plan = begin_full_sync(&config("u", "k", 0), 5).unwrap();
    assert_eq!(plan.since, None);
    assert_eq!(plan.start_time, 5);
    let plan = begin_full_sync(&config("u", "k", 3), 5).unwrap();
    assert_eq!(plan.since, Some(3));
    assert_eq!(plan.watermark, 3);
}

#[test]
fn full_sync_end_to_end_against_stub_server() {
    let mut store = Store::new();
    store.add_item("url", &opts("https://a.com"), 1_000).unwrap();
    let mut cfg = config("https://sync.example", "key-123", 0);
    let plan = begin_full_sync(&cfg, 2_000).unwrap();
    // The stub server has nothing to send and stores each pushed item.
    let pull = pull_items(&mut store, &Vec::new(), 2_000);
    let batch = build_push_batch(&store, plan.watermark);
    let replies: Vec<Option<String>> =
        (0..batch.len()).map(|i| Some(format!("srv-{}", i))).collect();
    let push = apply_push_results(&mut store, &batch, &replies, 2_500);
    let result = finish_full_sync(&mut cfg, &plan, &pull, &push);
    assert_eq!(result.pushed, 1);
    assert_eq!(result.pulled, 0);
    assert_eq!(result.conflicts, 0);
    assert_eq!(result.last_sync_time, 2_000);
    let status = get_sync_status(&store, &cfg);
    assert_eq!(status.pending_count, 0);
    assert!(status.configured);
    assert_eq!(status.last_sync_time, 2_000);
}

#[test]
fn status_without_configuration() {
    let store = Store::new();
    let s = get_sync_status(&store, &config("", "", 0));
    assert!(!s.configured);
    assert_eq!(s.pending_count, 0);
}

#[test]
fn command_responses() {
    let ok: CommandResponse<i32> = CommandResponse::success(7);
    assert!(ok.success);
    assert_eq!(ok.data, Some(7));
    assert!(ok.error.is_none());
    let err: CommandResponse<i32> = CommandResponse::error("boom".to_string());
    assert!(!err.success);
    assert!(err.data.is_none());
    assert_eq!(err.error.as_deref(), Some("boom"));
}

#[test]
fn add_and_tag_commands() {
    let mut store = Store::new();
    let bad = datastore_add_item(&mut store, "nope", &opts("x"), 1);
    assert!(!bad.success);
    assert_eq!(bad.error.as_deref(), Some("Failed to add item: unknown item type"));
    let good = datastore_add_item(&mut store, "text", &opts("x"), 1);
    assert!(good.success);
    let id = good.data.unwrap().id;
    let missing = datastore_tag_item(&mut store, &id, "nope", 2);
    assert_eq!(missing.error.as_deref(), Some("Failed to tag item: no such item or tag"));
    let (tag, _) = store.get_or_create_tag("t", 2);
    let linked = datastore_tag_item(&mut store, &id, &tag.id, 3);
    assert!(linked.success);
    assert!(!linked.data.unwrap().already_exists);
}

#[test]
fn theme_registry() {
    let mut reg = ThemeRegistry::new();
    assert_eq!(reg.get_active_theme_id(), "basic");
    assert!(!reg.set_active_theme_id("dark"));
    reg.register_theme_path("basic", "/themes/basic");
    reg.register_theme_path("dark", "/themes/dark");
    reg.register_theme_path("dark", "/themes/dark2");
    assert_eq!(reg.get_theme_path("dark").as_deref(), Some("/themes/dark2"));
    assert_eq!(reg.get_theme_path("none"), None);
    assert_eq!(reg.get_registered_theme_ids(), vec!["basic".to_string(), "dark".to_string()]);
    assert!(reg.set_active_theme_id("dark"));
    assert_eq!(reg.get_active_theme_id(), "dark");
}

#[test]
fn newer_remote_without_content_clears_local_content() {
    let (mut store, id) = store_with_synced_item("S");
    let mut r = remote("S", "unused", T3, &[]);
    r.content = None;
    let out = pull_items(&mut store, &vec![r], 9_000_000_000_000);
    assert_eq!(out.pulled, 1);
    let after = store.get_item(&id).unwrap();
    assert_eq!(after.content, None);
    assert_eq!(after.metadata, "{}");
    assert_eq!(after.updated_at, T3_MS);
}

#[test]
fn newer_remote_metadata_replaces_local() {
    let (mut store, id) = store_with_synced_item("S");
    let mut r = remote("S", "c", T3, &[]);
    r.metadata = Some("{\"a\":1}".to_string());
    pull_items(&mut store, &vec![r], 9_000_000_000_000);
    assert_eq!(store.get_item(&id).unwrap().metadata, "{\"a\":1}");
}

#[test]
fn item_commands() {
    let mut store = Store::new();
    let id = store.add_item("text", &opts("x"), 1).unwrap();
    let (tag, _) = store.get_or_create_tag("t", 1);
    store.tag_item(&id, &tag.id, 2).unwrap();
    assert_eq!(datastore_get_item(&store, &id).data.unwrap().unwrap().id, id);
    assert_eq!(datastore_update_item(&mut store, &id, &opts("y"), 3).data, Some(true));
    assert_eq!(datastore_get_item_tags(&store, &id).data.unwrap().len(), 1);
    assert_eq!(datastore_get_items_by_tag(&store, &tag.id).data.unwrap().len(), 1);
    assert_eq!(datastore_untag_item(&mut store, &id, &tag.id).data, Some(true));
    assert_eq!(datastore_delete_item(&mut store, &id, 4).data, Some(true));
    assert!(datastore_get_item(&store, &id).data.unwrap().is_none());
    assert_eq!(datastore_query_items(&store, &all_items()).data.unwrap().len(), 1);
    assert_eq!(datastore_hard_delete_item(&mut store, &id).data, Some(true));
    assert!(datastore_query_items(&store, &all_items()).data.unwrap().is_empty());
}
