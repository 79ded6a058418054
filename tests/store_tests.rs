use peek_datastore::frecency::calculate_frecency;
use peek_datastore::model::{ItemFilter, ItemOptions};
use peek_datastore::store::{is_valid_item_type, Store, StoreError};

fn opts(content: &str) -> ItemOptions {
    ItemOptions {
        content: Some(content.to_string()),
        mime_type: None,
        metadata: None,
        starred: None,
        archived: None,
    }
}

fn no_opts() -> ItemOptions {
    ItemOptions { content: None, mime_type: None, metadata: None, starred: None, archived: None }
}

fn filter() -> ItemFilter {
    ItemFilter {
        item_type: None,
        starred: None,
        archived: None,
        include_deleted: None,
        limit: None,
        sort_by: None,
    }
}

#[test]
fn frecency_without_decay_is_ten_times_frequency() {
    assert_eq!(calculate_frecency(3, 1_000, 1_000), 30);
    assert_eq!(calculate_frecency(0, 5, 5), 0);
    assert_eq!(calculate_frecency(1, 0, 0), 10);
}

#[test]
fn frecency_halves_after_a_week() {
    let day: i64 = 86_400_000;
    assert_eq!(calculate_frecency(1, 0, 7 * day), 5);
    assert_eq!(calculate_frecency(1, 0, day), 9);
    assert_eq!(calculate_frecency(2, 0, 14 * day), 7);
    assert_eq!(calculate_frecency(4, 0, 21 * day), 10);
}

#[test]
fn frecency_decreases_with_time() {
    let day: i64 = 86_400_000;
    let mut last = calculate_frecency(100, 0, 0);
    for d in 1..30 {
        let s = calculate_frecency(100, 0, d * day);
        assert!(s < last, "day {} gave {} after {}", d, s, last);
        last = s;
    }
}

#[test]
fn item_types_are_checked() {
    assert!(is_valid_item_type("url"));
    assert!(is_valid_item_type("text"));
    assert!(is_valid_item_type("tagset"));
    assert!(is_valid_item_type("image"));
    assert!(!is_valid_item_type("note"));
    assert!(!is_valid_item_type("URL"));
    assert!(!is_valid_item_type(""));
}

#[test]
fn add_then_get_round_trip() {
    let mut store = Store::new();
    let id = store.add_item("url", &opts("https://example.com"), 1_000).unwrap();
    let item = store.get_item(&id).expect("item present");
    assert_eq!(item.id, id);
    assert_eq!(item.item_type, "url");
    assert_eq!(item.content.as_deref(), Some("https://example.com"));
    assert_eq!(item.deleted_at, 0);
    assert_eq!(item.created_at, 1_000);
    assert_eq!(item.updated_at, 1_000);
    assert_eq!(item.metadata, "{}");
    assert_eq!(item.mime_type, "");
    assert_eq!(item.sync_id, "");
    assert_eq!(item.sync_source, "");
    assert!(id.starts_with("item_"));
}

#[test]
fn add_rejects_unknown_type() {
    let mut store = Store::new();
    assert_eq!(store.add_item("note", &opts("x"), 1), Err(StoreError::Validation));
    assert_eq!(store.query_items(&filter()).len(), 0);
}

#[test]
fn ids_are_distinct() {
    let mut store = Store::new();
    let a = store.add_item("text", &opts("a"), 1).unwrap();
    let b = store.add_item("text", &opts("b"), 1).unwrap();
    assert_ne!(a, b);
}

#[test]
fn update_overwrites_supplied_fields() {
    let mut store = Store::new();
    let id = store.add_item("text", &opts("old"), 10).unwrap();
    let o = ItemOptions {
        content: Some("new".to_string()),
        mime_type: None,
        metadata: None,
        starred: Some(1),
        archived: None,
    };
    assert!(store.update_item(&id, &o, 20));
    let item = store.get_item(&id).unwrap();
    assert_eq!(item.content.as_deref(), Some("new"));
    assert_eq!(item.starred, 1);
    assert_eq!(item.archived, 0);
    assert_eq!(item.updated_at, 20);
    assert_eq!(item.created_at, 10);
    assert!(store.update_item(&id, &no_opts(), 30));
    assert_eq!(store.get_item(&id).unwrap().updated_at, 30);
    assert_eq!(store.get_item(&id).unwrap().content.as_deref(), Some("new"));
    assert!(!store.update_item("missing", &o, 30));
}

#[test]
fn soft_delete_hides_from_get_but_not_from_include_deleted_query() {
    let mut store = Store::new();
    let id = store.add_item("text", &opts("bye"), 10).unwrap();
    assert!(store.delete_item(&id, 50));
    assert!(store.get_item(&id).is_none());
    assert!(!store.delete_item(&id, 60));
    assert!(!store.update_item(&id, &opts("again"), 70));
    assert_eq!(store.query_items(&filter()).len(), 0);
    let mut f = filter();
    f.include_deleted = Some(true);
    let all = store.query_items(&f);
    assert_eq!(all.len(), 1);
    assert_eq!(all[0].id, id);
    assert_eq!(all[0].deleted_at, 50);
    assert_eq!(all[0].updated_at, 50);
}

#[test]
fn hard_delete_removes_item_and_links() {
    let mut store = Store::new();
    let a = store.add_item("text", &opts("a"), 1).unwrap();
    let b = store.add_item("text", &opts("b"), 2).unwrap();
    let (tag, _) = store.get_or_create_tag("t", 3);
    store.tag_item(&a, &tag.id, 4).unwrap();
    store.tag_item(&b, &tag.id, 5).unwrap();
    assert!(store.hard_delete_item(&a));
    assert!(!store.hard_delete_item(&a));
    let mut f = filter();
    f.include_deleted = Some(true);
    assert_eq!(store.query_items(&f).len(), 1);
    let items = store.get_items_by_tag(&tag.id);
    assert_eq!(items.len(), 1);
    assert_eq!(items[0].id, b);
    assert!(store.get_item_tags(&a).is_empty());
}

#[test]
fn query_orders_newest_first_and_filters() {
    let mut store = Store::new();
    let a = store.add_item("url", &opts("https://example1.com"), 100).unwrap();
    let b = store.add_item("url", &opts("https://example2.com"), 300).unwrap();
    let c = store.add_item("text", &opts("Note 1"), 200).unwrap();
    let d = store.add_item("tagset", &no_opts(), 50).unwrap();
    let all = store.query_items(&filter());
    let ids: Vec<&str> = all.iter().map(|i| i.id.as_str()).collect();
    assert_eq!(ids, vec![b.as_str(), c.as_str(), a.as_str(), d.as_str()]);

    let mut f = filter();
    f.item_type = Some("url".to_string());
    assert_eq!(store.query_items(&f).len(), 2);
    f.item_type = Some("text".to_string());
    assert_eq!(store.query_items(&f).len(), 1);
    f.item_type = Some("tagset".to_string());
    assert_eq!(store.query_items(&f).len(), 1);

    let mut f = filter();
    f.limit = Some(2);
    let top = store.query_items(&f);
    assert_eq!(top.len(), 2);
    assert_eq!(top[0].id, b);
    assert_eq!(top[1].id, c);

    let mut f = filter();
    f.limit = Some(-1);
    assert_eq!(store.query_items(&f).len(), 4);
}

#[test]
fn query_by_update_time_and_flags() {
    let mut store = Store::new();
    let a = store.add_item("text", &opts("a"), 100).unwrap();
    let b = store.add_item("text", &opts("b"), 200).unwrap();
    let mut star = no_opts();
    star.starred = Some(1);
    assert!(store.update_item(&a, &star, 500));
    let mut f = filter();
    f.sort_by = Some("updated".to_string());
    let items = store.query_items(&f);
    assert_eq!(items[0].id, a);
    assert_eq!(items[1].id, b);
    let mut f = filter();
    f.starred = Some(1);
    let starred = store.query_items(&f);
    assert_eq!(starred.len(), 1);
    assert_eq!(starred[0].id, a);
    let mut f = filter();
    f.archived = Some(1);
    assert!(store.query_items(&f).is_empty());
}

#[test]
fn get_or_create_tag_matches_names_up_to_case() {
    let mut store = Store::new();
    let (t1, created1) = store.get_or_create_tag("  My Tag  ", 5);
    assert!(created1);
    assert_eq!(t1.name, "My Tag");
    assert_eq!(t1.slug.as_deref(), Some("my-tag"));
    assert_eq!(t1.frequency, 0);
    assert_eq!(t1.frecency_score, 0);
    assert_eq!(t1.color, "#999999");
    let (t2, created2) = store.get_or_create_tag("my tag", 6);
    assert!(!created2);
    assert_eq!(t2.id, t1.id);
    let (t3, created3) = store.get_or_create_tag("MY TAG", 7);
    assert!(!created3);
    assert_eq!(t3.id, t1.id);
    let (t4, created4) = store.get_or_create_tag("other", 8);
    assert!(created4);
    assert_ne!(t4.id, t1.id);
}

#[test]
fn tag_item_is_idempotent() {
    let mut store = Store::new();
    let id = store.add_item("url", &opts("https://example.com"), 1).unwrap();
    let (tag, _) = store.get_or_create_tag("work", 2);
    let (link, existed) = store.tag_item(&id, &tag.id, 100).unwrap();
    assert!(!existed);
    assert_eq!(link.item_id, id);
    assert_eq!(link.tag_id, tag.id);
    assert_eq!(link.created_at, 100);
    let (again, existed2) = store.tag_item(&id, &tag.id, 200).unwrap();
    assert!(existed2);
    assert_eq!(again.id, link.id);
    let tags = store.get_item_tags(&id);
    assert_eq!(tags.len(), 1);
    assert_eq!(tags[0].frequency, 1);
    assert_eq!(tags[0].last_used_at, 100);
    assert_eq!(tags[0].frecency_score, 10);
}

#[test]
fn tag_item_requires_existing_rows() {
    let mut store = Store::new();
    let id = store.add_item("text", &opts("x"), 1).unwrap();
    let (tag, _) = store.get_or_create_tag("t", 2);
    assert!(matches!(store.tag_item(&id, "no-tag", 3), Err(StoreError::Storage)));
    assert!(matches!(store.tag_item("no-item", &tag.id, 3), Err(StoreError::Storage)));
}

#[test]
fn untag_keeps_frequency() {
    let mut store = Store::new();
    let a = store.add_item("text", &opts("a"), 1).unwrap();
    let b = store.add_item("text", &opts("b"), 1).unwrap();
    let (tag, _) = store.get_or_create_tag("keep", 2);
    store.tag_item(&a, &tag.id, 3).unwrap();
    store.tag_item(&b, &tag.id, 4).unwrap();
    assert!(store.untag_item(&a, &tag.id));
    assert!(!store.untag_item(&a, &tag.id));
    assert!(store.get_item_tags(&a).is_empty());
    let tags = store.get_item_tags(&b);
    assert_eq!(tags[0].frequency, 2);
    assert_eq!(tags[0].frecency_score, 20);
}

#[test]
fn items_by_tag_skip_deleted() {
    let mut store = Store::new();
    let a = store.add_item("text", &opts("a"), 1).unwrap();
    let b = store.add_item("text", &opts("b"), 1).unwrap();
    let (tag, _) = store.get_or_create_tag("x", 2);
    store.tag_item(&a, &tag.id, 3).unwrap();
    store.tag_item(&b, &tag.id, 4).unwrap();
    assert!(store.delete_item(&a, 9));
    let items = store.get_items_by_tag(&tag.id);
    assert_eq!(items.len(), 1);
    assert_eq!(items[0].id, b);
    assert_eq!(store.get_item_tags(&a).len(), 1);
}

#[test]
fn restore_round_trips_saved_rows() {
    let mut store = Store::new();
    let a = store.add_item("text", &opts("a"), 1).unwrap();
    store.add_item("url", &opts("https://b.com"), 2).unwrap();
    let (tag, _) = store.get_or_create_tag("t", 3);
    store.tag_item(&a, &tag.id, 4).unwrap();
    let copy = Store::restore(&store.all_items(), &store.all_tags(), &store.all_links())
        .expect("valid rows");
    assert_eq!(copy.all_items().len(), 2);
    let tags = copy.get_item_tags(&a);
    assert_eq!(tags.len(), 1);
    assert_eq!(tags[0].frequency, 1);
}

#[test]
fn restore_refuses_broken_rows() {
    let mut store = Store::new();
    store.add_item("text", &opts("a"), 1).unwrap();
    let (_tag, _) = store.get_or_create_tag("t", 3);
    let items = store.all_items();
    let mut doubled = store.all_items();
    doubled.extend(store.all_items());
    assert!(Store::restore(&doubled, &store.all_tags(), &store.all_links()).is_none());

    let mut same_sync = store.all_items();
    let mut other = store.all_items().remove(0);
    other.id = "other".to_string();
    same_sync[0].sync_id = "S".to_string();
    other.sync_id = "S".to_string();
    same_sync.push(other);
    assert!(Store::restore(&same_sync, &store.all_tags(), &store.all_links()).is_none());

    let mut tags = store.all_tags();
    tags[0].frecency_score = 99;
    assert!(Store::restore(&items, &tags, &store.all_links()).is_none());

    let mut tags = store.all_tags();
    let mut upper = store.all_tags().remove(0);
    upper.id = "tag-2".to_string();
    upper.name = "T".to_string();
    tags.push(upper);
    assert!(Store::restore(&items, &tags, &store.all_links()).is_none());
}

#[test]
fn set_item_tags_keeps_unchanged_links() {
    let mut store = Store::new();
    let id = store.add_item("url", &opts("https://example.com"), 1).unwrap();
    let names = |v: &[&str]| v.iter().map(|s| s.to_string()).collect::<Vec<String>>();
    assert!(store.set_item_tags(&id, &names(&["a", "b"]), 10));
    assert!(store.set_item_tags(&id, &names(&["B", " c "]), 20));
    let mut tags: Vec<(String, i64, i64)> = store
        .get_item_tags(&id)
        .into_iter()
        .map(|t| (t.name, t.frequency, t.last_used_at))
        .collect();
    tags.sort();
    assert_eq!(tags, vec![("b".to_string(), 1, 10), ("c".to_string(), 1, 20)]);
    let (a, created) = store.get_or_create_tag("a", 30);
    assert!(!created);
    assert_eq!(a.frequency, 1);
    assert!(store.delete_item(&id, 40));
    assert!(!store.set_item_tags(&id, &names(&["d"]), 50));
}

#[test]
fn test_tag_operations() {
    let mut store = Store::new();
    let (tag, created) = store.get_or_create_tag("Test Tag", 1);
    assert!(created);
    assert!(tag.id.starts_with("tag_"));
    assert_eq!(tag.name, "Test Tag");
    assert_eq!(tag.slug, Some("test-tag".to_string()));

    let (tag2, created2) = store.get_or_create_tag("Test Tag", 2);
    assert!(!created2);
    assert_eq!(tag.id, tag2.id);

    let item_id = store.add_item("url", &opts("https://example.com"), 3).unwrap();
    let (link, already_exists) = store.tag_item(&item_id, &tag.id, 4).expect("Failed to tag item");
    assert!(!already_exists);
    assert!(link.id.starts_with("item_tag_"));

    let tags = store.get_item_tags(&item_id);
    assert_eq!(tags.len(), 1);
    assert_eq!(tags[0].name, "Test Tag");

    let removed = store.untag_item(&item_id, &tag.id);
    assert!(removed);
    assert_eq!(store.get_item_tags(&item_id).len(), 0);
}

#[test]
fn test_item_new_columns() {
    let mut store = Store::new();
    let item_id = store.add_item("url", &opts("https://example.com"), 10).expect("Failed to add url item");
    assert!(item_id.starts_with("item_"));

    let item = store.get_item(&item_id).unwrap();
    assert_eq!(item.item_type, "url");
    assert_eq!(item.synced_at, 0);

    let item_id2 = store.add_item("text", &opts("Hello world"), 11).expect("Failed to add text item");
    let item2 = store.get_item(&item_id2).unwrap();
    assert_eq!(item2.item_type, "text");

    let mut f = filter();
    f.item_type = Some("url".to_string());
    let items = store.query_items(&f);
    assert_eq!(items.len(), 1);
    assert_eq!(items[0].synced_at, 0);
}

#[test]
fn repeated_tag_item_returns_the_same_link() {
    let mut store = Store::new();
    let id = store.add_item("text", &opts("x"), 1).unwrap();
    let (other, _) = store.get_or_create_tag("other", 1);
    let other_item = store.add_item("text", &opts("y"), 1).unwrap();
    store.tag_item(&other_item, &other.id, 2).unwrap();
    let (tag, _) = store.get_or_create_tag("t", 2);
    let (first, _) = store.tag_item(&id, &tag.id, 3).unwrap();
    let (second, existed) = store.tag_item(&id, &tag.id, 4).unwrap();
    assert!(existed);
    assert_eq!(second.id, first.id);
    assert_eq!(second.created_at, 3);
}
