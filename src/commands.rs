//! The command surface of the store: each command runs one store operation
//! and wraps its outcome in a uniform response.
use vstd::prelude::*;

use crate::model::{Item, ItemFilter, ItemOptions, ItemTag, Tag};
use crate::store::{
    add_item_post, delete_item_post, get_item_post, has_item, has_link, has_live_item,
    items_of_tag, query_result, tag_item_post, tags_of_item, get_or_create_tag_post, Store,
    StoreError,
};

verus! {

/// The uniform answer of a command: data on success, a message on failure.
#[derive(Debug)]
pub struct CommandResponse<T> {
    pub success: bool,
    pub data: Option<T>,
    pub error: Option<String>,
}

impl<T> CommandResponse<T> {
    /// A successful response carrying `data`.
    pub fn success(data: T) -> (r: Self)
        ensures
            r.success,
            r.data == Some(data),
            r.error is None,
    {
        CommandResponse { success: true, data: Some(data), error: None }
    }

    /// A failed response carrying `message`.
    pub fn error(message: String) -> (r: Self)
        ensures
            !r.success,
            r.data is None,
            r.error == Some(message),
    {
        CommandResponse { success: false, data: None, error: Some(message) }
    }
}

#[derive(Debug)]
pub struct AddItemResult {
    pub id: String,
}

#[derive(Debug)]
pub struct GetOrCreateTagResult {
    pub tag: Tag,
    pub created: bool,
}

#[derive(Debug)]
pub struct TagItemResult {
    pub link: ItemTag,
    pub already_exists: bool,
}

pub open spec fn add_item_message(e: StoreError) -> Seq<char> {
    match e {
        StoreError::Validation => "Failed to add item: unknown item type"@,
        StoreError::Storage => "Failed to add item: storage error"@,
    }
}

pub open spec fn tag_item_message(e: StoreError) -> Seq<char> {
    match e {
        StoreError::Validation => "Failed to tag item: invalid input"@,
        StoreError::Storage => "Failed to tag item: no such item or tag"@,
    }
}

/// Adds an item; the response carries its id, or why it was refused.
pub fn datastore_add_item(store: &mut Store, item_type: &str, options: &ItemOptions, now: i64) -> (r:
    CommandResponse<AddItemResult>)
    requires
        old(store).wf(),
    ensures
        exists|res: Result<String, StoreError>|
            {
                &&& add_item_post(*old(store), *final(store), item_type@, *options, now as int, res)
                &&& match res {
                    Ok(id) => r.success && r.error is None && r.data is Some && r.data->0.id@
                        == id@,
                    Err(e) => !r.success && r.data is None && r.error is Some && r.error->0@
                        == add_item_message(e),
                }
            },
{
    let res = store.add_item(item_type, options, now);
    match res {
        Ok(id) => {
            let ghost idv = id@;
            let r = CommandResponse::success(AddItemResult { id });
            assert(r.data->0.id@ == idv);
            r
        },
        Err(StoreError::Validation) => CommandResponse::error(
            "Failed to add item: unknown item type".to_owned(),
        ),
        Err(StoreError::Storage) => CommandResponse::error(
            "Failed to add item: storage error".to_owned(),
        ),
    }
}

/// Finds or creates a tag by name.
pub fn datastore_get_or_create_tag(store: &mut Store, name: &str, now: i64) -> (r: CommandResponse<
    GetOrCreateTagResult,
>)
    requires
        old(store).wf(),
    ensures
        r.success,
        r.error is None,
        r.data is Some,
        get_or_create_tag_post(
            *old(store),
            *final(store),
            name@,
            now as int,
            r.data->0.tag@,
            r.data->0.created,
        ),
{
    let (tag, created) = store.get_or_create_tag(name, now);
    CommandResponse::success(GetOrCreateTagResult { tag, created })
}

/// Links an item to a tag; the response says whether the link existed.
pub fn datastore_tag_item(store: &mut Store, item_id: &str, tag_id: &str, now: i64) -> (r:
    CommandResponse<TagItemResult>)
    requires
        old(store).wf(),
    ensures
        exists|res: Result<(ItemTag, bool), StoreError>|
            {
                &&& tag_item_post(*old(store), *final(store), item_id@, tag_id@, now as int, res)
                &&& match res {
                    Ok((l, existed)) => r.success && r.error is None && r.data is Some
                        && r.data->0.link@ == l@ && r.data->0.already_exists == existed,
                    Err(e) => !r.success && r.data is None && r.error is Some && r.error->0@
                        == tag_item_message(e),
                }
            },
{
    let res = store.tag_item(item_id, tag_id, now);
    match res {
        Ok((link, already_exists)) => {
            let ghost lv = link@;
            let r = CommandResponse::success(TagItemResult { link, already_exists });
            assert(r.data->0.link@ == lv);
            r
        },
        Err(StoreError::Validation) => CommandResponse::error(
            "Failed to tag item: invalid input".to_owned(),
        ),
        Err(StoreError::Storage) => CommandResponse::error(
            "Failed to tag item: no such item or tag".to_owned(),
        ),
    }
}

/// Gets the live item with this id; the data is `None` when there is none.
pub fn datastore_get_item(store: &Store, id: &str) -> (r: CommandResponse<Option<Item>>)
    requires
        store.wf(),
    ensures
        r.success,
        r.error is None,
        r.data is Some,
        get_item_post(*store, id@, r.data->0),
{
    CommandResponse::success(store.get_item(id))
}

/// Updates the live item with this id; the data tells whether there was one.
pub fn datastore_update_item(store: &mut Store, id: &str, options: &ItemOptions, now: i64) -> (r:
    CommandResponse<bool>)
    requires
        old(store).wf(),
    ensures
        final(store).wf(),
        r.success,
        r.error is None,
        r.data == Some(has_live_item(old(store).items(), id@)),
        final(store).tags() == old(store).tags(),
        final(store).links() == old(store).links(),
{
    let updated = store.update_item(id, options, now);
    CommandResponse::success(updated)
}

/// Soft-deletes the live item with this id; the data tells whether there was
/// one.
pub fn datastore_delete_item(store: &mut Store, id: &str, now: i64) -> (r: CommandResponse<bool>)
    requires
        old(store).wf(),
        now > 0,
    ensures
        r.success,
        r.error is None,
        r.data is Some,
        delete_item_post(*old(store), *final(store), id@, now as int, r.data->0),
{
    let deleted = store.delete_item(id, now);
    CommandResponse::success(deleted)
}

/// Removes the item with this id and its links; the data tells whether there
/// was one.
pub fn datastore_hard_delete_item(store: &mut Store, id: &str) -> (r: CommandResponse<bool>)
    requires
        old(store).wf(),
    ensures
        final(store).wf(),
        r.success,
        r.error is None,
        r.data == Some(has_item(old(store).items(), id@)),
{
    let deleted = store.hard_delete_item(id);
    CommandResponse::success(deleted)
}

/// The items that pass the filter, newest first.
pub fn datastore_query_items(store: &Store, filter: &ItemFilter) -> (r: CommandResponse<Vec<Item>>)
    requires
        store.wf(),
    ensures
        r.success,
        r.error is None,
        r.data is Some,
        query_result(*filter, store.items(), r.data->0@.map_values(|it: Item| it@)),
{
    CommandResponse::success(store.query_items(filter))
}

/// Unlinks an item from a tag; the data tells whether they were linked.
pub fn datastore_untag_item(store: &mut Store, item_id: &str, tag_id: &str) -> (r: CommandResponse<
    bool,
>)
    requires
        old(store).wf(),
    ensures
        final(store).wf(),
        r.success,
        r.error is None,
        r.data == Some(has_link(old(store).links(), item_id@, tag_id@)),
        final(store).items() == old(store).items(),
        final(store).tags() == old(store).tags(),
{
    let removed = store.untag_item(item_id, tag_id);
    CommandResponse::success(removed)
}

/// The tags of an item.
pub fn datastore_get_item_tags(store: &Store, item_id: &str) -> (r: CommandResponse<Vec<Tag>>)
    requires
        store.wf(),
    ensures
        r.success,
        r.error is None,
        r.data is Some,
        r.data->0@.map_values(|t: Tag| t@) == tags_of_item(store.links(), store.tags(), item_id@),
{
    CommandResponse::success(store.get_item_tags(item_id))
}

/// The live items linked to a tag.
pub fn datastore_get_items_by_tag(store: &Store, tag_id: &str) -> (r: CommandResponse<Vec<Item>>)
    requires
        store.wf(),
    ensures
        r.success,
        r.error is None,
        r.data is Some,
        r.data->0@.map_values(|it: Item| it@) == items_of_tag(store.links(), store.items(), tag_id@),
{
    CommandResponse::success(store.get_items_by_tag(tag_id))
}

} // verus!
