//! The item/tag store: the only owner of local state.
//!
//! Three tables are kept: items, tags and the links between them. The store
//! keeps these facts as its well-formedness invariant:
//! - item ids, tag ids and link ids are unique;
//! - at most one live (not soft-deleted) item carries a given non-empty sync id;
//! - tag names are unique up to ASCII case;
//! - a tag's cached frecency score is the one recomputed from its frequency
//!   and last use alone;
//! - an (item, tag) pair is linked at most once.
use vstd::prelude::*;

use crate::frecency::{calculate_frecency, frecency_spec, MAX_FREQUENCY};
use crate::model::{
    copy_string_opt, names_match, opt_view, same_name, str_eq, Item, ItemFilter, ItemOptions, ItemTag,
    ItemTagView, ItemView, Tag, TagView,
};
use crate::frecency::lemma_no_decay_at_zero_elapsed;
use crate::text::{generate_id, has_prefix, push_char, slug_of, slugify_tag_name, trim, trim_of};

verus! {

/// Why a mutation of the store was refused.
#[derive(Debug, Clone, Copy, PartialEq, Eq, Structural)]
pub enum StoreError {
    /// Bad input, rejected before any change.
    Validation,
    /// A relational constraint would be broken (a duplicate key, a link to a
    /// missing row, a counter at its limit).
    Storage,
}

pub open spec fn valid_item_type(t: Seq<char>) -> bool {
    t == "url"@ || t == "text"@ || t == "tagset"@ || t == "image"@
}

/// Whether `t` names one of the item kinds: url, text, tagset or image.
pub fn is_valid_item_type(t: &str) -> (r: bool)
    ensures
        r == valid_item_type(t@),
{
    str_eq(t, "url") || str_eq(t, "text") || str_eq(t, "tagset") || str_eq(t, "image")
}

pub open spec fn is_live(it: ItemView) -> bool {
    it.deleted_at == 0
}

pub open spec fn item_ids_unique(s: Seq<ItemView>) -> bool {
    forall|i: int, j: int|
        0 <= i < s.len() && 0 <= j < s.len() && i != j ==> #[trigger] s[i].id != #[trigger] s[j].id
}

pub open spec fn live_sync_ids_unique(s: Seq<ItemView>) -> bool {
    forall|i: int, j: int|
        0 <= i < s.len() && 0 <= j < s.len() && i != j && is_live(#[trigger] s[i]) && is_live(
            #[trigger] s[j],
        ) && s[i].sync_id.len() > 0 ==> s[i].sync_id != s[j].sync_id
}

pub open spec fn tag_score_cached(t: TagView) -> bool {
    &&& 0 <= t.frequency <= MAX_FREQUENCY
    &&& t.frecency_score == frecency_spec(t.frequency, t.last_used_at, t.last_used_at)
}

pub open spec fn tags_wf(s: Seq<TagView>) -> bool {
    &&& forall|i: int, j: int|
        0 <= i < s.len() && 0 <= j < s.len() && i != j ==> #[trigger] s[i].id != #[trigger] s[j].id
    &&& forall|i: int, j: int|
        0 <= i < s.len() && 0 <= j < s.len() && i != j ==> !same_name(
            #[trigger] s[i].name,
            #[trigger] s[j].name,
        )
    &&& forall|i: int| 0 <= i < s.len() ==> tag_score_cached(#[trigger] s[i])
}

pub open spec fn links_wf(s: Seq<ItemTagView>) -> bool {
    &&& forall|i: int, j: int|
        0 <= i < s.len() && 0 <= j < s.len() && i != j ==> #[trigger] s[i].id != #[trigger] s[j].id
    &&& forall|i: int, j: int|
        0 <= i < s.len() && 0 <= j < s.len() && i != j ==> (#[trigger] s[i].item_id != #[trigger] s[j].item_id
            || s[i].tag_id != s[j].tag_id)
}

/// The item that `add_item` stores.
pub open spec fn new_item_view(
    id: Seq<char>,
    item_type: Seq<char>,
    options: ItemOptions,
    now: int,
) -> ItemView {
    ItemView {
        id,
        item_type,
        content: opt_view(options.content),
        mime_type: match options.mime_type {
            Some(m) => m@,
            None => Seq::empty(),
        },
        metadata: match options.metadata {
            Some(m) => m@,
            None => "{}"@,
        },
        sync_id: Seq::empty(),
        sync_source: Seq::empty(),
        created_at: now,
        updated_at: now,
        deleted_at: 0,
        synced_at: 0,
        starred: match options.starred {
            Some(v) => v as int,
            None => 0,
        },
        archived: match options.archived {
            Some(v) => v as int,
            None => 0,
        },
    }
}

/// The item after `update_item`: each supplied field overwrites, the sync
/// fields are left alone, and `updated_at` becomes `now`.
pub open spec fn updated_item_view(it: ItemView, o: ItemOptions, now: int) -> ItemView {
    ItemView {
        content: match o.content {
            Some(c) => Some(c@),
            None => it.content,
        },
        mime_type: match o.mime_type {
            Some(m) => m@,
            None => it.mime_type,
        },
        metadata: match o.metadata {
            Some(m) => m@,
            None => it.metadata,
        },
        starred: match o.starred {
            Some(v) => v as int,
            None => it.starred,
        },
        archived: match o.archived {
            Some(v) => v as int,
            None => it.archived,
        },
        updated_at: now,
        ..it
    }
}

pub open spec fn soft_deleted_view(it: ItemView, now: int) -> ItemView {
    ItemView { deleted_at: now, updated_at: now, ..it }
}

/// An item with this id exists, live or not.
pub open spec fn has_item(s: Seq<ItemView>, id: Seq<char>) -> bool {
    exists|k: int| 0 <= k < s.len() && #[trigger] s[k].id == id
}

/// A live item with this id exists.
pub open spec fn has_live_item(s: Seq<ItemView>, id: Seq<char>) -> bool {
    exists|k: int| 0 <= k < s.len() && #[trigger] s[k].id == id && is_live(s[k])
}

pub open spec fn has_tag(s: Seq<TagView>, id: Seq<char>) -> bool {
    exists|k: int| 0 <= k < s.len() && #[trigger] s[k].id == id
}

pub open spec fn has_link(s: Seq<ItemTagView>, item_id: Seq<char>, tag_id: Seq<char>) -> bool {
    exists|k: int| 0 <= k < s.len() && #[trigger] s[k].item_id == item_id && s[k].tag_id == tag_id
}

/// A tag whose name is `key` up to ASCII case exists.
pub open spec fn has_tag_named(s: Seq<TagView>, key: Seq<char>) -> bool {
    exists|k: int| 0 <= k < s.len() && same_name(#[trigger] s[k].name, key)
}

/// The tag that `get_or_create_tag` creates for `name`.
pub open spec fn new_tag_view(id: Seq<char>, name: Seq<char>, now: int) -> TagView {
    TagView {
        id,
        name: trim_of(name),
        slug: Some(slug_of(name)),
        color: "#999999"@,
        parent_id: Seq::empty(),
        description: Seq::empty(),
        metadata: "{}"@,
        created_at: now,
        updated_at: now,
        frequency: 0,
        last_used_at: 0,
        frecency_score: 0,
    }
}

/// The frequency after one more use; it stays at the largest frequency
/// once there.
pub open spec fn next_frequency(f: int) -> int {
    if f < MAX_FREQUENCY {
        f + 1
    } else {
        f
    }
}

/// A tag after one more use at `now`.
pub open spec fn used_tag_view(t: TagView, now: int) -> TagView {
    TagView {
        frequency: next_frequency(t.frequency),
        last_used_at: now,
        frecency_score: next_frequency(t.frequency) * 10,
        updated_at: now,
        ..t
    }
}

/// The tag with this id (meaningful when `has_tag` holds).
pub open spec fn tag_with_id(s: Seq<TagView>, id: Seq<char>) -> TagView {
    s[choose|k: int| 0 <= k < s.len() && #[trigger] s[k].id == id]
}

/// The item with this id (meaningful when `has_item` holds).
pub open spec fn item_with_id(s: Seq<ItemView>, id: Seq<char>) -> ItemView {
    s[choose|k: int| 0 <= k < s.len() && #[trigger] s[k].id == id]
}

/// The tags of an item, one per link of the item, in link order.
pub open spec fn tags_of_item(links: Seq<ItemTagView>, tags: Seq<TagView>, item_id: Seq<char>) -> Seq<
    TagView,
>
    decreases links.len(),
{
    if links.len() == 0 {
        Seq::empty()
    } else {
        let rest = tags_of_item(links.drop_last(), tags, item_id);
        let l = links.last();
        if l.item_id == item_id && has_tag(tags, l.tag_id) {
            rest.push(tag_with_id(tags, l.tag_id))
        } else {
            rest
        }
    }
}

/// The live items linked to a tag, one per link of the tag, in link order.
pub open spec fn items_of_tag(links: Seq<ItemTagView>, items: Seq<ItemView>, tag_id: Seq<char>) -> Seq<
    ItemView,
>
    decreases links.len(),
{
    if links.len() == 0 {
        Seq::empty()
    } else {
        let rest = items_of_tag(links.drop_last(), items, tag_id);
        let l = links.last();
        if l.tag_id == tag_id && has_live_item(items, l.item_id) {
            rest.push(item_with_id(items, l.item_id))
        } else {
            rest
        }
    }
}

pub open spec fn include_deleted(f: ItemFilter) -> bool {
    f.include_deleted == Some(true)
}

/// An item passes the filter: live unless deleted ones are asked for, and of
/// the asked type, starred and archived state.
pub open spec fn matches_filter(f: ItemFilter, it: ItemView) -> bool {
    &&& include_deleted(f) || is_live(it)
    &&& match f.item_type {
        Some(t) => it.item_type == t@,
        None => true,
    }
    &&& match f.starred {
        Some(v) => it.starred == v,
        None => true,
    }
    &&& match f.archived {
        Some(v) => it.archived == v,
        None => true,
    }
}

pub open spec fn by_updated(f: ItemFilter) -> bool {
    match f.sort_by {
        Some(s) => s@ == "updated"@,
        None => false,
    }
}

/// The key that `query_items` orders by, newest first.
pub open spec fn sort_key(f: ItemFilter, it: ItemView) -> int {
    if by_updated(f) {
        it.updated_at
    } else {
        it.created_at
    }
}

pub open spec fn sorted_desc(f: ItemFilter, s: Seq<ItemView>) -> bool {
    forall|i: int, j: int| 0 <= i < j < s.len() ==> sort_key(f, #[trigger] s[i]) >= sort_key(f, #[trigger] s[j])
}

/// The items that pass the filter, in store order.
pub open spec fn matching(f: ItemFilter, items: Seq<ItemView>) -> Seq<ItemView> {
    items.filter(|it: ItemView| matches_filter(f, it))
}

/// How many items a query returns out of `n` matches.
pub open spec fn limited_len(f: ItemFilter, n: int) -> int {
    match f.limit {
        Some(l) => if 0 <= l && l < n {
            l as int
        } else {
            n
        },
        None => n,
    }
}

/// A live item carries this sync id.
pub open spec fn has_live_sync_id(s: Seq<ItemView>, sid: Seq<char>) -> bool {
    exists|k: int| 0 <= k < s.len() && is_live(#[trigger] s[k]) && s[k].sync_id == sid
}

/// The item that a pull creates for a remote item with no local match: it
/// starts in the synced state, with the remote timestamps.
pub open spec fn pulled_item_view(
    id: Seq<char>,
    item_type: Seq<char>,
    content: Option<Seq<char>>,
    metadata: Option<Seq<char>>,
    sync_id: Seq<char>,
    created_at: int,
    updated_at: int,
    now: int,
) -> ItemView {
    ItemView {
        id,
        item_type,
        content,
        mime_type: Seq::empty(),
        metadata: match metadata {
            Some(m) => m,
            None => "{}"@,
        },
        sync_id,
        sync_source: "server"@,
        created_at,
        updated_at,
        deleted_at: 0,
        synced_at: now,
        starred: 0,
        archived: 0,
    }
}

/// A local item overwritten by a newer remote version, as a whole record:
/// the remote content replaces the local one (an absent remote content
/// included), the remote metadata replaces the local one (`{}` when the
/// remote has none), and the remote update time is taken.
pub open spec fn overwritten_view(
    it: ItemView,
    content: Option<Seq<char>>,
    metadata: Option<Seq<char>>,
    updated_at: int,
    now: int,
) -> ItemView {
    ItemView {
        content,
        metadata: match metadata {
            Some(m) => m,
            None => "{}"@,
        },
        updated_at,
        synced_at: now,
        ..it
    }
}

/// The item after the server acknowledged a push of it.
pub open spec fn pushed_view(it: ItemView, remote_id: Seq<char>, now: int) -> ItemView {
    ItemView { sync_id: remote_id, sync_source: "server"@, synced_at: now, ..it }
}

/// A tag named `name` (trimmed, up to ASCII case) is linked to the item.
pub open spec fn tag_attached(
    tags: Seq<TagView>,
    links: Seq<ItemTagView>,
    item_id: Seq<char>,
    name: Seq<char>,
) -> bool {
    exists|k: int|
        0 <= k < tags.len() && same_name(#[trigger] tags[k].name, trim_of(name)) && has_link(
            links,
            item_id,
            tags[k].id,
        )
}

/// The tag with id `tag_id` is one of the named tags (trimmed, up to ASCII
/// case).
pub open spec fn tag_is_named(tags: Seq<TagView>, tag_id: Seq<char>, names: Seq<String>) -> bool {
    exists|j: int, k: int|
        0 <= j < names.len() && 0 <= k < tags.len() && #[trigger] tags[k].id == tag_id && same_name(
            tags[k].name,
            trim_of(#[trigger] names[j]@),
        )
}

/// Saved rows that a store can hold: they meet the store's invariant.
pub open spec fn rows_valid(items: Seq<ItemView>, tags: Seq<TagView>, links: Seq<ItemTagView>) -> bool {
    item_ids_unique(items) && live_sync_ids_unique(items) && tags_wf(tags) && links_wf(links)
}

/// A link that setting an item's tags to `names` keeps: a link of another
/// item, or one to a named tag.
pub open spec fn link_kept(
    l: ItemTagView,
    item_id: Seq<char>,
    tags: Seq<TagView>,
    names: Seq<String>,
) -> bool {
    l.item_id != item_id || tag_is_named(tags, l.tag_id, names)
}

/// Never synced: no remote identifier yet.
pub open spec fn is_local_only(it: ItemView) -> bool {
    it.sync_id.len() == 0
}

/// Synced once, then changed locally.
pub open spec fn is_local_dirty(it: ItemView) -> bool {
    it.sync_id.len() > 0 && it.updated_at > it.synced_at
}

/// Synced, with no local change since.
pub open spec fn is_synced(it: ItemView) -> bool {
    it.sync_id.len() > 0 && it.sync_source == "server"@ && it.updated_at <= it.synced_at
}

/// A live item that the server does not have in its current form.
pub open spec fn is_pending(it: ItemView) -> bool {
    is_live(it) && (is_local_only(it) || is_local_dirty(it))
}

/// The items that a push sends: live items never synced, and, once a sync
/// has happened (`watermark > 0`), live items changed since their last sync.
pub open spec fn to_push(it: ItemView, watermark: int) -> bool {
    is_live(it) && (is_local_only(it) || (watermark > 0 && is_local_dirty(it)))
}

pub open spec fn pending_in(s: Seq<ItemView>) -> Seq<ItemView> {
    s.filter(|it: ItemView| is_pending(it))
}

/// What `add_item(item_type, options, now)` does, from store `a` to store
/// `b` with result `r`.
pub open spec fn add_item_post(
    a: Store,
    b: Store,
    item_type: Seq<char>,
    options: ItemOptions,
    now: int,
    r: Result<String, StoreError>,
) -> bool {
    &&& b.wf()
    &&& !valid_item_type(item_type) ==> r == Err::<String, StoreError>(StoreError::Validation)
        && b.items() == a.items()
    &&& valid_item_type(item_type) ==> r is Ok
    &&& r matches Ok(id) ==> {
        &&& !has_item(a.items(), id@)
        &&& has_prefix(id@, "item_"@)
        &&& b.items() == a.items().push(new_item_view(id@, item_type, options, now))
    }
    &&& b.tags() == a.tags()
    &&& b.links() == a.links()
}

/// What `delete_item(id, now)` does, from store `a` to store `b` with result
/// `r`.
pub open spec fn delete_item_post(a: Store, b: Store, id: Seq<char>, now: int, r: bool) -> bool {
    &&& b.wf()
    &&& r == has_live_item(a.items(), id)
    &&& r ==> forall|k: int|
        0 <= k < a.items().len() && a.items()[k].id == id ==> b.items() == a.items().update(
            k,
            soft_deleted_view(a.items()[k], now),
        )
    &&& !r ==> b.items() == a.items()
    &&& b.tags() == a.tags()
    &&& b.links() == a.links()
}

/// What `tag_item(item_id, tag_id, now)` does, from store `a` to store `b`
/// with result `r`.
pub open spec fn tag_item_post(
    a: Store,
    b: Store,
    item_id: Seq<char>,
    tag_id: Seq<char>,
    now: int,
    r: Result<(ItemTag, bool), StoreError>,
) -> bool {
    &&& b.wf()
    &&& b.items() == a.items()
    &&& has_link(a.links(), item_id, tag_id) ==> (r matches Ok((l, true)) && (b.links()
        == a.links() && b.tags() == a.tags() && a.links().contains(l@) && l@.item_id == item_id
        && l@.tag_id == tag_id))
    &&& !has_link(a.links(), item_id, tag_id) && (!has_item(a.items(), item_id) || !has_tag(
        a.tags(),
        tag_id,
    )) ==> r == Err::<(ItemTag, bool), StoreError>(StoreError::Storage)
    &&& r is Err ==> b.links() == a.links() && b.tags() == a.tags()
    &&& r matches Ok((l, false)) ==> {
        &&& !has_link(a.links(), item_id, tag_id)
        &&& l@.item_id == item_id && l@.tag_id == tag_id && l@.created_at == now
        &&& has_prefix(l@.id, "item_tag_"@)
        &&& b.links() == a.links().push(l@)
        &&& forall|k: int|
            0 <= k < a.tags().len() && a.tags()[k].id == tag_id ==> b.tags() == a.tags().update(
                k,
                used_tag_view(a.tags()[k], now),
            )
    }
    &&& !has_link(a.links(), item_id, tag_id) && has_item(a.items(), item_id) && has_tag(
        a.tags(),
        tag_id,
    ) ==> (r matches Ok((_, false)))
}

/// `r` is what `query_items(f)` returns on `items`: the first items of an
/// arrangement of all matches, newest first.
pub open spec fn query_result(f: ItemFilter, items: Seq<ItemView>, r: Seq<ItemView>) -> bool {
    exists|s: Seq<ItemView>|
        {
            &&& sorted_desc(f, s)
            &&& s.to_multiset() == matching(f, items).to_multiset()
            &&& r == s.take(limited_len(f, s.len() as int))
        }
}

/// `r` is what `get_item(id)` returns on store `a`: the live item with
/// that id, if any.
pub open spec fn get_item_post(a: Store, id: Seq<char>, r: Option<Item>) -> bool {
    &&& r is Some <==> has_live_item(a.items(), id)
    &&& r matches Some(it) ==> exists|k: int|
        0 <= k < a.items().len() && a.items()[k] == it@ && it@.id == id && is_live(it@)
}

/// What `get_or_create_tag(name, now)` does, from store `a` to store `b`,
/// returning `tag` and whether it was `created`.
pub open spec fn get_or_create_tag_post(
    a: Store,
    b: Store,
    name: Seq<char>,
    now: int,
    tag: TagView,
    created: bool,
) -> bool {
    &&& b.wf()
    &&& b.items() == a.items()
    &&& b.links() == a.links()
    &&& created == !has_tag_named(a.tags(), trim_of(name))
    &&& !created ==> b.tags() == a.tags() && exists|k: int|
        0 <= k < a.tags().len() && a.tags()[k] == tag && same_name(tag.name, trim_of(name))
    &&& created ==> !has_tag(a.tags(), tag.id) && has_prefix(tag.id, "tag_"@) && tag == new_tag_view(
        tag.id,
        name,
        now,
    )
        && b.tags() == a.tags().push(tag)
}

/// The local store of items, tags and links.
pub struct Store {
    items: Vec<Item>,
    tags: Vec<Tag>,
    links: Vec<ItemTag>,
}

impl Store {
    pub closed spec fn items(&self) -> Seq<ItemView> {
        self.items@.map_values(|it: Item| it@)
    }

    pub closed spec fn tags(&self) -> Seq<TagView> {
        self.tags@.map_values(|t: Tag| t@)
    }

    pub closed spec fn links(&self) -> Seq<ItemTagView> {
        self.links@.map_values(|l: ItemTag| l@)
    }

    pub open spec fn wf(&self) -> bool {
        &&& item_ids_unique(self.items())
        &&& live_sync_ids_unique(self.items())
        &&& tags_wf(self.tags())
        &&& links_wf(self.links())
    }

    /// An empty store.
    pub fn new() -> (r: Store)
        ensures
            r.wf(),
            r.items() == Seq::<ItemView>::empty(),
            r.tags() == Seq::<TagView>::empty(),
            r.links() == Seq::<ItemTagView>::empty(),
    {
        let r = Store { items: Vec::new(), tags: Vec::new(), links: Vec::new() };
        assert(r.items() =~= Seq::<ItemView>::empty());
        assert(r.tags() =~= Seq::<TagView>::empty());
        assert(r.links() =~= Seq::<ItemTagView>::empty());
        r
    }

    /// Index of the item with this id, live or not.
    fn find_item(&self, id: &str) -> (r: Option<usize>)
        ensures
            match r {
                Some(k) => k < self.items().len() && self.items()[k as int].id == id@,
                None => !has_item(self.items(), id@),
            },
    {
        let n: usize = self.items.len();
        let mut i: usize = 0;
        while i < n
            invariant
                n == self.items@.len(),
                0 <= i <= n,
                forall|k: int| 0 <= k < i ==> self.items()[k].id != id@,
            decreases n - i,
        {
            if str_eq(self.items[i].id.as_str(), id) {
                return Some(i);
            }
            i = i + 1;
        }
        None
    }

    /// Index of the tag with this id.
    fn find_tag(&self, id: &str) -> (r: Option<usize>)
        ensures
            match r {
                Some(k) => k < self.tags().len() && self.tags()[k as int].id == id@,
                None => !has_tag(self.tags(), id@),
            },
    {
        let n: usize = self.tags.len();
        let mut i: usize = 0;
        while i < n
            invariant
                n == self.tags@.len(),
                0 <= i <= n,
                forall|k: int| 0 <= k < i ==> self.tags()[k].id != id@,
            decreases n - i,
        {
            if str_eq(self.tags[i].id.as_str(), id) {
                return Some(i);
            }
            i = i + 1;
        }
        None
    }

    /// Index of the link between this item and this tag.
    fn find_link(&self, item_id: &str, tag_id: &str) -> (r: Option<usize>)
        ensures
            match r {
                Some(k) => k < self.links().len() && self.links()[k as int].item_id == item_id@
                    && self.links()[k as int].tag_id == tag_id@,
                None => !has_link(self.links(), item_id@, tag_id@),
            },
    {
        let n: usize = self.links.len();
        let mut i: usize = 0;
        while i < n
            invariant
                n == self.links@.len(),
                0 <= i <= n,
                forall|k: int|
                    0 <= k < i ==> !(self.links()[k].item_id == item_id@ && self.links()[k].tag_id
                        == tag_id@),
            decreases n - i,
        {
            if str_eq(self.links[i].item_id.as_str(), item_id) && str_eq(
                self.links[i].tag_id.as_str(),
                tag_id,
            ) {
                return Some(i);
            }
            i = i + 1;
        }
        None
    }

    /// Stores a new item of the given type and returns its id. Fails with a
    /// validation error, changing nothing, when the type is not one of url,
    /// text, tagset or image. The new item is live, never synced, and was
    /// created and updated at `now`.
    pub fn add_item(&mut self, item_type: &str, options: &ItemOptions, now: i64) -> (r: Result<
        String,
        StoreError,
    >)
        requires
            old(self).wf(),
        ensures
            add_item_post(*old(self), *final(self), item_type@, *options, now as int, r),
    {
        if !is_valid_item_type(item_type) {
            return Err(StoreError::Validation);
        }
        let id = self.fresh_item_id();
        let item = Item {
            id: id.clone(),
            item_type: item_type.to_owned(),
            content: copy_string_opt(&options.content),
            mime_type: match &options.mime_type {
                Some(m) => m.clone(),
                None => String::new(),
            },
            metadata: match &options.metadata {
                Some(m) => m.clone(),
                None => "{}".to_owned(),
            },
            sync_id: String::new(),
            sync_source: String::new(),
            created_at: now,
            updated_at: now,
            deleted_at: 0,
            synced_at: 0,
            starred: match options.starred {
                Some(v) => v,
                None => 0,
            },
            archived: match options.archived {
                Some(v) => v,
                None => 0,
            },
        };
        self.push_item(item);
        Ok(id)
    }

    /// Appends an item whose id is fresh and whose sync id, if any, no live
    /// item carries.
    fn push_item(&mut self, item: Item)
        requires
            old(self).wf(),
            !has_item(old(self).items(), item@.id),
            is_live(item@) && item@.sync_id.len() > 0 ==> forall|k: int|
                0 <= k < old(self).items().len() && is_live(old(self).items()[k])
                    ==> old(self).items()[k].sync_id != item@.sync_id,
        ensures
            final(self).wf(),
            final(self).items() == old(self).items().push(item@),
            final(self).tags() == old(self).tags(),
            final(self).links() == old(self).links(),
    {
        let ghost v = item@;
        self.items.push(item);
        assert(self.items() =~= old(self).items().push(v));
    }

    /// The live item with this id, if any.
    pub fn get_item(&self, id: &str) -> (r: Option<Item>)
        requires
            self.wf(),
        ensures
            get_item_post(*self, id@, r),
    {
        match self.find_item(id) {
            Some(k) => {
                if self.items[k].deleted_at == 0 {
                    Some(self.items[k].copy())
                } else {
                    assert(!has_live_item(self.items(), id@));
                    None
                }
            },
            None => None,
        }
    }

    /// Overwrites the supplied fields of the live item with this id and sets
    /// its `updated_at` to `now`, also when no field is supplied. Returns
    /// false, changing nothing, when no live item has this id. The sync
    /// fields are never touched here.
    pub fn update_item(&mut self, id: &str, options: &ItemOptions, now: i64) -> (r: bool)
        requires
            old(self).wf(),
        ensures
            final(self).wf(),
            r == has_live_item(old(self).items(), id@),
            r ==> forall|k: int|
                0 <= k < old(self).items().len() && old(self).items()[k].id == id@
                    ==> final(self).items() == old(self).items().update(
                    k,
                    updated_item_view(old(self).items()[k], *options, now as int),
                ),
            !r ==> final(self).items() == old(self).items(),
            final(self).tags() == old(self).tags(),
            final(self).links() == old(self).links(),
    {
        let k = match self.find_item(id) {
            Some(k) => k,
            None => {
                return false;
            },
        };
        if self.items[k].deleted_at != 0 {
            return false;
        }
        let old_item = self.items[k].copy();
        let item = Item {
            content: match &options.content {
                Some(c) => Some(c.clone()),
                None => copy_string_opt(&old_item.content),
            },
            mime_type: match &options.mime_type {
                Some(m) => m.clone(),
                None => old_item.mime_type.clone(),
            },
            metadata: match &options.metadata {
                Some(m) => m.clone(),
                None => old_item.metadata.clone(),
            },
            starred: match options.starred {
                Some(v) => v,
                None => old_item.starred,
            },
            archived: match options.archived {
                Some(v) => v,
                None => old_item.archived,
            },
            updated_at: now,
            ..old_item
        };
        self.replace_item(k, item);
        true
    }

    /// Replaces the item at `k` by one with the same id, sync id and
    /// deletion state.
    fn replace_item(&mut self, k: usize, item: Item)
        requires
            old(self).wf(),
            k < old(self).items().len(),
            item@.id == old(self).items()[k as int].id,
            item@.sync_id == old(self).items()[k as int].sync_id,
            item@.deleted_at == old(self).items()[k as int].deleted_at,
        ensures
            final(self).wf(),
            final(self).items() == old(self).items().update(k as int, item@),
            final(self).tags() == old(self).tags(),
            final(self).links() == old(self).links(),
    {
        let ghost v = item@;
        self.items.set(k, item);
        assert(self.items() =~= old(self).items().update(k as int, v));
        assert forall|i: int, j: int|
            0 <= i < self.items().len() && 0 <= j < self.items().len() && i != j && is_live(
                #[trigger] self.items()[i],
            ) && is_live(#[trigger] self.items()[j]) && self.items()[i].sync_id.len()
                > 0 implies self.items()[i].sync_id != self.items()[j].sync_id by {
            assert(is_live(old(self).items()[i]) && is_live(old(self).items()[j]));
        }
    }

    /// Soft-deletes the live item with this id: `deleted_at` and
    /// `updated_at` become `now`; its tag links stay. Returns false,
    /// changing nothing, when no live item has this id.
    pub fn delete_item(&mut self, id: &str, now: i64) -> (r: bool)
        requires
            old(self).wf(),
            now > 0,
        ensures
            delete_item_post(*old(self), *final(self), id@, now as int, r),
    {
        let k = match self.find_item(id) {
            Some(k) => k,
            None => {
                return false;
            },
        };
        if self.items[k].deleted_at != 0 {
            return false;
        }
        let old_item = self.items[k].copy();
        let item = Item { deleted_at: now, updated_at: now, ..old_item };
        let ghost v = item@;
        self.items.set(k, item);
        assert(self.items() =~= old(self).items().update(k as int, v));
        assert forall|i: int, j: int|
            0 <= i < self.items().len() && 0 <= j < self.items().len() && i != j && is_live(
                #[trigger] self.items()[i],
            ) && is_live(#[trigger] self.items()[j]) && self.items()[i].sync_id.len()
                > 0 implies self.items()[i].sync_id != self.items()[j].sync_id by {
            assert(is_live(old(self).items()[i]) && is_live(old(self).items()[j]));
        }
        true
    }

    /// Physically removes the item with this id, live or not, and every link
    /// of that item. Returns whether an item was removed. Outside the sync
    /// protocol: nothing of it reaches the server.
    pub fn hard_delete_item(&mut self, id: &str) -> (r: bool)
        requires
            old(self).wf(),
        ensures
            final(self).wf(),
            r == has_item(old(self).items(), id@),
            r ==> forall|k: int|
                0 <= k < old(self).items().len() && old(self).items()[k].id == id@
                    ==> final(self).items() == old(self).items().remove(k),
            !r ==> final(self).items() == old(self).items(),
            final(self).tags() == old(self).tags(),
            forall|m: int|
                0 <= m < final(self).links().len() ==> #[trigger] final(self).links()[m].item_id
                    != id@ && old(self).links().contains(final(self).links()[m]),
            forall|j: int|
                0 <= j < old(self).links().len() && #[trigger] old(self).links()[j].item_id != id@
                    ==> final(self).links().contains(old(self).links()[j]),
    {
        self.remove_links_of_item(id);
        match self.find_item(id) {
            Some(k) => {
                let ghost before = self.items();
                self.items.remove(k);
                assert(self.items() =~= before.remove(k as int));
                assert forall|i: int, j: int|
                    0 <= i < self.items().len() && 0 <= j < self.items().len() && i
                        != j implies #[trigger] self.items()[i].id != #[trigger] self.items()[j].id by {
                    let oi = if i < k { i } else { i + 1 };
                    let oj = if j < k { j } else { j + 1 };
                    assert(self.items()[i] == before[oi]);
                    assert(self.items()[j] == before[oj]);
                }
                assert forall|i: int, j: int|
                    0 <= i < self.items().len() && 0 <= j < self.items().len() && i != j && is_live(
                        #[trigger] self.items()[i],
                    ) && is_live(#[trigger] self.items()[j]) && self.items()[i].sync_id.len()
                        > 0 implies self.items()[i].sync_id != self.items()[j].sync_id by {
                    let oi = if i < k { i } else { i + 1 };
                    let oj = if j < k { j } else { j + 1 };
                    assert(self.items()[i] == before[oi]);
                    assert(self.items()[j] == before[oj]);
                }
                true
            },
            None => false,
        }
    }

    /// Drops every link of the item with this id, keeping the others in order.
    fn remove_links_of_item(&mut self, id: &str)
        requires
            old(self).wf(),
        ensures
            final(self).wf(),
            final(self).items() == old(self).items(),
            final(self).tags() == old(self).tags(),
            forall|m: int|
                0 <= m < final(self).links().len() ==> #[trigger] final(self).links()[m].item_id
                    != id@ && old(self).links().contains(final(self).links()[m]),
            forall|j: int|
                0 <= j < old(self).links().len() && #[trigger] old(self).links()[j].item_id != id@
                    ==> final(self).links().contains(old(self).links()[j]),
    {
        let ghost links = self.links();
        let mut kept: Vec<ItemTag> = Vec::new();
        let ghost mut idx: Seq<int> = Seq::empty();
        let n: usize = self.links.len();
        let mut i: usize = 0;
        while i < n
            invariant
                n == self.links@.len(),
                links == self.links(),
                0 <= i <= n,
                idx.len() == kept@.len(),
                forall|m: int|
                    0 <= m < idx.len() ==> 0 <= #[trigger] idx[m] < i && kept@[m]@ == links[idx[m]]
                        && links[idx[m]].item_id != id@,
                forall|a: int, b: int| 0 <= a < b < idx.len() ==> #[trigger] idx[a] < #[trigger] idx[b],
                forall|j: int|
                    0 <= j < i && #[trigger] links[j].item_id != id@ ==> exists|m: int|
                        0 <= m < idx.len() && idx[m] == j,
            decreases n - i,
        {
            if !str_eq(self.links[i].item_id.as_str(), id) {
                let l = self.links[i].copy();
                kept.push(l);
                let ghost old_idx = idx;
                proof {
                    idx = idx.push(i as int);
                }
                assert forall|j: int|
                    0 <= j < i + 1 && #[trigger] links[j].item_id != id@ implies exists|m: int|
                    0 <= m < idx.len() && idx[m] == j by {
                    if j == i {
                        assert(idx[idx.len() - 1] == j);
                    } else {
                        let m = choose|m: int| 0 <= m < old_idx.len() && old_idx[m] == j;
                        assert(idx[m] == j);
                    }
                }
            }
            i = i + 1;
        }
        self.links = kept;
        assert forall|m: int| 0 <= m < self.links().len() implies #[trigger] self.links()[m].item_id
            != id@ && links.contains(self.links()[m]) by {
            assert(self.links()[m] == links[idx[m]]);
        }
        assert forall|j: int| 0 <= j < links.len() && #[trigger] links[j].item_id != id@ implies self.links().contains(links[j]) by {
            let m = choose|m: int| 0 <= m < idx.len() && idx[m] == j;
            assert(self.links()[m] == links[j]);
        }
        assert forall|a: int, b: int|
            0 <= a < self.links().len() && 0 <= b < self.links().len() && a
                != b implies #[trigger] self.links()[a].id != #[trigger] self.links()[b].id by {
            assert(self.links()[a] == links[idx[a]]);
            assert(self.links()[b] == links[idx[b]]);
            if a < b {
                assert(idx[a] < idx[b]);
            } else {
                assert(idx[b] < idx[a]);
            }
        }
        assert forall|a: int, b: int|
            0 <= a < self.links().len() && 0 <= b < self.links().len() && a
                != b implies (#[trigger] self.links()[a].item_id != #[trigger] self.links()[b].item_id
            || self.links()[a].tag_id != self.links()[b].tag_id) by {
            assert(self.links()[a] == links[idx[a]]);
            assert(self.links()[b] == links[idx[b]]);
            if a < b {
                assert(idx[a] < idx[b]);
            } else {
                assert(idx[b] < idx[a]);
            }
        }
    }

    /// Index of the tag whose name is `key` up to ASCII case.
    fn find_tag_named(&self, key: &str) -> (r: Option<usize>)
        ensures
            match r {
                Some(k) => k < self.tags().len() && same_name(self.tags()[k as int].name, key@),
                None => !has_tag_named(self.tags(), key@),
            },
    {
        let n: usize = self.tags.len();
        let mut i: usize = 0;
        while i < n
            invariant
                n == self.tags@.len(),
                0 <= i <= n,
                forall|k: int| 0 <= k < i ==> !same_name(self.tags()[k].name, key@),
            decreases n - i,
        {
            if names_match(self.tags[i].name.as_str(), key) {
                return Some(i);
            }
            i = i + 1;
        }
        None
    }

    /// The tag named `name` (trimmed, matched up to ASCII case), created
    /// with frequency and score zero when there is none. The flag tells
    /// whether it was created.
    pub fn get_or_create_tag(&mut self, name: &str, now: i64) -> (r: (Tag, bool))
        requires
            old(self).wf(),
        ensures
            get_or_create_tag_post(*old(self), *final(self), name@, now as int, r.0@, r.1),
    {
        let key = trim(name);
        match self.find_tag_named(key.as_str()) {
            Some(k) => {
                return (self.tags[k].copy(), false);
            },
            None => {},
        }
        let id = self.fresh_tag_id();
        let tag = Tag {
            id,
            name: key,
            slug: Some(slugify_tag_name(name)),
            color: "#999999".to_owned(),
            parent_id: String::new(),
            description: String::new(),
            metadata: "{}".to_owned(),
            created_at: now,
            updated_at: now,
            frequency: 0,
            last_used_at: 0,
            frecency_score: 0,
        };
        let ghost v = tag@;
        proof {
            lemma_no_decay_at_zero_elapsed(0, 0);
        }
        let out = tag.copy();
        self.tags.push(tag);
        assert(self.tags() =~= old(self).tags().push(v));
        (out, true)
    }

    /// Links an item to a tag. On first link the tag's frequency grows by one
    /// (up to the largest frequency), its last use becomes `now` and its score
    /// is recomputed; a repeated call changes nothing and reports that the
    /// link already existed. Linking to a missing item or tag is a storage
    /// error that changes nothing.
    pub fn tag_item(&mut self, item_id: &str, tag_id: &str, now: i64) -> (r: Result<
        (ItemTag, bool),
        StoreError,
    >)
        requires
            old(self).wf(),
        ensures
            tag_item_post(*old(self), *final(self), item_id@, tag_id@, now as int, r),
    {
        match self.find_link(item_id, tag_id) {
            Some(k) => {
                return Ok((self.links[k].copy(), true));
            },
            None => {},
        }
        if self.find_item(item_id).is_none() {
            return Err(StoreError::Storage);
        }
        let t = match self.find_tag(tag_id) {
            Some(t) => t,
            None => {
                return Err(StoreError::Storage);
            },
        };
        let link = ItemTag {
            id: self.fresh_link_id(),
            item_id: item_id.to_owned(),
            tag_id: tag_id.to_owned(),
            created_at: now,
        };
        let frequency = if self.tags[t].frequency < MAX_FREQUENCY {
            self.tags[t].frequency + 1
        } else {
            self.tags[t].frequency
        };
        let score = calculate_frecency(frequency, now, now);
        let old_tag = self.tags[t].copy();
        let tag = Tag {
            frequency,
            last_used_at: now,
            frecency_score: score,
            updated_at: now,
            ..old_tag
        };
        let ghost tv = tag@;
        let ghost lv = link@;
        self.tags.set(t, tag);
        assert(self.tags() =~= old(self).tags().update(t as int, tv));
        assert(tv == used_tag_view(old(self).tags()[t as int], now as int));
        let out = link.copy();
        self.links.push(link);
        assert(self.links() =~= old(self).links().push(lv));
        assert forall|i: int, j: int|
            0 <= i < self.tags().len() && 0 <= j < self.tags().len() && i
                != j implies !same_name(#[trigger] self.tags()[i].name, #[trigger] self.tags()[j].name) by {
            assert(self.tags()[i].name == old(self).tags()[i].name);
            assert(self.tags()[j].name == old(self).tags()[j].name);
        }
        assert forall|i: int, j: int|
            0 <= i < self.tags().len() && 0 <= j < self.tags().len() && i
                != j implies #[trigger] self.tags()[i].id != #[trigger] self.tags()[j].id by {
            assert(self.tags()[i].id == old(self).tags()[i].id);
            assert(self.tags()[j].id == old(self).tags()[j].id);
        }
        Ok((out, false))
    }

    /// Removes the link between this item and this tag; the tag's frequency
    /// is kept. Returns whether a link was removed.
    pub fn untag_item(&mut self, item_id: &str, tag_id: &str) -> (r: bool)
        requires
            old(self).wf(),
        ensures
            final(self).wf(),
            final(self).items() == old(self).items(),
            final(self).tags() == old(self).tags(),
            r == has_link(old(self).links(), item_id@, tag_id@),
            r ==> forall|k: int|
                0 <= k < old(self).links().len() && old(self).links()[k].item_id == item_id@
                    && old(self).links()[k].tag_id == tag_id@ ==> final(self).links() == old(
                    self,
                ).links().remove(k),
            !r ==> final(self).links() == old(self).links(),
    {
        match self.find_link(item_id, tag_id) {
            Some(k) => {
                let ghost before = self.links();
                self.links.remove(k);
                assert(self.links() =~= before.remove(k as int));
                assert forall|i: int, j: int|
                    0 <= i < self.links().len() && 0 <= j < self.links().len() && i
                        != j implies #[trigger] self.links()[i].id != #[trigger] self.links()[j].id by {
                    let oi = if i < k { i } else { i + 1 };
                    let oj = if j < k { j } else { j + 1 };
                    assert(self.links()[i] == before[oi]);
                    assert(self.links()[j] == before[oj]);
                }
                assert forall|i: int, j: int|
                    0 <= i < self.links().len() && 0 <= j < self.links().len() && i
                        != j implies (#[trigger] self.links()[i].item_id
                        != #[trigger] self.links()[j].item_id || self.links()[i].tag_id
                        != self.links()[j].tag_id) by {
                    let oi = if i < k { i } else { i + 1 };
                    let oj = if j < k { j } else { j + 1 };
                    assert(self.links()[i] == before[oi]);
                    assert(self.links()[j] == before[oj]);
                }
                assert forall|q: int|
                    0 <= q < before.len() && before[q].item_id == item_id@ && before[q].tag_id
                        == tag_id@ implies q == k by {}
                true
            },
            None => false,
        }
    }

    /// The tags linked to this item.
    pub fn get_item_tags(&self, item_id: &str) -> (r: Vec<Tag>)
        requires
            self.wf(),
        ensures
            r@.map_values(|t: Tag| t@) == tags_of_item(self.links(), self.tags(), item_id@),
    {
        let mut out: Vec<Tag> = Vec::new();
        let n: usize = self.links.len();
        let mut i: usize = 0;
        while i < n
            invariant
                self.wf(),
                n == self.links@.len(),
                0 <= i <= n,
                out@.map_values(|t: Tag| t@) == tags_of_item(
                    self.links().take(i as int),
                    self.tags(),
                    item_id@,
                ),
            decreases n - i,
        {
            let ghost prefix = self.links().take(i as int + 1);
            assert(prefix.drop_last() =~= self.links().take(i as int));
            assert(prefix.last() == self.links()[i as int]);
            if str_eq(self.links[i].item_id.as_str(), item_id) {
                match self.find_tag(self.links[i].tag_id.as_str()) {
                    Some(k) => {
                        let ghost tid = self.links()[i as int].tag_id;
                        assert(tag_with_id(self.tags(), tid) == self.tags()[k as int]) by {
                            let c = choose|c: int|
                                0 <= c < self.tags().len() && #[trigger] self.tags()[c].id == tid;
                            assert(self.tags()[c].id == self.tags()[k as int].id);
                        }
                        let ghost before = out@;
                        out.push(self.tags[k].copy());
                        assert(out@.map_values(|t: Tag| t@) =~= before.map_values(|t: Tag| t@).push(
                            self.tags()[k as int],
                        ));
                    },
                    None => {},
                }
            }
            i = i + 1;
        }
        assert(self.links().take(n as int) =~= self.links());
        out
    }

    /// The live items linked to this tag.
    pub fn get_items_by_tag(&self, tag_id: &str) -> (r: Vec<Item>)
        requires
            self.wf(),
        ensures
            r@.map_values(|it: Item| it@) == items_of_tag(self.links(), self.items(), tag_id@),
    {
        let mut out: Vec<Item> = Vec::new();
        let n: usize = self.links.len();
        let mut i: usize = 0;
        while i < n
            invariant
                self.wf(),
                n == self.links@.len(),
                0 <= i <= n,
                out@.map_values(|it: Item| it@) == items_of_tag(
                    self.links().take(i as int),
                    self.items(),
                    tag_id@,
                ),
            decreases n - i,
        {
            let ghost prefix = self.links().take(i as int + 1);
            assert(prefix.drop_last() =~= self.links().take(i as int));
            assert(prefix.last() == self.links()[i as int]);
            if str_eq(self.links[i].tag_id.as_str(), tag_id) {
                let ghost iid = self.links()[i as int].item_id;
                match self.find_item(self.links[i].item_id.as_str()) {
                    Some(k) => {
                        assert(item_with_id(self.items(), iid) == self.items()[k as int]) by {
                            let c = choose|c: int|
                                0 <= c < self.items().len() && #[trigger] self.items()[c].id == iid;
                            assert(self.items()[c].id == self.items()[k as int].id);
                        }
                        if self.items[k].deleted_at == 0 {
                            let ghost before = out@;
                            out.push(self.items[k].copy());
                            assert(out@.map_values(|it: Item| it@) =~= before.map_values(
                                |it: Item| it@,
                            ).push(self.items()[k as int]));
                        } else {
                            assert(!has_live_item(self.items(), iid));
                        }
                    },
                    None => {},
                }
            }
            i = i + 1;
        }
        assert(self.links().take(n as int) =~= self.links());
        out
    }

    /// The items that pass the filter, newest first by creation (or by last
    /// update when `sort_by` is "updated"), at most `limit` of them when the
    /// limit is not negative. Soft-deleted items are left out unless
    /// `include_deleted` is set.
    pub fn query_items(&self, filter: &ItemFilter) -> (r: Vec<Item>)
        requires
            self.wf(),
        ensures
            query_result(*filter, self.items(), r@.map_values(|it: Item| it@)),
    {
        broadcast use vstd::seq_lib::group_to_multiset_ensures;

        let updated_key = match &filter.sort_by {
            Some(s) => str_eq(s.as_str(), "updated"),
            None => false,
        };
        let ghost pred = |it: ItemView| matches_filter(*filter, it);
        let mut out: Vec<Item> = Vec::new();
        let n: usize = self.items.len();
        let mut i: usize = 0;
        while i < n
            invariant
                n == self.items@.len(),
                0 <= i <= n,
                updated_key == by_updated(*filter),
                pred == (|it: ItemView| matches_filter(*filter, it)),
                sorted_desc(*filter, out@.map_values(|it: Item| it@)),
                out@.map_values(|it: Item| it@).to_multiset() == self.items().take(
                    i as int,
                ).filter(pred).to_multiset(),
            decreases n - i,
        {
            let ghost prefix = self.items().take(i as int);
            assert(self.items().take(i as int + 1) =~= prefix.push(self.items()[i as int]));
            proof {
                prefix.lemma_filter_push(self.items()[i as int], pred);
            }
            assert(self.items()[i as int] == self.items@[i as int]@);
            let ghost m_before = out@.map_values(|it: Item| it@);
            if item_matches(filter, &self.items[i]) {
                assert(pred(self.items()[i as int]));
                let key = key_of(&self.items[i], updated_key);
                let ghost before = out@.map_values(|it: Item| it@);
                let mut p: usize = 0;
                while p < out.len() && key_of(&out[p], updated_key) >= key
                    invariant
                        n == self.items@.len(),
                        0 <= i < n,
                        updated_key == by_updated(*filter),
                        before == out@.map_values(|it: Item| it@),
                        0 <= p <= out@.len(),
                        key == sort_key(*filter, self.items()[i as int]),
                        forall|q: int| 0 <= q < p ==> sort_key(*filter, before[q]) >= key,
                    decreases out@.len() - p,
                {
                    p = p + 1;
                }
                let x = self.items[i].copy();
                let ghost xv = x@;
                out.insert(p, x);
                assert(out@.map_values(|it: Item| it@) =~= before.insert(p as int, xv));
                assert(xv == self.items()[i as int]);
                proof {
                    vstd::seq_lib::to_multiset_insert(before, p as int, xv);
                    vstd::seq_lib::to_multiset_build(prefix.filter(pred), xv);
                }
                proof {
                    before.insert_ensures(p as int, xv);
                    let after = before.insert(p as int, xv);
                    assert forall|a: int, b: int| 0 <= a < b < after.len() implies sort_key(
                        *filter,
                        #[trigger] after[a],
                    ) >= sort_key(*filter, #[trigger] after[b]) by {
                        if p < before.len() {
                            assert(sort_key(*filter, before[p as int]) < key);
                        }
                        if a < p && b == p {
                        } else if a < p && b > p {
                            assert(after[b] == before[b - 1]);
                        } else if a == p && b > p {
                            assert(after[b] == before[b - 1]);
                            if b - 1 > p {
                                assert(sort_key(*filter, before[p as int]) >= sort_key(*filter, before[b - 1]));
                            }
                        } else if a > p {
                            assert(after[a] == before[a - 1]);
                            assert(after[b] == before[b - 1]);
                        }
                    }
                }
            } else {
                assert(!pred(self.items()[i as int]));
            }
            i = i + 1;
        }
        assert(self.items().take(n as int) =~= self.items());
        let ghost full = out@.map_values(|it: Item| it@);
        match filter.limit {
            Some(l) => {
                if 0 <= l && (l as u64) < (out.len() as u64) {
                    out.truncate(l as usize);
                }
            },
            None => {},
        }
        proof {
            full.to_multiset_ensures();
            matching(*filter, self.items()).to_multiset_ensures();
            assert(full.len() == matching(*filter, self.items()).len()) by {
                vstd::seq_lib::to_multiset_len(full);
                vstd::seq_lib::to_multiset_len(matching(*filter, self.items()));
            }
            assert(out@.map_values(|it: Item| it@) =~= full.take(limited_len(*filter, full.len() as int)));
        }
        out
    }

    /// Index of the live item carrying this sync id.
    pub(crate) fn find_live_by_sync_id(&self, sid: &str) -> (r: Option<usize>)
        ensures
            match r {
                Some(k) => k < self.items().len() && is_live(self.items()[k as int])
                    && self.items()[k as int].sync_id == sid@,
                None => !has_live_sync_id(self.items(), sid@),
            },
    {
        let n: usize = self.items.len();
        let mut i: usize = 0;
        while i < n
            invariant
                n == self.items@.len(),
                0 <= i <= n,
                forall|k: int|
                    0 <= k < i ==> !(is_live(self.items()[k]) && self.items()[k].sync_id == sid@),
            decreases n - i,
        {
            if self.items[i].deleted_at == 0 && str_eq(self.items[i].sync_id.as_str(), sid) {
                return Some(i);
            }
            i = i + 1;
        }
        None
    }

    /// The live item that carries this sync id, if any.
    pub fn live_item_by_sync_id(&self, sid: &str) -> (r: Option<Item>)
        requires
            self.wf(),
        ensures
            r is Some <==> has_live_sync_id(self.items(), sid@),
            r matches Some(it) ==> self.items().contains(it@) && is_live(it@) && it@.sync_id
                == sid@,
    {
        match self.find_live_by_sync_id(sid) {
            Some(k) => {
                let it = self.items[k].copy();
                assert(self.items()[k as int] == it@);
                Some(it)
            },
            None => None,
        }
    }

    /// Stores an item pulled from the server that matches no live local item.
    pub(crate) fn insert_pulled_item(
        &mut self,
        item_type: &str,
        content: &Option<String>,
        metadata: &Option<String>,
        sync_id: &str,
        created_at: i64,
        updated_at: i64,
        now: i64,
    ) -> (r: String)
        requires
            old(self).wf(),
            sync_id@.len() > 0,
            !has_live_sync_id(old(self).items(), sync_id@),
        ensures
            final(self).wf(),
            !has_item(old(self).items(), r@),
            final(self).items() == old(self).items().push(
                pulled_item_view(
                    r@,
                    item_type@,
                    opt_view(*content),
                    opt_view(*metadata),
                    sync_id@,
                    created_at as int,
                    updated_at as int,
                    now as int,
                ),
            ),
            final(self).tags() == old(self).tags(),
            final(self).links() == old(self).links(),
    {
        let id = self.fresh_item_id();
        let item = Item {
            id: id.clone(),
            item_type: item_type.to_owned(),
            content: copy_string_opt(content),
            mime_type: String::new(),
            metadata: match metadata {
                Some(m) => m.clone(),
                None => "{}".to_owned(),
            },
            sync_id: sync_id.to_owned(),
            sync_source: "server".to_owned(),
            created_at,
            updated_at,
            deleted_at: 0,
            synced_at: now,
            starred: 0,
            archived: 0,
        };
        self.push_item(item);
        id
    }

    /// Overwrites the live item at `k` with a newer remote version.
    pub(crate) fn overwrite_with_pulled(
        &mut self,
        k: usize,
        content: &Option<String>,
        metadata: &Option<String>,
        updated_at: i64,
        now: i64,
    )
        requires
            old(self).wf(),
            k < old(self).items().len(),
        ensures
            final(self).wf(),
            final(self).items() == old(self).items().update(
                k as int,
                overwritten_view(
                    old(self).items()[k as int],
                    opt_view(*content),
                    opt_view(*metadata),
                    updated_at as int,
                    now as int,
                ),
            ),
            final(self).tags() == old(self).tags(),
            final(self).links() == old(self).links(),
    {
        let old_item = self.items[k].copy();
        let item = Item {
            content: copy_string_opt(content),
            metadata: match metadata {
                Some(m) => m.clone(),
                None => "{}".to_owned(),
            },
            updated_at,
            synced_at: now,
            ..old_item
        };
        self.replace_item(k, item);
    }

    /// The id of the item at `k`.
    pub(crate) fn item_id_at(&self, k: usize) -> (r: String)
        requires
            k < self.items().len(),
        ensures
            r@ == self.items()[k as int].id,
    {
        self.items[k].id.clone()
    }

    /// The update time of the item at `k`.
    pub(crate) fn updated_at_of(&self, k: usize) -> (r: i64)
        requires
            k < self.items().len(),
        ensures
            r == self.items()[k as int].updated_at,
    {
        self.items[k].updated_at
    }

    /// Links an item, whose links are all to named tags already, to each
    /// named tag, creating the tags that do not exist yet. Links present
    /// before are kept.
    fn attach_named_tags(&mut self, item_id: &str, names: &Vec<String>, now: i64)
        requires
            old(self).wf(),
            has_item(old(self).items(), item_id@),
            forall|m: int|
                0 <= m < old(self).links().len() && #[trigger] old(self).links()[m].item_id
                    == item_id@ ==> tag_is_named(old(self).tags(), old(self).links()[m].tag_id, names@),
        ensures
            final(self).wf(),
            final(self).items() == old(self).items(),
            forall|j: int|
                0 <= j < names@.len() ==> tag_attached(
                    final(self).tags(),
                    final(self).links(),
                    item_id@,
                    #[trigger] names@[j]@,
                ),
            forall|m: int|
                0 <= m < final(self).links().len() && #[trigger] final(self).links()[m].item_id
                    != item_id@ ==> old(self).links().contains(final(self).links()[m]),
            forall|j: int|
                0 <= j < old(self).links().len() ==> final(self).links().contains(
                    #[trigger] old(self).links()[j],
                ),
            forall|m: int|
                0 <= m < final(self).links().len() && #[trigger] final(self).links()[m].item_id
                    == item_id@ ==> tag_is_named(final(self).tags(), final(self).links()[m].tag_id, names@),
    {
        let ghost base = self.links();
        let n: usize = names.len();
        let mut j: usize = 0;
        while j < n
            invariant
                self.wf(),
                n == names@.len(),
                0 <= j <= n,
                self.items() == old(self).items(),
                has_item(self.items(), item_id@),
                base == old(self).links(),
                forall|m: int| 0 <= m < base.len() ==> self.links().contains(#[trigger] base[m]),
                forall|m: int|
                    0 <= m < self.links().len() && #[trigger] self.links()[m].item_id != item_id@
                        ==> base.contains(self.links()[m]),
                forall|q: int|
                    0 <= q < j ==> tag_attached(
                        self.tags(),
                        self.links(),
                        item_id@,
                        #[trigger] names@[q]@,
                    ),
                forall|m: int|
                    0 <= m < self.links().len() && #[trigger] self.links()[m].item_id == item_id@
                        ==> tag_is_named(self.tags(), self.links()[m].tag_id, names@),
            decreases n - j,
        {
            let ghost tags0 = self.tags();
            let ghost links0 = self.links();
            let (tag, _created) = self.get_or_create_tag(names[j].as_str(), now);
            let ghost tags1 = self.tags();
            let ghost tk: int = if _created {
                tags0.len() as int
            } else {
                choose|k: int|
                    0 <= k < tags0.len() && tags0[k] == tag@ && same_name(tag@.name, trim_of(names@[j as int]@))
            };
            assert(0 <= tk < tags1.len() && tags1[tk] == tag@);
            assert(same_name(tag@.name, trim_of(names@[j as int]@))) by {
                if _created {
                    let key = trim_of(names@[j as int]@);
                    assert(tag@.name == key);
                    assert(same_name(key, key));
                }
            }
            let linked = self.tag_item(item_id, tag.id.as_str(), now);
            let ghost tags2 = self.tags();
            let ghost links2 = self.links();
            assert(has_tag(tags1, tag@.id));
            assert(linked is Ok);
            assert(tags2.len() == tags1.len());
            assert forall|k: int| 0 <= k < tags1.len() implies #[trigger] tags2[k].id == tags1[k].id
                && tags2[k].name == tags1[k].name by {}
            assert forall|m: int| 0 <= m < links0.len() implies links2.contains(#[trigger] links0[m]) by {
                if links2 != links0 {
                    assert(links2[m] == links0[m]);
                }
            }
            assert(has_link(links2, item_id@, tag@.id)) by {
                match linked {
                    Ok((l, true)) => {
                        assert(has_link(links0, item_id@, tag@.id));
                    },
                    Ok((l, false)) => {
                        assert(links2[links2.len() - 1] == l@);
                    },
                    Err(_) => {},
                }
            }
            assert(tag_attached(tags2, links2, item_id@, names@[j as int]@)) by {
                assert(tags2[tk].id == tag@.id && tags2[tk].name == tag@.name);
            }
            assert forall|q: int| 0 <= q < j + 1 implies tag_attached(
                tags2,
                links2,
                item_id@,
                #[trigger] names@[q]@,
            ) by {
                if q < j {
                    assert(tag_attached(tags0, links0, item_id@, names@[q]@));
                    let k = choose|k: int|
                        0 <= k < tags0.len() && same_name(#[trigger] tags0[k].name, trim_of(names@[q]@))
                            && has_link(links0, item_id@, tags0[k].id);
                    let li = choose|li: int|
                        0 <= li < links0.len() && #[trigger] links0[li].item_id == item_id@
                            && links0[li].tag_id == tags0[k].id;
                    assert(links2.contains(links0[li]));
                    assert(tags2[k].id == tags0[k].id && tags2[k].name == tags0[k].name);
                }
            }
            assert forall|m: int| 0 <= m < base.len() implies links2.contains(#[trigger] base[m]) by {
                assert(links0.contains(base[m]));
                let i0 = choose|i0: int| 0 <= i0 < links0.len() && links0[i0] == base[m];
                assert(links2.contains(links0[i0]));
            }
            assert forall|m: int|
                0 <= m < links2.len() && #[trigger] links2[m].item_id != item_id@ implies base.contains(
                links2[m],
            ) by {
                if links2 != links0 {
                    if m < links0.len() {
                        assert(links2[m] == links0[m]);
                    }
                }
            }
            assert forall|m: int|
                0 <= m < links2.len() && #[trigger] links2[m].item_id == item_id@ implies tag_is_named(
                tags2,
                links2[m].tag_id,
                names@,
            ) by {
                if m < links0.len() && links2[m] == links0[m] {
                    assert(tag_is_named(tags0, links0[m].tag_id, names@));
                    let (jj, kk) = choose|jj: int, kk: int|
                        0 <= jj < names@.len() && 0 <= kk < tags0.len() && #[trigger] tags0[kk].id
                            == links0[m].tag_id && same_name(tags0[kk].name, trim_of(#[trigger] names@[jj]@));
                    assert(tags1[kk] == tags0[kk]);
                    assert(tags2[kk].id == tags0[kk].id && tags2[kk].name == tags0[kk].name);
                } else {
                    assert(linked matches Ok((_, false)));
                    match linked {
                        Ok((l, _)) => {
                            assert(links2[m] == l@);
                            assert(l@.tag_id == tag@.id);
                            assert(tags2[tk].id == tag@.id && tags2[tk].name == tag@.name);
                            assert(0 <= j < names@.len());
                        },
                        Err(_) => {},
                    }
                }
            }
            j = j + 1;
        }
    }

    /// Replaces the tag links of an item by links to the named tags, creating
    /// the tags that do not exist yet.
    pub(crate) fn replace_item_tags(&mut self, item_id: &str, names: &Vec<String>, now: i64)
        requires
            old(self).wf(),
            has_item(old(self).items(), item_id@),
        ensures
            final(self).wf(),
            final(self).items() == old(self).items(),
            forall|j: int|
                0 <= j < names@.len() ==> tag_attached(
                    final(self).tags(),
                    final(self).links(),
                    item_id@,
                    #[trigger] names@[j]@,
                ),
            forall|m: int|
                0 <= m < final(self).links().len() && #[trigger] final(self).links()[m].item_id
                    != item_id@ ==> old(self).links().contains(final(self).links()[m]),
            forall|j: int|
                0 <= j < old(self).links().len() && #[trigger] old(self).links()[j].item_id
                    != item_id@ ==> final(self).links().contains(old(self).links()[j]),
            forall|m: int|
                0 <= m < final(self).links().len() && #[trigger] final(self).links()[m].item_id
                    == item_id@ ==> tag_is_named(final(self).tags(), final(self).links()[m].tag_id, names@),
    {
        self.remove_links_of_item(item_id);
        let ghost base = self.links();
        self.attach_named_tags(item_id, names, now);
        assert forall|m: int|
            0 <= m < self.links().len() && #[trigger] self.links()[m].item_id
                != item_id@ implies old(self).links().contains(self.links()[m]) by {
            assert(base.contains(self.links()[m]));
            let b = choose|b: int| 0 <= b < base.len() && base[b] == self.links()[m];
            assert(base[b].item_id != item_id@);
        }
        assert forall|q: int|
            0 <= q < old(self).links().len() && #[trigger] old(self).links()[q].item_id
                != item_id@ implies self.links().contains(old(self).links()[q]) by {
            assert(base.contains(old(self).links()[q]));
            let b = choose|b: int| 0 <= b < base.len() && base[b] == old(self).links()[q];
            assert(self.links().contains(base[b]));
        }
    }

    /// Whether the tag with this id is one of the named tags.
    fn tag_named(&self, tag_id: &str, names: &Vec<String>) -> (r: bool)
        requires
            self.wf(),
        ensures
            r == tag_is_named(self.tags(), tag_id@, names@),
    {
        let k = match self.find_tag(tag_id) {
            Some(k) => k,
            None => {
                return false;
            },
        };
        let n: usize = names.len();
        let mut j: usize = 0;
        while j < n
            invariant
                self.wf(),
                n == names@.len(),
                0 <= j <= n,
                k < self.tags().len(),
                self.tags()[k as int].id == tag_id@,
                forall|q: int| 0 <= q < j ==> !same_name(self.tags()[k as int].name, trim_of(#[trigger] names@[q]@)),
            decreases n - j,
        {
            let key = trim(names[j].as_str());
            if names_match(self.tags[k].name.as_str(), key.as_str()) {
                assert(same_name(self.tags()[k as int].name, trim_of(names@[j as int]@)));
                return true;
            }
            j = j + 1;
        }
        assert forall|q: int, t: int|
            0 <= q < names@.len() && 0 <= t < self.tags().len() && #[trigger] self.tags()[t].id
                == tag_id@ implies !same_name(self.tags()[t].name, trim_of(#[trigger] names@[q]@)) by {
            assert(t == k as int);
        }
        false
    }

    /// Drops the links of the item to tags that are not named, keeping the
    /// other links in order.
    fn remove_unnamed_links(&mut self, item_id: &str, names: &Vec<String>)
        requires
            old(self).wf(),
        ensures
            final(self).wf(),
            final(self).items() == old(self).items(),
            final(self).tags() == old(self).tags(),
            forall|m: int|
                0 <= m < final(self).links().len() ==> old(self).links().contains(
                    #[trigger] final(self).links()[m],
                ),
            forall|m: int|
                0 <= m < final(self).links().len() && #[trigger] final(self).links()[m].item_id
                    == item_id@ ==> tag_is_named(final(self).tags(), final(self).links()[m].tag_id, names@),
            forall|j: int|
                0 <= j < old(self).links().len() && #[trigger] link_kept(
                    old(self).links()[j],
                    item_id@,
                    old(self).tags(),
                    names@,
                ) ==> final(self).links().contains(old(self).links()[j]),
    {
        let ghost links = self.links();
        let mut kept: Vec<ItemTag> = Vec::new();
        let ghost mut idx: Seq<int> = Seq::empty();
        let n: usize = self.links.len();
        let mut i: usize = 0;
        while i < n
            invariant
                self.wf(),
                n == self.links@.len(),
                links == self.links(),
                0 <= i <= n,
                idx.len() == kept@.len(),
                forall|m: int|
                    0 <= m < idx.len() ==> 0 <= #[trigger] idx[m] < i && kept@[m]@ == links[idx[m]]
                        && link_kept(links[idx[m]], item_id@, self.tags(), names@),
                forall|a: int, b: int| 0 <= a < b < idx.len() ==> #[trigger] idx[a] < #[trigger] idx[b],
                forall|j: int|
                    0 <= j < i && #[trigger] link_kept(links[j], item_id@, self.tags(), names@)
                        ==> exists|m: int| 0 <= m < idx.len() && idx[m] == j,
            decreases n - i,
        {
            let keep = !str_eq(self.links[i].item_id.as_str(), item_id) || self.tag_named(
                self.links[i].tag_id.as_str(),
                names,
            );
            if keep {
                let l = self.links[i].copy();
                kept.push(l);
                let ghost old_idx = idx;
                proof {
                    idx = idx.push(i as int);
                }
                assert forall|j: int|
                    0 <= j < i + 1 && #[trigger] link_kept(links[j], item_id@, self.tags(), names@)
                        implies exists|m: int| 0 <= m < idx.len() && idx[m] == j by {
                    if j == i {
                        assert(idx[idx.len() - 1] == j);
                    } else {
                        let m = choose|m: int| 0 <= m < old_idx.len() && old_idx[m] == j;
                        assert(idx[m] == j);
                    }
                }
            }
            i = i + 1;
        }
        self.links = kept;
        assert forall|m: int| 0 <= m < self.links().len() implies links.contains(
            #[trigger] self.links()[m],
        ) by {
            assert(self.links()[m] == links[idx[m]]);
        }
        assert forall|m: int|
            0 <= m < self.links().len() && #[trigger] self.links()[m].item_id == item_id@ implies tag_is_named(
            self.tags(),
            self.links()[m].tag_id,
            names@,
        ) by {
            assert(self.links()[m] == links[idx[m]]);
        }
        assert forall|j: int|
            0 <= j < links.len() && #[trigger] link_kept(links[j], item_id@, self.tags(), names@)
                implies self.links().contains(links[j]) by {
            let m = choose|m: int| 0 <= m < idx.len() && idx[m] == j;
            assert(self.links()[m] == links[j]);
        }
        assert forall|a: int, b: int|
            0 <= a < self.links().len() && 0 <= b < self.links().len() && a
                != b implies #[trigger] self.links()[a].id != #[trigger] self.links()[b].id by {
            assert(self.links()[a] == links[idx[a]]);
            assert(self.links()[b] == links[idx[b]]);
            if a < b {
                assert(idx[a] < idx[b]);
            } else {
                assert(idx[b] < idx[a]);
            }
        }
        assert forall|a: int, b: int|
            0 <= a < self.links().len() && 0 <= b < self.links().len() && a
                != b implies (#[trigger] self.links()[a].item_id != #[trigger] self.links()[b].item_id
            || self.links()[a].tag_id != self.links()[b].tag_id) by {
            assert(self.links()[a] == links[idx[a]]);
            assert(self.links()[b] == links[idx[b]]);
            if a < b {
                assert(idx[a] < idx[b]);
            } else {
                assert(idx[b] < idx[a]);
            }
        }
    }

    /// Sets the tags of the live item with this id to the named tags: links
    /// to tags no longer named are removed, links to named tags that exist
    /// are kept as they are (their tags' use counts do not change), and the
    /// missing ones are added, creating tags as needed. Returns false,
    /// changing nothing, when no live item has this id.
    pub fn set_item_tags(&mut self, item_id: &str, names: &Vec<String>, now: i64) -> (r: bool)
        requires
            old(self).wf(),
        ensures
            final(self).wf(),
            final(self).items() == old(self).items(),
            r == has_live_item(old(self).items(), item_id@),
            !r ==> final(self).tags() == old(self).tags() && final(self).links() == old(self).links(),
            r ==> forall|j: int|
                0 <= j < names@.len() ==> tag_attached(
                    final(self).tags(),
                    final(self).links(),
                    item_id@,
                    #[trigger] names@[j]@,
                ),
            r ==> forall|m: int|
                0 <= m < final(self).links().len() && #[trigger] final(self).links()[m].item_id
                    == item_id@ ==> tag_is_named(final(self).tags(), final(self).links()[m].tag_id, names@),
            r ==> forall|m: int|
                0 <= m < final(self).links().len() && #[trigger] final(self).links()[m].item_id
                    != item_id@ ==> old(self).links().contains(final(self).links()[m]),
            r ==> forall|j: int|
                0 <= j < old(self).links().len() && #[trigger] link_kept(
                    old(self).links()[j],
                    item_id@,
                    old(self).tags(),
                    names@,
                ) ==> final(self).links().contains(old(self).links()[j]),
    {
        match self.find_item(item_id) {
            Some(k) => {
                if self.items[k].deleted_at != 0 {
                    assert(!has_live_item(self.items(), item_id@));
                    return false;
                }
                assert(has_item(self.items(), item_id@));
            },
            None => {
                return false;
            },
        }
        self.remove_unnamed_links(item_id, names);
        let ghost mid = self.links();
        self.attach_named_tags(item_id, names, now);
        assert forall|m: int|
            0 <= m < self.links().len() && #[trigger] self.links()[m].item_id
                != item_id@ implies old(self).links().contains(self.links()[m]) by {
            assert(mid.contains(self.links()[m]));
            let b = choose|b: int| 0 <= b < mid.len() && mid[b] == self.links()[m];
            assert(old(self).links().contains(mid[b]));
        }
        assert forall|q: int|
            0 <= q < old(self).links().len() && #[trigger] link_kept(
                old(self).links()[q],
                item_id@,
                old(self).tags(),
                names@,
            ) implies self.links().contains(old(self).links()[q]) by {
            assert(mid.contains(old(self).links()[q]));
            let b = choose|b: int| 0 <= b < mid.len() && mid[b] == old(self).links()[q];
            assert(self.links().contains(mid[b]));
        }
        true
    }

    /// Records that the server stored the live item `local_id` under
    /// `remote_id`: the item becomes synced at `now`. Returns false, changing
    /// nothing, when no live item has that id, the remote id is empty, or
    /// another live item already carries the remote id.
    pub(crate) fn record_push(&mut self, local_id: &str, remote_id: &str, now: i64) -> (r: bool)
        requires
            old(self).wf(),
        ensures
            final(self).wf(),
            final(self).tags() == old(self).tags(),
            final(self).links() == old(self).links(),
            r ==> forall|k: int|
                0 <= k < old(self).items().len() && old(self).items()[k].id == local_id@
                    ==> final(self).items() == old(self).items().update(
                    k,
                    pushed_view(old(self).items()[k], remote_id@, now as int),
                ),
            !r ==> final(self).items() == old(self).items(),
            has_live_item(old(self).items(), local_id@) && remote_id@.len() > 0 && (forall|k: int|
                0 <= k < old(self).items().len() && is_live(#[trigger] old(self).items()[k])
                    && old(self).items()[k].sync_id == remote_id@ ==> old(self).items()[k].id
                    == local_id@) ==> r,
            r ==> has_live_item(old(self).items(), local_id@) && remote_id@.len() > 0,
    {
        if remote_id.unicode_len() == 0 {
            return false;
        }
        let k = match self.find_item(local_id) {
            Some(k) => k,
            None => {
                return false;
            },
        };
        if self.items[k].deleted_at != 0 {
            return false;
        }
        match self.find_live_by_sync_id(remote_id) {
            Some(o) => {
                if o != k {
                    return false;
                }
            },
            None => {},
        }
        let old_item = self.items[k].copy();
        let item = Item {
            sync_id: remote_id.to_owned(),
            sync_source: "server".to_owned(),
            synced_at: now,
            ..old_item
        };
        let ghost v = item@;
        self.items.set(k, item);
        assert(self.items() =~= old(self).items().update(k as int, v));
        assert forall|i: int, j: int|
            0 <= i < self.items().len() && 0 <= j < self.items().len() && i != j && is_live(
                #[trigger] self.items()[i],
            ) && is_live(#[trigger] self.items()[j]) && self.items()[i].sync_id.len()
                > 0 implies self.items()[i].sync_id != self.items()[j].sync_id by {
            if i != k && j != k {
                assert(is_live(old(self).items()[i]) && is_live(old(self).items()[j]));
            }
        }
        assert forall|q: int|
            0 <= q < old(self).items().len() && old(self).items()[q].id == local_id@ implies q == k by {}
        true
    }

    /// How many live items are never synced or changed since their last sync.
    pub fn pending_count(&self) -> (r: usize)
        ensures
            r == pending_in(self.items()).len(),
    {
        let ghost pred = |it: ItemView| is_pending(it);
        let n: usize = self.items.len();
        let mut count: usize = 0;
        let mut i: usize = 0;
        while i < n
            invariant
                n == self.items@.len(),
                0 <= i <= n,
                pred == (|it: ItemView| is_pending(it)),
                count == self.items().take(i as int).filter(pred).len(),
                count <= i,
            decreases n - i,
        {
            let ghost prefix = self.items().take(i as int);
            assert(self.items().take(i as int + 1) =~= prefix.push(self.items()[i as int]));
            proof {
                prefix.lemma_filter_push(self.items()[i as int], pred);
            }
            assert(self.items()[i as int] == self.items@[i as int]@);
            let it = &self.items[i];
            if it.deleted_at == 0 && (it.sync_id.as_str().unicode_len() == 0 || it.updated_at
                > it.synced_at) {
                count = count + 1;
            }
            i = i + 1;
        }
        assert(self.items().take(n as int) =~= self.items());
        count
    }

    /// The items that a push sends, in store order.
    pub fn items_to_push(&self, watermark: i64) -> (r: Vec<Item>)
        ensures
            r@.map_values(|it: Item| it@) == self.items().filter(
                |it: ItemView| to_push(it, watermark as int),
            ),
    {
        let ghost pred = |it: ItemView| to_push(it, watermark as int);
        let mut out: Vec<Item> = Vec::new();
        let n: usize = self.items.len();
        let mut i: usize = 0;
        while i < n
            invariant
                n == self.items@.len(),
                0 <= i <= n,
                pred == (|it: ItemView| to_push(it, watermark as int)),
                out@.map_values(|it: Item| it@) == self.items().take(i as int).filter(pred),
            decreases n - i,
        {
            let ghost prefix = self.items().take(i as int);
            assert(self.items().take(i as int + 1) =~= prefix.push(self.items()[i as int]));
            proof {
                prefix.lemma_filter_push(self.items()[i as int], pred);
            }
            assert(self.items()[i as int] == self.items@[i as int]@);
            let it = &self.items[i];
            let never: bool = it.sync_id.as_str().unicode_len() == 0;
            if it.deleted_at == 0 && (never || (watermark > 0 && it.updated_at > it.synced_at)) {
                let ghost before = out@;
                out.push(it.copy());
                assert(out@.map_values(|x: Item| x@) =~= before.map_values(|x: Item| x@).push(
                    self.items()[i as int],
                ));
            }
            i = i + 1;
        }
        assert(self.items().take(n as int) =~= self.items());
        out
    }

    /// Copies of all items, live or not, in store order.
    pub fn all_items(&self) -> (r: Vec<Item>)
        ensures
            r@.map_values(|it: Item| it@) == self.items(),
    {
        let mut out: Vec<Item> = Vec::new();
        let n: usize = self.items.len();
        let mut i: usize = 0;
        while i < n
            invariant
                n == self.items@.len(),
                0 <= i <= n,
                out@.len() == i,
                forall|k: int| 0 <= k < i ==> #[trigger] out@[k]@ == self.items()[k],
            decreases n - i,
        {
            out.push(self.items[i].copy());
            i = i + 1;
        }
        assert(out@.map_values(|it: Item| it@) =~= self.items());
        out
    }

    /// Copies of all tags, in store order.
    pub fn all_tags(&self) -> (r: Vec<Tag>)
        ensures
            r@.map_values(|t: Tag| t@) == self.tags(),
    {
        let mut out: Vec<Tag> = Vec::new();
        let n: usize = self.tags.len();
        let mut i: usize = 0;
        while i < n
            invariant
                n == self.tags@.len(),
                0 <= i <= n,
                out@.len() == i,
                forall|k: int| 0 <= k < i ==> #[trigger] out@[k]@ == self.tags()[k],
            decreases n - i,
        {
            out.push(self.tags[i].copy());
            i = i + 1;
        }
        assert(out@.map_values(|t: Tag| t@) =~= self.tags());
        out
    }

    /// Copies of all links, in store order.
    pub fn all_links(&self) -> (r: Vec<ItemTag>)
        ensures
            r@.map_values(|l: ItemTag| l@) == self.links(),
    {
        let mut out: Vec<ItemTag> = Vec::new();
        let n: usize = self.links.len();
        let mut i: usize = 0;
        while i < n
            invariant
                n == self.links@.len(),
                0 <= i <= n,
                out@.len() == i,
                forall|k: int| 0 <= k < i ==> #[trigger] out@[k]@ == self.links()[k],
            decreases n - i,
        {
            out.push(self.links[i].copy());
            i = i + 1;
        }
        assert(out@.map_values(|l: ItemTag| l@) =~= self.links());
        out
    }

    /// Rebuilds a store from saved rows, in order. Returns `None` when the
    /// rows break an invariant of the store: a repeated id, two live items
    /// with one sync id, two tags with one name up to case, a cached score
    /// that its frequency and last use do not give, or a repeated link.
    pub fn restore(items: &Vec<Item>, tags: &Vec<Tag>, links: &Vec<ItemTag>) -> (r: Option<Store>)
        ensures
            r is Some <==> rows_valid(
                items@.map_values(|it: Item| it@),
                tags@.map_values(|t: Tag| t@),
                links@.map_values(|l: ItemTag| l@),
            ),
            r matches Some(st) ==> (st.wf() && st.items() == items@.map_values(|it: Item| it@)
                && st.tags() == tags@.map_values(|t: Tag| t@) && st.links() == links@.map_values(
                |l: ItemTag| l@,
            )),
    {
        let mut st = Store::new();
        let n: usize = items.len();
        let mut i: usize = 0;
        while i < n
            invariant
                n == items@.len(),
                0 <= i <= n,
                st.wf(),
                st.items() == items@.map_values(|it: Item| it@).take(i as int),
                st.tags() == Seq::<TagView>::empty(),
                st.links() == Seq::<ItemTagView>::empty(),
            decreases n - i,
        {
            let it = &items[i];
            let ghost iv = items@.map_values(|it: Item| it@);
            assert(iv[i as int] == it@);
            match st.find_item(it.id.as_str()) {
                Some(k) => {
                    assert(st.items()[k as int] == iv.take(i as int)[k as int]);
                    assert(k as int != i as int && iv[k as int].id == iv[i as int].id);
                    assert(!item_ids_unique(iv));
                    return None;
                },
                None => {},
            }
            if it.deleted_at == 0 && it.sync_id.as_str().unicode_len() > 0 {
                match st.find_live_by_sync_id(it.sync_id.as_str()) {
                    Some(k) => {
                        assert(st.items()[k as int] == iv.take(i as int)[k as int]);
                        assert(k as int != i as int && iv[k as int].sync_id == iv[i as int].sync_id);
                        assert(!live_sync_ids_unique(iv));
                        return None;
                    },
                    None => {},
                }
            }
            st.push_item(it.copy());
            assert(st.items() =~= items@.map_values(|it: Item| it@).take(i as int + 1));
            i = i + 1;
        }
        assert(items@.map_values(|it: Item| it@).take(n as int) =~= items@.map_values(|it: Item| it@));
        let n: usize = tags.len();
        let mut i: usize = 0;
        while i < n
            invariant
                n == tags@.len(),
                0 <= i <= n,
                st.wf(),
                st.items() == items@.map_values(|it: Item| it@),
                st.tags() == tags@.map_values(|t: Tag| t@).take(i as int),
                st.links() == Seq::<ItemTagView>::empty(),
            decreases n - i,
        {
            let t = &tags[i];
            let ghost tv = tags@.map_values(|t: Tag| t@);
            assert(tv[i as int] == t@);
            match st.find_tag(t.id.as_str()) {
                Some(k) => {
                    assert(st.tags()[k as int] == tv.take(i as int)[k as int]);
                    assert(k as int != i as int && tv[k as int].id == tv[i as int].id);
                    assert(!tags_wf(tv));
                    return None;
                },
                None => {},
            }
            match st.find_tag_named(t.name.as_str()) {
                Some(k) => {
                    assert(st.tags()[k as int] == tv.take(i as int)[k as int]);
                    assert(k as int != i as int && same_name(tv[k as int].name, tv[i as int].name));
                    assert(!tags_wf(tv));
                    return None;
                },
                None => {},
            }
            if t.frequency < 0 || t.frequency > MAX_FREQUENCY {
                assert(!tag_score_cached(tv[i as int]));
                return None;
            }
            if calculate_frecency(t.frequency, t.last_used_at, t.last_used_at) != t.frecency_score {
                assert(!tag_score_cached(tv[i as int]));
                return None;
            }
            let ghost v = t@;
            st.tags.push(t.copy());
            assert(st.tags() =~= tags@.map_values(|t: Tag| t@).take(i as int + 1));
            assert forall|a: int, b: int|
                0 <= a < st.tags().len() && 0 <= b < st.tags().len() && a != b implies !same_name(
                #[trigger] st.tags()[a].name,
                #[trigger] st.tags()[b].name,
            ) by {
                if a == i as int {
                    assert(!same_name(st.tags()[b].name, v.name));
                } else if b == i as int {
                    assert(!same_name(st.tags()[a].name, v.name));
                }
            }
            i = i + 1;
        }
        assert(tags@.map_values(|t: Tag| t@).take(n as int) =~= tags@.map_values(|t: Tag| t@));
        let n: usize = links.len();
        let mut i: usize = 0;
        while i < n
            invariant
                n == links@.len(),
                0 <= i <= n,
                st.wf(),
                st.items() == items@.map_values(|it: Item| it@),
                st.tags() == tags@.map_values(|t: Tag| t@),
                st.links() == links@.map_values(|l: ItemTag| l@).take(i as int),
            decreases n - i,
        {
            let l = &links[i];
            let ghost lv = links@.map_values(|l: ItemTag| l@);
            assert(lv[i as int] == l@);
            match st.find_link(l.item_id.as_str(), l.tag_id.as_str()) {
                Some(k) => {
                    assert(st.links()[k as int] == lv.take(i as int)[k as int]);
                    assert(k as int != i as int && lv[k as int].item_id == lv[i as int].item_id
                        && lv[k as int].tag_id == lv[i as int].tag_id);
                    assert(!links_wf(lv));
                    return None;
                },
                None => {},
            }
            let m: usize = st.links.len();
            let mut q: usize = 0;
            while q < m
                invariant
                    m == st.links@.len(),
                    0 <= q <= m,
                    0 <= i < n,
                    n == links@.len(),
                    lv == links@.map_values(|l: ItemTag| l@),
                    lv[i as int] == l@,
                    st.links() == lv.take(i as int),
                    forall|k: int| 0 <= k < q ==> st.links()[k].id != l@.id,
                decreases m - q,
            {
                if str_eq(st.links[q].id.as_str(), l.id.as_str()) {
                    assert(st.links().len() == st.links@.len());
                    assert(lv.take(i as int).len() == i as int);
                    assert(q < i);
                    assert(st.links()[q as int] == st.links@[q as int]@);
                    assert(st.links@[q as int]@.id == l@.id);
                    assert(st.links()[q as int] == lv.take(i as int)[q as int]);
                    assert(q as int != i as int && lv[q as int].id == lv[i as int].id);
                    assert(!links_wf(lv));
                    return None;
                }
                q = q + 1;
            }
            st.links.push(l.copy());
            assert(st.links() =~= links@.map_values(|l: ItemTag| l@).take(i as int + 1));
            i = i + 1;
        }
        assert(links@.map_values(|l: ItemTag| l@).take(n as int) =~= links@.map_values(|l: ItemTag| l@));
        Some(st)
    }

    /// A fresh item id: one that no item carries, starting with "item_".
    fn fresh_item_id(&self) -> (r: String)
        ensures
            !has_item(self.items(), r@),
            has_prefix(r@, "item_"@),
    {
        let mut taken: Vec<&str> = Vec::new();
        let n: usize = self.items.len();
        let mut i: usize = 0;
        while i < n
            invariant
                n == self.items@.len(),
                0 <= i <= n,
                taken@.len() == i,
                forall|k: int| 0 <= k < i ==> #[trigger] taken@[k]@ == self.items()[k].id,
            decreases n - i,
        {
            taken.push(self.items[i].id.as_str());
            i = i + 1;
        }
        let r = fresh_id("item", &taken);
        proof {
            reveal_strlit("item");
            reveal_strlit("item_");
            assert("item"@.push('_') =~= "item_"@);
        }
        assert forall|k: int| 0 <= k < self.items().len() implies self.items()[k].id != r@ by {
            assert(taken@[k]@ == self.items()[k].id);
        }
        r
    }

    /// A fresh tag id: one that no tag carries, starting with "tag_".
    fn fresh_tag_id(&self) -> (r: String)
        ensures
            !has_tag(self.tags(), r@),
            has_prefix(r@, "tag_"@),
    {
        let mut taken: Vec<&str> = Vec::new();
        let n: usize = self.tags.len();
        let mut i: usize = 0;
        while i < n
            invariant
                n == self.tags@.len(),
                0 <= i <= n,
                taken@.len() == i,
                forall|k: int| 0 <= k < i ==> #[trigger] taken@[k]@ == self.tags()[k].id,
            decreases n - i,
        {
            taken.push(self.tags[i].id.as_str());
            i = i + 1;
        }
        let r = fresh_id("tag", &taken);
        proof {
            reveal_strlit("tag");
            reveal_strlit("tag_");
            assert("tag"@.push('_') =~= "tag_"@);
        }
        assert forall|k: int| 0 <= k < self.tags().len() implies self.tags()[k].id != r@ by {
            assert(taken@[k]@ == self.tags()[k].id);
        }
        r
    }

    /// A fresh link id: one that no link carries, starting with "item_tag_".
    fn fresh_link_id(&self) -> (r: String)
        ensures
            forall|j: int| 0 <= j < self.links().len() ==> self.links()[j].id != r@,
            has_prefix(r@, "item_tag_"@),
    {
        let mut taken: Vec<&str> = Vec::new();
        let n: usize = self.links.len();
        let mut i: usize = 0;
        while i < n
            invariant
                n == self.links@.len(),
                0 <= i <= n,
                taken@.len() == i,
                forall|k: int| 0 <= k < i ==> #[trigger] taken@[k]@ == self.links()[k].id,
            decreases n - i,
        {
            taken.push(self.links[i].id.as_str());
            i = i + 1;
        }
        let r = fresh_id("item_tag", &taken);
        proof {
            reveal_strlit("item_tag");
            reveal_strlit("item_tag_");
            assert("item_tag"@.push('_') =~= "item_tag_"@);
        }
        assert forall|k: int| 0 <= k < self.links().len() implies self.links()[k].id != r@ by {
            assert(taken@[k]@ == self.links()[k].id);
        }
        r
    }
}

/// An id that starts with the prefix and an underscore and is none of
/// `taken`: a random one, or, when that one is taken, one that differs from
/// the k-th taken id right after the prefix, at position k (or in length).
fn fresh_id(prefix: &str, taken: &Vec<&str>) -> (r: String)
    ensures
        has_prefix(r@, prefix@.push('_')),
        forall|k: int| 0 <= k < taken@.len() ==> taken@[k]@ != r@,
{
    let cand = generate_id(prefix);
    let n: usize = taken.len();
    let mut free = true;
    let mut i: usize = 0;
    while i < n
        invariant
            n == taken@.len(),
            0 <= i <= n,
            free ==> forall|k: int| 0 <= k < i ==> taken@[k]@ != cand@,
        decreases n - i,
    {
        if str_eq(taken[i], cand.as_str()) {
            free = false;
        }
        i = i + 1;
    }
    if free {
        return cand;
    }
    let mut out = prefix.to_owned();
    push_char(&mut out, '_');
    let ghost head = out@;
    let mut k: usize = 0;
    while k < n
        invariant
            n == taken@.len(),
            0 <= k <= n,
            out@.len() == head.len() + k,
            out@.subrange(0, head.len() as int) == head,
            head == prefix@.push('_'),
            forall|j: int| 0 <= j < k ==> differs_at(taken@[j]@, out@, head.len() + j),
        decreases n - k,
    {
        let pos: usize = out.unicode_len();
        let ghost before = out@;
        diagonal_step(&mut out, taken[k], pos);
        assert(out@.subrange(0, head.len() as int) =~= before.subrange(0, head.len() as int));
        assert forall|j: int| 0 <= j < k + 1 implies differs_at(taken@[j]@, out@, head.len() + j) by {
            if j < k {
                assert(out@[head.len() + j] == before[head.len() + j]);
            }
        }
        k = k + 1;
    }
    assert forall|j: int| 0 <= j < n implies taken@[j]@ != out@ by {
        lemma_differs(taken@[j]@, out@, head.len() + j);
    }
    out
}


/// The ordering key of an item.
fn key_of(it: &Item, updated: bool) -> (r: i64)
    ensures
        r == if updated {
            it@.updated_at
        } else {
            it@.created_at
        },
{
    if updated {
        it.updated_at
    } else {
        it.created_at
    }
}

/// Whether the item passes the filter.
fn item_matches(f: &ItemFilter, it: &Item) -> (r: bool)
    ensures
        r == matches_filter(*f, it@),
{
    let alive_ok = match f.include_deleted {
        Some(true) => true,
        _ => it.deleted_at == 0,
    };
    let type_ok = match &f.item_type {
        Some(t) => str_eq(it.item_type.as_str(), t.as_str()),
        None => true,
    };
    let starred_ok = match f.starred {
        Some(v) => it.starred == v,
        None => true,
    };
    let archived_ok = match f.archived {
        Some(v) => it.archived == v,
        None => true,
    };
    alive_ok && type_ok && starred_ok && archived_ok
}

/// `out[j]` differs from `id[j]`, or `id` is too short to have a `j`-th char.
pub open spec fn differs_at(id: Seq<char>, out: Seq<char>, j: int) -> bool {
    id.len() <= j || out[j] != id[j]
}

proof fn lemma_differs(id: Seq<char>, out: Seq<char>, j: int)
    requires
        0 <= j < out.len(),
        differs_at(id, out, j),
    ensures
        id != out,
{
    if id.len() > j {
        assert(id[j] != out[j]);
    } else {
        assert(id.len() != out.len());
    }
}

/// Appends a char that differs from `id`'s `k`-th char.
fn diagonal_step(out: &mut String, id: &str, k: usize)
    requires
        old(out)@.len() == k,
    ensures
        final(out)@.len() == k + 1,
        final(out)@.subrange(0, k as int) == old(out)@,
        differs_at(id@, final(out)@, k as int),
{
    let c = if k < id.unicode_len() && id.get_char(k) == 'a' {
        'b'
    } else {
        'a'
    };
    push_char(out, c);
    assert(final(out)@.subrange(0, k as int) =~= old(out)@);
}

/// Adding an item and then getting it by the returned id gives back the
/// stored content and type, alive (`deleted_at` is zero).
pub proof fn lemma_add_then_get(
    a: Store,
    b: Store,
    item_type: Seq<char>,
    options: ItemOptions,
    now: int,
    r: Result<String, StoreError>,
    got: Option<Item>,
)
    requires
        a.wf(),
        valid_item_type(item_type),
        add_item_post(a, b, item_type, options, now, r),
        r is Ok,
        get_item_post(b, r->Ok_0@, got),
    ensures
        got matches Some(it) && (it@.content == opt_view(options.content) && it@.item_type
            == item_type && it@.deleted_at == 0 && it@.id == r->Ok_0@),
{
    let id = r->Ok_0@;
    let n = a.items().len() as int;
    assert(b.items()[n].id == id);
    assert(has_live_item(b.items(), id));
    let it = got->0;
    let k = choose|k: int| 0 <= k < b.items().len() && b.items()[k] == it@ && it@.id == id && is_live(it@);
    if k != n {
        assert(a.items()[k] == b.items()[k]);
        assert(has_item(a.items(), id));
    }
}

/// Linking an item to a tag twice counts the use once: the second call
/// reports the existing link and changes nothing, and the tag's frequency
/// grew by one in all (or not at all when the link was already there).
pub proof fn lemma_tag_item_idempotent(
    s0: Store,
    s1: Store,
    s2: Store,
    item_id: Seq<char>,
    tag_id: Seq<char>,
    now1: int,
    now2: int,
    r1: Result<(ItemTag, bool), StoreError>,
    r2: Result<(ItemTag, bool), StoreError>,
)
    requires
        s0.wf(),
        tag_item_post(s0, s1, item_id, tag_id, now1, r1),
        tag_item_post(s1, s2, item_id, tag_id, now2, r2),
        r1 is Ok,
    ensures
        r2 matches Ok((_, true)),
        s2.tags() == s1.tags(),
        s2.links() == s1.links(),
        forall|k: int|
            0 <= k < s0.tags().len() && #[trigger] s0.tags()[k].id == tag_id ==> s2.tags()[k].frequency
                == if has_link(s0.links(), item_id, tag_id) {
                s0.tags()[k].frequency
            } else {
                next_frequency(s0.tags()[k].frequency)
            },
{
    if !has_link(s0.links(), item_id, tag_id) {
        assert(r1 matches Ok((_, false)));
        match r1 {
            Ok((l, _)) => {
                assert(has_link(s1.links(), item_id, tag_id)) by {
                    assert(s1.links()[s1.links().len() - 1] == l@);
                }
            },
            Err(_) => {},
        }
    }
}

/// After a soft delete `get_item` finds nothing, while a query that asks
/// for deleted items still returns the item, with a non-zero `deleted_at`.
pub proof fn lemma_soft_delete_hides(
    a: Store,
    b: Store,
    id: Seq<char>,
    now: int,
    deleted: bool,
    got: Option<Item>,
    f: ItemFilter,
    q: Seq<ItemView>,
)
    requires
        a.wf(),
        now > 0,
        has_live_item(a.items(), id),
        delete_item_post(a, b, id, now, deleted),
        get_item_post(b, id, got),
        f.include_deleted == Some(true),
        f.item_type is None,
        f.starred is None,
        f.archived is None,
        f.limit is None,
        query_result(f, b.items(), q),
    ensures
        deleted,
        got is None,
        exists|k: int|
            0 <= k < q.len() && #[trigger] q[k].id == id && q[k].deleted_at != 0,
{
    broadcast use vstd::seq_lib::group_to_multiset_ensures;

    let k = choose|k: int| 0 <= k < a.items().len() && #[trigger] a.items()[k].id == id && is_live(a.items()[k]);
    let v = b.items()[k];
    assert(v == soft_deleted_view(a.items()[k], now));
    assert forall|j: int| 0 <= j < b.items().len() && #[trigger] b.items()[j].id == id implies !is_live(
        b.items()[j],
    ) by {
        if j != k {
            assert(b.items()[j] == a.items()[j]);
        }
    }
    let pred = |it: ItemView| matches_filter(f, it);
    assert(pred(v));
    b.items().lemma_filter_contains(pred, k);
    let s = choose|s: Seq<ItemView>|
        {
            &&& sorted_desc(f, s)
            &&& s.to_multiset() == matching(f, b.items()).to_multiset()
            &&& q == s.take(limited_len(f, s.len() as int))
        };
    assert(matching(f, b.items()).contains(v));
    assert(matching(f, b.items()).to_multiset().count(v) > 0);
    assert(s.contains(v));
    assert(q =~= s);
    let m = choose|m: int| 0 <= m < s.len() && s[m] == v;
    assert(q[m] == v);
    assert(v.id == id && v.deleted_at == now);
    assert(0 <= m < q.len() && q[m].id == id && q[m].deleted_at != 0);
}

} // verus!
