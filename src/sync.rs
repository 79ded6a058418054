//! The sync engine: merging pulled remote items into the store by whole-record
//! last-write-wins, choosing what to push, recording what the server
//! acknowledged, and the watermark bookkeeping of a full sync.
//!
//! The network round trips themselves happen outside this module: it is
//! handed what the server sent and hands back what to send.
use vstd::prelude::*;

use crate::model::{opt_view, Item, ItemView, Tag, TagView};
use crate::store::{
    has_item, has_live_sync_id, is_live, is_synced, is_valid_item_type, overwritten_view,
    pending_in, pulled_item_view, pushed_view, tag_attached, tag_is_named, to_push, valid_item_type, Store,
    StoreError,
};

verus! {

/// What `chrono::DateTime::parse_from_rfc3339(s)` gives, as milliseconds
/// since the epoch, or `None` when it fails.
pub uninterp spec fn rfc3339_millis(s: Seq<char>) -> Option<i64>;

/// What `chrono::DateTime::parse_from_str(s, "%Y-%m-%dT%H:%M:%S%.fZ")` gives,
/// as milliseconds since the epoch, or `None` when it fails.
pub uninterp spec fn zulu_millis(s: Seq<char>) -> Option<i64>;

/// Relies on chrono's DateTime::parse_from_rfc3339 and timestamp_millis.
#[verifier::external_body]
fn parse_rfc3339_millis(s: &str) -> (r: Option<i64>)
    ensures
        r == rfc3339_millis(s@),
{
    match chrono::DateTime::parse_from_rfc3339(s) {
        Ok(dt) => Some(dt.timestamp_millis()),
        Err(_) => None,
    }
}

/// Relies on chrono's DateTime::parse_from_str with a fixed UTC layout, and
/// timestamp_millis.
#[verifier::external_body]
fn parse_zulu_millis(s: &str) -> (r: Option<i64>)
    ensures
        r == zulu_millis(s@),
{
    match chrono::DateTime::parse_from_str(s, "%Y-%m-%dT%H:%M:%S%.fZ") {
        Ok(dt) => Some(dt.timestamp_millis()),
        Err(_) => None,
    }
}

/// An ISO 8601 time as milliseconds since the epoch; zero when unreadable.
pub open spec fn iso_millis(s: Seq<char>) -> int {
    match rfc3339_millis(s) {
        Some(v) => v as int,
        None => match zulu_millis(s) {
            Some(v) => v as int,
            None => 0,
        },
    }
}

/// Reads an ISO 8601 time (RFC 3339 first, then a plain UTC layout) as
/// milliseconds since the epoch; zero when neither reads it.
pub fn from_iso_string(iso: &str) -> (r: i64)
    ensures
        r == iso_millis(iso@),
{
    match parse_rfc3339_millis(iso) {
        Some(v) => v,
        None => match parse_zulu_millis(iso) {
            Some(v) => v,
            None => 0,
        },
    }
}

/// An item as the server sends it. `metadata` holds the JSON text of the
/// remote metadata, if any; the times are ISO 8601.
#[derive(Debug)]
pub struct ServerItem {
    pub id: String,
    pub item_type: String,
    pub content: Option<String>,
    pub tags: Vec<String>,
    pub metadata: Option<String>,
    pub created_at: String,
    pub updated_at: String,
}

/// What merging one remote item did.
#[derive(Debug, Clone, Copy, PartialEq, Eq, Structural)]
pub enum MergeOutcome {
    /// The remote version was taken (new locally, or newer than the local one).
    Pulled,
    /// The local version is newer and was kept; the next push sends it.
    Conflict,
    /// Both versions have the same update time.
    Skipped,
}

/// The store is the same before and after.
pub open spec fn same_state(a: Store, b: Store) -> bool {
    a.items() == b.items() && a.tags() == b.tags() && a.links() == b.links()
}

/// After `b`, the item is linked to each named tag and to no other tag, and
/// the links of every other item are those of `a`.
pub open spec fn tags_replaced(a: Store, b: Store, item_id: Seq<char>, names: Seq<String>) -> bool {
    &&& forall|j: int|
        0 <= j < names.len() ==> tag_attached(b.tags(), b.links(), item_id, #[trigger] names[j]@)
    &&& forall|m: int|
        0 <= m < b.links().len() && #[trigger] b.links()[m].item_id != item_id ==> a.links().contains(
            b.links()[m],
        )
    &&& forall|j: int|
        0 <= j < a.links().len() && #[trigger] a.links()[j].item_id != item_id ==> b.links().contains(
            a.links()[j],
        )
    &&& forall|m: int|
        0 <= m < b.links().len() && #[trigger] b.links()[m].item_id == item_id ==> tag_is_named(
            b.tags(),
            b.links()[m].tag_id,
            names,
        )
}

/// What merging the remote item `s` into store `a` at time `now` does,
/// giving store `b` and result `r`.
pub open spec fn merge_post(
    a: Store,
    b: Store,
    s: ServerItem,
    now: int,
    r: Result<MergeOutcome, StoreError>,
) -> bool {
    let sid = s.id@;
    let remote_updated = iso_millis(s.updated_at@);
    &&& b.wf()
    &&& sid.len() == 0 ==> r == Err::<MergeOutcome, StoreError>(StoreError::Validation)
        && same_state(a, b)
    &&& sid.len() > 0 && !has_live_sync_id(a.items(), sid) && !valid_item_type(s.item_type@)
        ==> r == Err::<MergeOutcome, StoreError>(StoreError::Validation) && same_state(a, b)
    &&& sid.len() > 0 && !has_live_sync_id(a.items(), sid) && valid_item_type(s.item_type@) ==> {
        &&& r == Ok::<MergeOutcome, StoreError>(MergeOutcome::Pulled)
        &&& b.items().len() == a.items().len() + 1
        &&& b.items().drop_last() == a.items()
        &&& !has_item(a.items(), b.items().last().id)
        &&& b.items().last() == pulled_item_view(
            b.items().last().id,
            s.item_type@,
            opt_view(s.content),
            opt_view(s.metadata),
            sid,
            iso_millis(s.created_at@),
            remote_updated,
            now,
        )
        &&& tags_replaced(a, b, b.items().last().id, s.tags@)
    }
    &&& forall|k: int|
        0 <= k < a.items().len() && sid.len() > 0 && is_live(#[trigger] a.items()[k])
            && a.items()[k].sync_id == sid ==> {
            &&& remote_updated > a.items()[k].updated_at ==> {
                &&& r == Ok::<MergeOutcome, StoreError>(MergeOutcome::Pulled)
                &&& b.items() == a.items().update(
                    k,
                    overwritten_view(
                        a.items()[k],
                        opt_view(s.content),
                        opt_view(s.metadata),
                        remote_updated,
                        now,
                    ),
                )
                &&& tags_replaced(a, b, a.items()[k].id, s.tags@)
            }
            &&& remote_updated < a.items()[k].updated_at ==> r == Ok::<MergeOutcome, StoreError>(
                MergeOutcome::Conflict,
            ) && same_state(a, b)
            &&& remote_updated == a.items()[k].updated_at ==> r == Ok::<MergeOutcome, StoreError>(
                MergeOutcome::Skipped,
            ) && same_state(a, b)
        }
}

/// Merges one remote item into the store by whole-record last-write-wins.
///
/// The local match is the live item whose sync id is the remote id. With no
/// match a new synced item is created with the remote tags. With a match, a
/// newer remote version replaces the whole record: content (absent included),
/// metadata and tags, and the remote update time; an older one is a conflict that keeps the local
/// version; an equal one is skipped. A remote item with an empty id, or a new
/// one of an unknown type, is rejected and changes nothing.
pub fn merge_server_item(store: &mut Store, item: &ServerItem, now: i64) -> (r: Result<
    MergeOutcome,
    StoreError,
>)
    requires
        old(store).wf(),
    ensures
        merge_post(*old(store), *final(store), *item, now as int, r),
{
    if item.id.as_str().unicode_len() == 0 {
        return Err(StoreError::Validation);
    }
    let remote_updated = from_iso_string(item.updated_at.as_str());
    match store.find_live_by_sync_id(item.id.as_str()) {
        None => {
            if !is_valid_item_type(item.item_type.as_str()) {
                return Err(StoreError::Validation);
            }
            let remote_created = from_iso_string(item.created_at.as_str());
            let id = store.insert_pulled_item(
                item.item_type.as_str(),
                &item.content,
                &item.metadata,
                item.id.as_str(),
                remote_created,
                remote_updated,
                now,
            );
            let ghost mid = store.items();
            assert(mid.last().id == id@);
            assert(has_item(mid, id@)) by {
                assert(mid[mid.len() - 1].id == id@);
            }
            store.replace_item_tags(id.as_str(), &item.tags, now);
            assert(store.items().drop_last() =~= old(store).items());
            Ok(MergeOutcome::Pulled)
        },
        Some(k) => {
            proof {
                let sid = item.id@;
                assert forall|q: int|
                    0 <= q < old(store).items().len() && is_live(#[trigger] old(store).items()[q])
                        && old(store).items()[q].sync_id == sid implies q == k as int by {
                    if q != k as int {
                        assert(old(store).items()[k as int].sync_id.len() > 0);
                    }
                }
            }
            let local_updated = store.updated_at_of(k);
            if remote_updated > local_updated {
                let id = store.item_id_at(k);
                store.overwrite_with_pulled(k, &item.content, &item.metadata, remote_updated, now);
                assert(has_item(store.items(), id@)) by {
                    assert(store.items()[k as int].id == id@);
                }
                store.replace_item_tags(id.as_str(), &item.tags, now);
                Ok(MergeOutcome::Pulled)
            } else if local_updated > remote_updated {
                Ok(MergeOutcome::Conflict)
            } else {
                Ok(MergeOutcome::Skipped)
            }
        },
    }
}

/// Counts of one pull.
#[derive(Debug, Clone, Copy)]
pub struct PullResult {
    pub pulled: i64,
    pub conflicts: i64,
}

/// How many results in `outs` are `Ok(o)`.
pub open spec fn count_outcome(outs: Seq<Result<MergeOutcome, StoreError>>, o: MergeOutcome) -> int
    decreases outs.len(),
{
    if outs.len() == 0 {
        0
    } else {
        count_outcome(outs.drop_last(), o) + if outs.last() == Ok::<MergeOutcome, StoreError>(o) {
            1int
        } else {
            0int
        }
    }
}

/// `states` are the stores before and after each merge of `items`, in
/// order, and `outs` the results of those merges.
pub open spec fn pull_trace(
    states: Seq<Store>,
    outs: Seq<Result<MergeOutcome, StoreError>>,
    items: Seq<ServerItem>,
    now: int,
) -> bool {
    &&& states.len() == items.len() + 1
    &&& outs.len() == items.len()
    &&& forall|j: int|
        0 <= j < items.len() ==> merge_post(
            #[trigger] states[j],
            states[j + 1],
            items[j],
            now,
            outs[j],
        )
}

/// What `pull_items(items, now)` does, from store `a` to store `b` with
/// result `r`: the items are merged one after the other, and the counts are
/// those of the merges' outcomes.
pub open spec fn pull_post(a: Store, b: Store, items: Seq<ServerItem>, now: int, r: PullResult) -> bool {
    &&& b.wf()
    &&& exists|states: Seq<Store>, outs: Seq<Result<MergeOutcome, StoreError>>|
        {
            &&& pull_trace(states, outs, items, now)
            &&& states[0] == a
            &&& states.last() == b
            &&& r.pulled == count_outcome(outs, MergeOutcome::Pulled)
            &&& r.conflicts == count_outcome(outs, MergeOutcome::Conflict)
        }
}

/// Merges the pulled remote items one after the other and counts the ones
/// taken and the conflicts. A rejected item is passed over; the others go on.
pub fn pull_items(store: &mut Store, items: &Vec<ServerItem>, now: i64) -> (r: PullResult)
    requires
        old(store).wf(),
        items@.len() < i64::MAX,
    ensures
        pull_post(*old(store), *final(store), items@, now as int, r),
{
    let ghost mut states: Seq<Store> = seq![*store];
    let ghost mut outs: Seq<Result<MergeOutcome, StoreError>> = Seq::empty();
    let mut pulled: i64 = 0;
    let mut conflicts: i64 = 0;
    let n: usize = items.len();
    let mut i: usize = 0;
    while i < n
        invariant
            n == items@.len(),
            n < i64::MAX,
            0 <= i <= n,
            store.wf(),
            states.len() == i + 1,
            outs.len() == i,
            states[0] == *old(store),
            states.last() == *store,
            forall|j: int|
                0 <= j < i ==> merge_post(#[trigger] states[j], states[j + 1], items@[j], now as int, outs[j]),
            pulled == count_outcome(outs, MergeOutcome::Pulled),
            conflicts == count_outcome(outs, MergeOutcome::Conflict),
            0 <= pulled + conflicts <= i,
            0 <= pulled,
            0 <= conflicts,
        decreases n - i,
    {
        let out = merge_server_item(store, &items[i], now);
        proof {
            let prev_outs = outs;
            let prev_states = states;
            outs = outs.push(out);
            states = states.push(*store);
            assert(outs.drop_last() == prev_outs);
            assert forall|j: int| 0 <= j < i + 1 implies merge_post(
                #[trigger] states[j],
                states[j + 1],
                items@[j],
                now as int,
                outs[j],
            ) by {
                if j < i {
                    assert(states[j] == prev_states[j]);
                    assert(states[j + 1] == prev_states[j + 1]);
                    assert(outs[j] == prev_outs[j]);
                }
            }
        }
        match out {
            Ok(MergeOutcome::Pulled) => {
                pulled = pulled + 1;
            },
            Ok(MergeOutcome::Conflict) => {
                conflicts = conflicts + 1;
            },
            _ => {},
        }
        i = i + 1;
    }
    assert(pull_trace(states, outs, items@, now as int));
    PullResult { pulled, conflicts }
}

/// What a push sends for one item. `sync_id` is the idempotency key: the
/// local id, so that a retried push creates no second record on the server.
/// `metadata` is the local JSON text, or `None` when it is empty or `{}`.
#[derive(Debug)]
pub struct PushPayload {
    pub local_id: String,
    pub item_type: String,
    pub content: Option<String>,
    pub tags: Vec<String>,
    pub metadata: Option<String>,
    pub sync_id: String,
}

pub open spec fn push_metadata(m: Seq<char>) -> Option<Seq<char>> {
    if m.len() == 0 || m == "{}"@ {
        None
    } else {
        Some(m)
    }
}

/// The payload that pushes item `it` with the given tags.
pub open spec fn payload_matches(p: PushPayload, it: ItemView, tag_names: Seq<Seq<char>>) -> bool {
    &&& p.local_id@ == it.id
    &&& p.sync_id@ == it.id
    &&& p.item_type@ == it.item_type
    &&& opt_view(p.content) == it.content
    &&& opt_view(p.metadata) == push_metadata(it.metadata)
    &&& p.tags@.map_values(|t: String| t@) == tag_names
}

/// The names of the tags linked to an item, in link order.
pub open spec fn tag_names_of(store: Store, item_id: Seq<char>) -> Seq<Seq<char>> {
    crate::store::tags_of_item(store.links(), store.tags(), item_id).map_values(|t: TagView| t.name)
}

fn metadata_for_push(m: &String) -> (r: Option<String>)
    ensures
        opt_view(r) == push_metadata(m@),
{
    if m.as_str().unicode_len() == 0 || crate::model::str_eq(m.as_str(), "{}") {
        None
    } else {
        Some(m.clone())
    }
}

fn tag_names(tags: &Vec<Tag>) -> (r: Vec<String>)
    ensures
        r@.map_values(|t: String| t@) == tags@.map_values(|t: Tag| t@).map_values(
            |t: TagView| t.name,
        ),
{
    let mut out: Vec<String> = Vec::new();
    let n: usize = tags.len();
    let mut i: usize = 0;
    while i < n
        invariant
            n == tags@.len(),
            0 <= i <= n,
            out@.len() == i,
            forall|j: int| 0 <= j < i ==> #[trigger] out@[j]@ == tags@[j]@.name,
        decreases n - i,
    {
        out.push(tags[i].name.clone());
        i = i + 1;
    }
    assert(out@.map_values(|t: String| t@) =~= tags@.map_values(|t: Tag| t@).map_values(
        |t: TagView| t.name,
    ));
    out
}

/// The payloads of one push: one per item to push, in store order, each with
/// the names of the item's tags. Items never synced are always sent; once a
/// sync has happened (`watermark > 0`), so are items changed since their
/// last sync. Soft-deleted items are never sent.
pub fn build_push_batch(store: &Store, watermark: i64) -> (r: Vec<PushPayload>)
    requires
        store.wf(),
    ensures
        r@.len() == store.items().filter(|it: ItemView| to_push(it, watermark as int)).len(),
        forall|j: int|
            0 <= j < r@.len() ==> payload_matches(
                #[trigger] r@[j],
                store.items().filter(|it: ItemView| to_push(it, watermark as int))[j],
                tag_names_of(*store, store.items().filter(|it: ItemView| to_push(it, watermark as int))[j].id),
            ),
{
    let items = store.items_to_push(watermark);
    let ghost sel = store.items().filter(|it: ItemView| to_push(it, watermark as int));
    let mut out: Vec<PushPayload> = Vec::new();
    let n: usize = items.len();
    let mut i: usize = 0;
    while i < n
        invariant
            store.wf(),
            n == items@.len(),
            items@.map_values(|it: Item| it@) == sel,
            sel == store.items().filter(|it: ItemView| to_push(it, watermark as int)),
            0 <= i <= n,
            out@.len() == i,
            forall|j: int|
                0 <= j < i ==> payload_matches(#[trigger] out@[j], sel[j], tag_names_of(*store, sel[j].id)),
        decreases n - i,
    {
        let it = &items[i];
        assert(sel[i as int] == it@);
        let tags = store.get_item_tags(it.id.as_str());
        let names = tag_names(&tags);
        let p = PushPayload {
            local_id: it.id.clone(),
            item_type: it.item_type.clone(),
            content: crate::model::copy_string_opt(&it.content),
            tags: names,
            metadata: metadata_for_push(&it.metadata),
            sync_id: it.id.clone(),
        };
        out.push(p);
        i = i + 1;
    }
    out
}

/// Counts of one push.
#[derive(Debug, Clone, Copy)]
pub struct PushResult {
    pub pushed: i64,
    pub failed: i64,
}

/// What recording one server answer does: `reply` is the remote id the
/// server returned, or `None` when the request failed.
pub open spec fn push_step_post(a: Store, b: Store, local_id: Seq<char>, reply: Option<String>, now: int, ok: bool) -> bool {
    &&& b.wf()
    &&& b.tags() == a.tags()
    &&& b.links() == a.links()
    &&& reply is None ==> !ok && b.items() == a.items()
    &&& ok ==> forall|k: int|
        0 <= k < a.items().len() && a.items()[k].id == local_id ==> b.items() == a.items().update(
            k,
            pushed_view(a.items()[k], reply->0@, now),
        )
    &&& !ok ==> b.items() == a.items()
    &&& ok ==> reply is Some && crate::store::has_live_item(a.items(), local_id) && reply->0@.len() > 0
    &&& reply matches Some(rid) ==> (crate::store::has_live_item(a.items(), local_id) && rid@.len() > 0
        && (forall|k: int|
        0 <= k < a.items().len() && is_live(#[trigger] a.items()[k]) && a.items()[k].sync_id
            == rid@ ==> a.items()[k].id == local_id) ==> ok)
}

/// How many of `oks` are true.
pub open spec fn count_true(oks: Seq<bool>) -> int
    decreases oks.len(),
{
    if oks.len() == 0 {
        0
    } else {
        count_true(oks.drop_last()) + if oks.last() {
            1int
        } else {
            0int
        }
    }
}

/// What `apply_push_results(batch, replies, now)` does, from store `a` to
/// store `b` with result `r`: the answers are recorded one after the other.
pub open spec fn push_post(
    a: Store,
    b: Store,
    batch: Seq<PushPayload>,
    replies: Seq<Option<String>>,
    now: int,
    r: PushResult,
) -> bool {
    &&& b.wf()
    &&& exists|states: Seq<Store>, oks: Seq<bool>|
        {
            &&& states.len() == batch.len() + 1
            &&& oks.len() == batch.len()
            &&& states[0] == a
            &&& states.last() == b
            &&& forall|j: int|
                0 <= j < batch.len() ==> push_step_post(
                    #[trigger] states[j],
                    states[j + 1],
                    batch[j].local_id@,
                    replies[j],
                    now,
                    oks[j],
                )
            &&& r.pushed == count_true(oks)
            &&& r.failed == batch.len() - count_true(oks)
        }
}

/// Records the server's answers to one push, in order: `replies[j]` answers
/// `batch[j]`, with the remote id on success and `None` on failure. A
/// success marks the item synced at `now`; a failure, or an answer that
/// cannot be recorded, is counted as failed and the batch goes on.
pub fn apply_push_results(
    store: &mut Store,
    batch: &Vec<PushPayload>,
    replies: &Vec<Option<String>>,
    now: i64,
) -> (r: PushResult)
    requires
        old(store).wf(),
        batch@.len() == replies@.len(),
        batch@.len() < i64::MAX,
    ensures
        push_post(*old(store), *final(store), batch@, replies@, now as int, r),
{
    let ghost mut states: Seq<Store> = seq![*store];
    let ghost mut oks: Seq<bool> = Seq::empty();
    let mut pushed: i64 = 0;
    let mut failed: i64 = 0;
    let n: usize = batch.len();
    let mut i: usize = 0;
    while i < n
        invariant
            n == batch@.len(),
            n == replies@.len(),
            n < i64::MAX,
            0 <= i <= n,
            store.wf(),
            states.len() == i + 1,
            oks.len() == i,
            states[0] == *old(store),
            states.last() == *store,
            forall|j: int|
                0 <= j < i ==> push_step_post(
                    #[trigger] states[j],
                    states[j + 1],
                    batch@[j].local_id@,
                    replies@[j],
                    now as int,
                    oks[j],
                ),
            pushed == count_true(oks),
            failed == i - count_true(oks),
            0 <= pushed <= i,
        decreases n - i,
    {
        let ok = match &replies[i] {
            Some(rid) => store.record_push(batch[i].local_id.as_str(), rid.as_str(), now),
            None => false,
        };
        proof {
            let prev_oks = oks;
            let prev_states = states;
            oks = oks.push(ok);
            states = states.push(*store);
            assert(oks.drop_last() == prev_oks);
            assert forall|j: int| 0 <= j < i + 1 implies push_step_post(
                #[trigger] states[j],
                states[j + 1],
                batch@[j].local_id@,
                replies@[j],
                now as int,
                oks[j],
            ) by {
                if j < i {
                    assert(states[j] == prev_states[j]);
                    assert(states[j + 1] == prev_states[j + 1]);
                    assert(oks[j] == prev_oks[j]);
                }
            }
        }
        if ok {
            pushed = pushed + 1;
        } else {
            failed = failed + 1;
        }
        i = i + 1;
    }
    PushResult { pushed, failed }
}

/// Where and how to sync, and the watermark of the last successful sync.
#[derive(Debug)]
pub struct SyncConfig {
    pub server_url: String,
    pub api_key: String,
    /// Start time of the last successful full sync; zero when none.
    pub last_sync_time: i64,
    pub auto_sync: bool,
}

/// Counts of a full sync and the new watermark.
#[derive(Debug, Clone, Copy)]
pub struct SyncResult {
    pub pulled: i64,
    pub pushed: i64,
    pub conflicts: i64,
    pub last_sync_time: i64,
}

/// A cheap health signal: configuration and how much is waiting to be pushed.
#[derive(Debug, Clone, Copy)]
pub struct SyncStatus {
    pub configured: bool,
    pub last_sync_time: i64,
    pub pending_count: i64,
}

/// Why a sync could not run.
#[derive(Debug, Clone, Copy, PartialEq, Eq, Structural)]
pub enum SyncError {
    /// No server URL or no credential: nothing was sent.
    NotConfigured,
}

pub open spec fn is_configured(c: SyncConfig) -> bool {
    c.server_url@.len() > 0 && c.api_key@.len() > 0
}

/// The current configuration and the number of live items that are never
/// synced or changed since their last sync. Never fails.
pub fn get_sync_status(store: &Store, config: &SyncConfig) -> (r: SyncStatus)
    ensures
        r.configured == is_configured(*config),
        r.last_sync_time == config.last_sync_time,
        pending_in(store.items()).len() <= i64::MAX ==> r.pending_count == pending_in(
            store.items(),
        ).len(),
        pending_in(store.items()).len() > i64::MAX ==> r.pending_count == i64::MAX,
{
    let pending: usize = store.pending_count();
    let pending_count: i64 = if pending as u128 <= i64::MAX as u128 {
        pending as i64
    } else {
        i64::MAX
    };
    SyncStatus {
        configured: config.server_url.as_str().unicode_len() > 0 && config.api_key.as_str().unicode_len() > 0,
        last_sync_time: config.last_sync_time,
        pending_count,
    }
}

/// A full sync under way: when it started and what to ask the server for.
#[derive(Debug, Clone, Copy)]
pub struct FullSyncPlan {
    /// The next watermark: the start of this sync, not its end, so that
    /// changes made by others meanwhile are asked for again next time.
    pub start_time: i64,
    /// Ask for the items changed since this time, or for all items.
    pub since: Option<i64>,
    /// The watermark that the push compares against.
    pub watermark: i64,
}

/// Starts a full sync at `now`: refused, before any network use, when the
/// server URL or the credential is empty. The pull asks for the changes
/// since the watermark, or for everything when there was no sync yet.
pub fn begin_full_sync(config: &SyncConfig, now: i64) -> (r: Result<FullSyncPlan, SyncError>)
    ensures
        !is_configured(*config) ==> r == Err::<FullSyncPlan, SyncError>(SyncError::NotConfigured),
        is_configured(*config) ==> (r matches Ok(plan) && (plan.start_time == now
            && plan.watermark == config.last_sync_time && plan.since == (if config.last_sync_time
            > 0 {
            Some(config.last_sync_time)
        } else {
            None
        }))),
{
    if config.server_url.as_str().unicode_len() == 0 || config.api_key.as_str().unicode_len() == 0 {
        return Err(SyncError::NotConfigured);
    }
    let since = if config.last_sync_time > 0 {
        Some(config.last_sync_time)
    } else {
        None
    };
    Ok(FullSyncPlan { start_time: now, since, watermark: config.last_sync_time })
}

/// Ends a full sync whose pull and push both ran: the watermark advances to
/// the sync's start time, and the counts are reported.
pub fn finish_full_sync(
    config: &mut SyncConfig,
    plan: &FullSyncPlan,
    pull: &PullResult,
    push: &PushResult,
) -> (r: SyncResult)
    ensures
        final(config).last_sync_time == plan.start_time,
        final(config).server_url == old(config).server_url,
        final(config).api_key == old(config).api_key,
        final(config).auto_sync == old(config).auto_sync,
        r.pulled == pull.pulled,
        r.pushed == push.pushed,
        r.conflicts == pull.conflicts,
        r.last_sync_time == plan.start_time,
{
    config.last_sync_time = plan.start_time;
    SyncResult {
        pulled: pull.pulled,
        pushed: push.pushed,
        conflicts: pull.conflicts,
        last_sync_time: plan.start_time,
    }
}

/// A pulled remote item older than its local match is a conflict: the local
/// item is kept as it is, and the pull counts one conflict and nothing pulled.
pub proof fn lemma_pull_older_remote_is_conflict(
    a: Store,
    b: Store,
    items: Seq<ServerItem>,
    now: int,
    r: PullResult,
    k: int,
)
    requires
        a.wf(),
        items.len() == 1,
        items[0].id@.len() > 0,
        0 <= k < a.items().len(),
        is_live(a.items()[k]),
        a.items()[k].sync_id == items[0].id@,
        iso_millis(items[0].updated_at@) < a.items()[k].updated_at,
        pull_post(a, b, items, now, r),
    ensures
        r.conflicts == 1,
        r.pulled == 0,
        same_state(a, b),
{
    reveal_with_fuel(count_outcome, 2);
    let (states, outs) = choose|states: Seq<Store>, outs: Seq<Result<MergeOutcome, StoreError>>|
        {
            &&& pull_trace(states, outs, items, now)
            &&& states[0] == a
            &&& states.last() == b
            &&& r.pulled == count_outcome(outs, MergeOutcome::Pulled)
            &&& r.conflicts == count_outcome(outs, MergeOutcome::Conflict)
        };
    assert(merge_post(states[0], states[1], items[0], now, outs[0]));
    assert(outs[0] == Ok::<MergeOutcome, StoreError>(MergeOutcome::Conflict));
    assert(outs.drop_last().len() == 0);
}

/// A pulled remote item newer than its local match replaces the local
/// content and metadata, whatever they were (no content included), and
/// takes the remote update time; the pull counts one item pulled.
pub proof fn lemma_pull_newer_remote_wins(
    a: Store,
    b: Store,
    items: Seq<ServerItem>,
    now: int,
    r: PullResult,
    k: int,
)
    requires
        a.wf(),
        items.len() == 1,
        items[0].id@.len() > 0,
        0 <= k < a.items().len(),
        is_live(a.items()[k]),
        a.items()[k].sync_id == items[0].id@,
        iso_millis(items[0].updated_at@) > a.items()[k].updated_at,
        pull_post(a, b, items, now, r),
    ensures
        r.pulled == 1,
        r.conflicts == 0,
        b.items().len() == a.items().len(),
        b.items()[k].content == opt_view(items[0].content),
        b.items()[k].metadata == match items[0].metadata {
            Some(m) => m@,
            None => "{}"@,
        },
        b.items()[k].updated_at == iso_millis(items[0].updated_at@),
        b.items()[k].id == a.items()[k].id,
{
    reveal_with_fuel(count_outcome, 2);
    let (states, outs) = choose|states: Seq<Store>, outs: Seq<Result<MergeOutcome, StoreError>>|
        {
            &&& pull_trace(states, outs, items, now)
            &&& states[0] == a
            &&& states.last() == b
            &&& r.pulled == count_outcome(outs, MergeOutcome::Pulled)
            &&& r.conflicts == count_outcome(outs, MergeOutcome::Conflict)
        };
    assert(merge_post(states[0], states[1], items[0], now, outs[0]));
    assert(outs[0] == Ok::<MergeOutcome, StoreError>(MergeOutcome::Pulled));
    assert(outs.drop_last().len() == 0);
}

/// Pulling a remote item that matches no live local item creates exactly one
/// new item, in the synced state (when the remote update time is not after
/// `now`), carrying the remote id and linked to each remote tag.
pub proof fn lemma_pull_new_item_is_synced(
    a: Store,
    b: Store,
    items: Seq<ServerItem>,
    now: int,
    r: PullResult,
)
    requires
        a.wf(),
        items.len() == 1,
        items[0].id@.len() > 0,
        !has_live_sync_id(a.items(), items[0].id@),
        valid_item_type(items[0].item_type@),
        iso_millis(items[0].updated_at@) <= now,
        pull_post(a, b, items, now, r),
    ensures
        r.pulled == 1,
        b.items().len() == a.items().len() + 1,
        b.items().drop_last() == a.items(),
        is_synced(b.items().last()),
        b.items().last().sync_id == items[0].id@,
        forall|j: int|
            0 <= j < items[0].tags@.len() ==> tag_attached(
                b.tags(),
                b.links(),
                b.items().last().id,
                #[trigger] items[0].tags@[j]@,
            ),
{
    reveal_with_fuel(count_outcome, 2);
    let (states, outs) = choose|states: Seq<Store>, outs: Seq<Result<MergeOutcome, StoreError>>|
        {
            &&& pull_trace(states, outs, items, now)
            &&& states[0] == a
            &&& states.last() == b
            &&& r.pulled == count_outcome(outs, MergeOutcome::Pulled)
            &&& r.conflicts == count_outcome(outs, MergeOutcome::Conflict)
        };
    assert(merge_post(states[0], states[1], items[0], now, outs[0]));
    assert(outs[0] == Ok::<MergeOutcome, StoreError>(MergeOutcome::Pulled));
    assert(outs.drop_last().len() == 0);
}

/// Pushing an item and then pulling the server's copy of it creates no
/// duplicate: the remote id now matches the pushed item, so the pull updates
/// or keeps that item and the number of items stays the same.
pub proof fn lemma_push_then_pull_no_duplicate(
    a: Store,
    b: Store,
    c: Store,
    batch: Seq<PushPayload>,
    replies: Seq<Option<String>>,
    now1: int,
    pushed: PushResult,
    items: Seq<ServerItem>,
    now2: int,
    pulled: PullResult,
)
    requires
        a.wf(),
        batch.len() == 1,
        replies.len() == 1,
        push_post(a, b, batch, replies, now1, pushed),
        pushed.pushed == 1,
        items.len() == 1,
        replies[0] is Some,
        items[0].id@ == replies[0]->0@,
        pull_post(b, c, items, now2, pulled),
    ensures
        c.items().len() == b.items().len(),
        b.items().len() == a.items().len(),
        pulled.conflicts + pulled.pulled <= 1,
{
    reveal_with_fuel(count_true, 2);
    reveal_with_fuel(count_outcome, 2);
    let (ps, oks) = choose|states: Seq<Store>, oks: Seq<bool>|
        {
            &&& states.len() == batch.len() + 1
            &&& oks.len() == batch.len()
            &&& states[0] == a
            &&& states.last() == b
            &&& forall|j: int|
                0 <= j < batch.len() ==> push_step_post(
                    #[trigger] states[j],
                    states[j + 1],
                    batch[j].local_id@,
                    replies[j],
                    now1,
                    oks[j],
                )
            &&& pushed.pushed == count_true(oks)
            &&& pushed.failed == batch.len() - count_true(oks)
        };
    assert(push_step_post(ps[0], ps[1], batch[0].local_id@, replies[0], now1, oks[0]));
    assert(oks.drop_last().len() == 0);
    assert(oks[0]);
    let local_id = batch[0].local_id@;
    let rid = replies[0]->0@;
    let k = choose|k: int| 0 <= k < a.items().len() && #[trigger] a.items()[k].id == local_id && is_live(a.items()[k]);
    assert(b.items() == a.items().update(k, pushed_view(a.items()[k], rid, now1)));
    assert(b.items()[k].sync_id == rid && is_live(b.items()[k]));
    assert(has_live_sync_id(b.items(), rid));
    let (states, outs) = choose|states: Seq<Store>, outs: Seq<Result<MergeOutcome, StoreError>>|
        {
            &&& pull_trace(states, outs, items, now2)
            &&& states[0] == b
            &&& states.last() == c
            &&& pulled.pulled == count_outcome(outs, MergeOutcome::Pulled)
            &&& pulled.conflicts == count_outcome(outs, MergeOutcome::Conflict)
        };
    assert(merge_post(states[0], states[1], items[0], now2, outs[0]));
    assert(outs.drop_last().len() == 0);
    let ru = iso_millis(items[0].updated_at@);
    if ru > b.items()[k].updated_at {
        assert(c.items() == b.items().update(
            k,
            overwritten_view(b.items()[k], opt_view(items[0].content), opt_view(items[0].metadata), ru, now2),
        ));
    } else {
        assert(same_state(b, c));
    }
}

} // verus!
