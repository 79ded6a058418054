//! The records of the store, their mathematical views, and the small
//! helpers that copy and compare them.
use vstd::prelude::*;

verus! {

/// One stored piece of content: a url, a note, a tag set or an image.
#[derive(Debug)]
pub struct Item {
    pub id: String,
    pub item_type: String,
    pub content: Option<String>,
    pub mime_type: String,
    pub metadata: String,
    /// Remote identifier once synced; empty when never synced.
    pub sync_id: String,
    /// Provenance of the last sync write: empty (local only) or "server".
    pub sync_source: String,
    pub created_at: i64,
    pub updated_at: i64,
    /// Zero while alive, else the time of the soft delete.
    pub deleted_at: i64,
    /// Wall-clock time of the last successful round trip with the server.
    pub synced_at: i64,
    pub starred: i64,
    pub archived: i64,
}

pub struct ItemView {
    pub id: Seq<char>,
    pub item_type: Seq<char>,
    pub content: Option<Seq<char>>,
    pub mime_type: Seq<char>,
    pub metadata: Seq<char>,
    pub sync_id: Seq<char>,
    pub sync_source: Seq<char>,
    pub created_at: int,
    pub updated_at: int,
    pub deleted_at: int,
    pub synced_at: int,
    pub starred: int,
    pub archived: int,
}

pub open spec fn opt_view(o: Option<String>) -> Option<Seq<char>> {
    match o {
        Some(s) => Some(s@),
        None => None,
    }
}

impl View for Item {
    type V = ItemView;

    open spec fn view(&self) -> ItemView {
        ItemView {
            id: self.id@,
            item_type: self.item_type@,
            content: opt_view(self.content),
            mime_type: self.mime_type@,
            metadata: self.metadata@,
            sync_id: self.sync_id@,
            sync_source: self.sync_source@,
            created_at: self.created_at as int,
            updated_at: self.updated_at as int,
            deleted_at: self.deleted_at as int,
            synced_at: self.synced_at as int,
            starred: self.starred as int,
            archived: self.archived as int,
        }
    }
}

/// A tag: a named label whose usage is ranked by frecency.
#[derive(Debug)]
pub struct Tag {
    pub id: String,
    pub name: String,
    pub slug: Option<String>,
    pub color: String,
    pub parent_id: String,
    pub description: String,
    pub metadata: String,
    pub created_at: i64,
    pub updated_at: i64,
    pub frequency: i64,
    pub last_used_at: i64,
    pub frecency_score: i64,
}

pub struct TagView {
    pub id: Seq<char>,
    pub name: Seq<char>,
    pub slug: Option<Seq<char>>,
    pub color: Seq<char>,
    pub parent_id: Seq<char>,
    pub description: Seq<char>,
    pub metadata: Seq<char>,
    pub created_at: int,
    pub updated_at: int,
    pub frequency: int,
    pub last_used_at: int,
    pub frecency_score: int,
}

impl View for Tag {
    type V = TagView;

    open spec fn view(&self) -> TagView {
        TagView {
            id: self.id@,
            name: self.name@,
            slug: opt_view(self.slug),
            color: self.color@,
            parent_id: self.parent_id@,
            description: self.description@,
            metadata: self.metadata@,
            created_at: self.created_at as int,
            updated_at: self.updated_at as int,
            frequency: self.frequency as int,
            last_used_at: self.last_used_at as int,
            frecency_score: self.frecency_score as int,
        }
    }
}

/// The link between an item and a tag.
#[derive(Debug)]
pub struct ItemTag {
    pub id: String,
    pub item_id: String,
    pub tag_id: String,
    pub created_at: i64,
}

pub struct ItemTagView {
    pub id: Seq<char>,
    pub item_id: Seq<char>,
    pub tag_id: Seq<char>,
    pub created_at: int,
}

impl View for ItemTag {
    type V = ItemTagView;

    open spec fn view(&self) -> ItemTagView {
        ItemTagView {
            id: self.id@,
            item_id: self.item_id@,
            tag_id: self.tag_id@,
            created_at: self.created_at as int,
        }
    }
}

/// Fields that `add_item` and `update_item` may set; `None` leaves a field
/// at its default (on add) or unchanged (on update).
#[derive(Debug)]
pub struct ItemOptions {
    pub content: Option<String>,
    pub mime_type: Option<String>,
    pub metadata: Option<String>,
    pub starred: Option<i64>,
    pub archived: Option<i64>,
}

/// Predicates and ordering of `query_items`.
#[derive(Debug)]
pub struct ItemFilter {
    pub item_type: Option<String>,
    pub starred: Option<i64>,
    pub archived: Option<i64>,
    pub include_deleted: Option<bool>,
    pub limit: Option<i64>,
    /// `Some("updated")` orders by `updated_at`; anything else by `created_at`.
    pub sort_by: Option<String>,
}

pub fn copy_string_opt(o: &Option<String>) -> (r: Option<String>)
    ensures
        opt_view(r) == opt_view(*o),
{
    match o {
        Some(s) => Some(s.clone()),
        None => None,
    }
}

impl Item {
    /// A field-by-field copy.
    pub fn copy(&self) -> (r: Item)
        ensures
            r@ == self@,
    {
        Item {
            id: self.id.clone(),
            item_type: self.item_type.clone(),
            content: copy_string_opt(&self.content),
            mime_type: self.mime_type.clone(),
            metadata: self.metadata.clone(),
            sync_id: self.sync_id.clone(),
            sync_source: self.sync_source.clone(),
            created_at: self.created_at,
            updated_at: self.updated_at,
            deleted_at: self.deleted_at,
            synced_at: self.synced_at,
            starred: self.starred,
            archived: self.archived,
        }
    }
}

impl Tag {
    /// A field-by-field copy.
    pub fn copy(&self) -> (r: Tag)
        ensures
            r@ == self@,
    {
        Tag {
            id: self.id.clone(),
            name: self.name.clone(),
            slug: copy_string_opt(&self.slug),
            color: self.color.clone(),
            parent_id: self.parent_id.clone(),
            description: self.description.clone(),
            metadata: self.metadata.clone(),
            created_at: self.created_at,
            updated_at: self.updated_at,
            frequency: self.frequency,
            last_used_at: self.last_used_at,
            frecency_score: self.frecency_score,
        }
    }
}

impl ItemTag {
    /// A field-by-field copy.
    pub fn copy(&self) -> (r: ItemTag)
        ensures
            r@ == self@,
    {
        ItemTag {
            id: self.id.clone(),
            item_id: self.item_id.clone(),
            tag_id: self.tag_id.clone(),
            created_at: self.created_at,
        }
    }
}

/// Equality of two strings, char by char.
pub fn str_eq(a: &str, b: &str) -> (r: bool)
    ensures
        r == (a@ == b@),
{
    let n: usize = a.unicode_len();
    if n != b.unicode_len() {
        return false;
    }
    let mut i: usize = 0;
    while i < n
        invariant
            n == a@.len(),
            n == b@.len(),
            0 <= i <= n,
            forall|k: int| 0 <= k < i ==> a@[k] == b@[k],
        decreases n - i,
    {
        if a.get_char(i) != b.get_char(i) {
            return false;
        }
        i = i + 1;
    }
    assert(a@ =~= b@);
    true
}

/// ASCII case folding, as the embedded store's `LOWER` does.
pub open spec fn ascii_lower(c: char) -> char {
    if 'A' <= c && c <= 'Z' {
        (((c as u8) + 32) as u8) as char
    } else {
        c
    }
}

/// Two names are the same up to ASCII case.
pub open spec fn same_name(a: Seq<char>, b: Seq<char>) -> bool {
    a.len() == b.len() && forall|k: int| 0 <= k < a.len() ==> ascii_lower(a[k]) == ascii_lower(b[k])
}

fn lower_char(c: char) -> (r: char)
    ensures
        r == ascii_lower(c),
{
    if 'A' <= c && c <= 'Z' {
        ((c as u8) + 32) as char
    } else {
        c
    }
}

/// Compares two names up to ASCII case.
pub fn names_match(a: &str, b: &str) -> (r: bool)
    ensures
        r == same_name(a@, b@),
{
    let n: usize = a.unicode_len();
    if n != b.unicode_len() {
        return false;
    }
    let mut i: usize = 0;
    while i < n
        invariant
            n == a@.len(),
            n == b@.len(),
            0 <= i <= n,
            forall|k: int| 0 <= k < i ==> ascii_lower(a@[k]) == ascii_lower(b@[k]),
        decreases n - i,
    {
        if lower_char(a.get_char(i)) != lower_char(b.get_char(i)) {
            return false;
        }
        i = i + 1;
    }
    true
}

} // verus!
