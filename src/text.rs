//! String operations that the store relies on from std and from the uuid
//! crate, each with the contract it is trusted to meet.
use vstd::prelude::*;

verus! {

/// What `str::to_lowercase` returns for these chars.
pub uninterp spec fn lower_of(s: Seq<char>) -> Seq<char>;

/// What `str::trim` returns for these chars.
pub uninterp spec fn trim_of(s: Seq<char>) -> Seq<char>;

/// Relies on uuid::Uuid::new_v4 and its simple (hyphen-free) text form: a
/// random identifier. Nothing is promised of its value.
#[verifier::external_body]
fn random_uuid_text() -> (r: String) {
    uuid::Uuid::new_v4().simple().to_string()
}

/// `s` begins with the chars of `p`.
pub open spec fn has_prefix(s: Seq<char>, p: Seq<char>) -> bool {
    p.len() <= s.len() && s.subrange(0, p.len() as int) == p
}

/// A new identifier: the prefix, an underscore, then a random uuid.
pub fn generate_id(prefix: &str) -> (r: String)
    ensures
        has_prefix(r@, prefix@.push('_')),
{
    let mut s = prefix.to_owned();
    push_char(&mut s, '_');
    let ghost head = s@;
    let u = random_uuid_text();
    push_str(&mut s, u.as_str());
    assert(s@.subrange(0, head.len() as int) =~= head);
    s
}

/// Relies on String::push: appends one char.
#[verifier::external_body]
pub(crate) fn push_char(s: &mut String, c: char)
    ensures
        final(s)@ == old(s)@.push(c),
{
    s.push(c)
}

/// Relies on String::push_str: appends the chars of `t`.
#[verifier::external_body]
pub(crate) fn push_str(s: &mut String, t: &str)
    ensures
        final(s)@ == old(s)@ + t@,
{
    s.push_str(t)
}

/// Relies on str::to_lowercase: the result depends on the chars alone.
#[verifier::external_body]
pub(crate) fn lowercase(s: &str) -> (r: String)
    ensures
        r@ == lower_of(s@),
{
    s.to_lowercase()
}

/// Relies on str::trim: the chars without leading and trailing white space.
#[verifier::external_body]
pub(crate) fn trim(s: &str) -> (r: String)
    ensures
        r@ == trim_of(s@),
{
    s.trim().to_string()
}

pub open spec fn dash_for_space(c: char) -> char {
    if c == ' ' {
        '-'
    } else {
        c
    }
}

/// Relies on str::replace: each space becomes a dash.
#[verifier::external_body]
pub(crate) fn spaces_to_dashes(s: &str) -> (r: String)
    ensures
        r@ == s@.map_values(|c: char| dash_for_space(c)),
{
    s.replace(' ', "-")
}

/// The slug of a tag name: lower case, trimmed, spaces turned to dashes.
pub open spec fn slug_of(name: Seq<char>) -> Seq<char> {
    trim_of(lower_of(name)).map_values(|c: char| dash_for_space(c))
}

/// Derives a tag's slug from its name.
pub fn slugify_tag_name(name: &str) -> (r: String)
    ensures
        r@ == slug_of(name@),
{
    let lower = lowercase(name);
    let trimmed = trim(lower.as_str());
    spaces_to_dashes(trimmed.as_str())
}

} // verus!
