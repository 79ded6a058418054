//! The registry of themes: where each theme lives and which one is active.
//! It is an explicit value owned by the application, not a process-wide
//! global.
use vstd::prelude::*;

use crate::model::str_eq;

verus! {

/// Theme ids and their locations, and the active theme id.
pub struct ThemeRegistry {
    entries: Vec<(String, String)>,
    active: String,
}

/// A theme's manifest, as discovered on disk.
#[derive(Debug)]
pub struct ThemeManifest {
    pub id: String,
    pub name: Option<String>,
    pub version: Option<String>,
    pub description: Option<String>,
}

/// A discovered theme: its id, its location and its manifest.
#[derive(Debug)]
pub struct DiscoveredTheme {
    pub id: String,
    pub path: String,
    pub manifest: ThemeManifest,
}

pub open spec fn keys_unique(s: Seq<(Seq<char>, Seq<char>)>) -> bool {
    forall|i: int, j: int| 0 <= i < s.len() && 0 <= j < s.len() && i != j ==> #[trigger] s[i].0 != #[trigger] s[j].0
}

pub open spec fn has_key(s: Seq<(Seq<char>, Seq<char>)>, id: Seq<char>) -> bool {
    exists|k: int| 0 <= k < s.len() && #[trigger] s[k].0 == id
}

impl ThemeRegistry {
    /// The registered (id, location) pairs, in registration order.
    pub closed spec fn entries(&self) -> Seq<(Seq<char>, Seq<char>)> {
        self.entries@.map_values(|e: (String, String)| (e.0@, e.1@))
    }

    pub closed spec fn active(&self) -> Seq<char> {
        self.active@
    }

    pub open spec fn wf(&self) -> bool {
        keys_unique(self.entries())
    }

    /// An empty registry whose active theme is "basic".
    pub fn new() -> (r: ThemeRegistry)
        ensures
            r.wf(),
            r.entries() == Seq::<(Seq<char>, Seq<char>)>::empty(),
            r.active() == "basic"@,
    {
        let r = ThemeRegistry { entries: Vec::new(), active: "basic".to_owned() };
        assert(r.entries() =~= Seq::<(Seq<char>, Seq<char>)>::empty());
        r
    }

    fn find(&self, id: &str) -> (r: Option<usize>)
        ensures
            match r {
                Some(k) => k < self.entries().len() && self.entries()[k as int].0 == id@,
                None => !has_key(self.entries(), id@),
            },
    {
        let n: usize = self.entries.len();
        let mut i: usize = 0;
        while i < n
            invariant
                n == self.entries@.len(),
                0 <= i <= n,
                forall|k: int| 0 <= k < i ==> self.entries()[k].0 != id@,
            decreases n - i,
        {
            if str_eq(self.entries[i].0.as_str(), id) {
                return Some(i);
            }
            i = i + 1;
        }
        None
    }

    /// Registers (or moves) a theme: `id` now lives at `path`.
    pub fn register_theme_path(&mut self, id: &str, path: &str)
        requires
            old(self).wf(),
        ensures
            final(self).wf(),
            final(self).active() == old(self).active(),
            has_key(old(self).entries(), id@) ==> forall|k: int|
                0 <= k < old(self).entries().len() && old(self).entries()[k].0 == id@
                    ==> final(self).entries() == old(self).entries().update(k, (id@, path@)),
            !has_key(old(self).entries(), id@) ==> final(self).entries() == old(
                self,
            ).entries().push((id@, path@)),
    {
        match self.find(id) {
            Some(k) => {
                self.entries.set(k, (id.to_owned(), path.to_owned()));
                assert(self.entries() =~= old(self).entries().update(k as int, (id@, path@)));
                assert forall|q: int|
                    0 <= q < old(self).entries().len() && old(self).entries()[q].0 == id@ implies q
                    == k by {}
            },
            None => {
                self.entries.push((id.to_owned(), path.to_owned()));
                assert(self.entries() =~= old(self).entries().push((id@, path@)));
            },
        }
    }

    /// The location of the theme with this id.
    pub fn get_theme_path(&self, id: &str) -> (r: Option<String>)
        ensures
            r is Some <==> has_key(self.entries(), id@),
            r matches Some(p) ==> self.entries().contains((id@, p@)),
    {
        match self.find(id) {
            Some(k) => {
                let p = self.entries[k].1.clone();
                assert(self.entries()[k as int] == (id@, p@));
                Some(p)
            },
            None => None,
        }
    }

    /// The ids of all registered themes, in registration order.
    pub fn get_registered_theme_ids(&self) -> (r: Vec<String>)
        ensures
            r@.len() == self.entries().len(),
            forall|k: int| 0 <= k < r@.len() ==> #[trigger] r@[k]@ == self.entries()[k].0,
    {
        let mut out: Vec<String> = Vec::new();
        let n: usize = self.entries.len();
        let mut i: usize = 0;
        while i < n
            invariant
                n == self.entries@.len(),
                0 <= i <= n,
                out@.len() == i,
                forall|k: int| 0 <= k < i ==> #[trigger] out@[k]@ == self.entries()[k].0,
            decreases n - i,
        {
            out.push(self.entries[i].0.clone());
            i = i + 1;
        }
        out
    }

    /// The id of the active theme.
    pub fn get_active_theme_id(&self) -> (r: String)
        ensures
            r@ == self.active(),
    {
        self.active.clone()
    }

    /// Makes a registered theme the active one. Returns false, changing
    /// nothing, when no theme has this id.
    pub fn set_active_theme_id(&mut self, id: &str) -> (r: bool)
        requires
            old(self).wf(),
        ensures
            final(self).wf(),
            final(self).entries() == old(self).entries(),
            r == has_key(old(self).entries(), id@),
            r ==> final(self).active() == id@,
            !r ==> final(self).active() == old(self).active(),
    {
        if self.find(id).is_none() {
            return false;
        }
        self.active = id.to_owned();
        true
    }
}

/// A theme as listed to the user.
#[derive(Debug)]
pub struct ThemeInfo {
    pub id: String,
    pub name: String,
    pub version: String,
}

/// The theme in use and its color scheme.
#[derive(Debug)]
pub struct ThemeState {
    pub theme_id: String,
    /// The stored preference: "system", "light" or "dark".
    pub color_scheme: String,
    pub is_dark: bool,
    /// The scheme in effect once "system" is resolved.
    pub effective_scheme: String,
}

pub open spec fn valid_color_scheme(s: Seq<char>) -> bool {
    s == "system"@ || s == "light"@ || s == "dark"@
}

/// Whether `s` is a color scheme preference: system, light or dark.
pub fn is_valid_color_scheme(s: &str) -> (r: bool)
    ensures
        r == valid_color_scheme(s@),
{
    str_eq(s, "system") || str_eq(s, "light") || str_eq(s, "dark")
}

/// The theme state for a theme and a stored color scheme. The system
/// preference counts as dark.
pub fn theme_state(theme_id: String, color_scheme: String) -> (r: ThemeState)
    ensures
        r.theme_id == theme_id,
        r.color_scheme == color_scheme,
        r.is_dark == (color_scheme@ == "dark"@ || color_scheme@ == "system"@),
        r.effective_scheme@ == if color_scheme@ == "system"@ {
            "dark"@
        } else {
            color_scheme@
        },
{
    let system = str_eq(color_scheme.as_str(), "system");
    let is_dark = str_eq(color_scheme.as_str(), "dark") || system;
    let effective_scheme = if system {
        "dark".to_owned()
    } else {
        color_scheme.clone()
    };
    ThemeState { theme_id, color_scheme, is_dark, effective_scheme }
}

/// How a registered theme is listed: its manifest's id, its name (the
/// registered id when the manifest has none) and its version ("1.0.0" when
/// the manifest has none).
pub fn theme_info(registered_id: &str, manifest: &ThemeManifest) -> (r: ThemeInfo)
    ensures
        r.id@ == manifest.id@,
        r.name@ == match manifest.name {
            Some(n) => n@,
            None => registered_id@,
        },
        r.version@ == match manifest.version {
            Some(v) => v@,
            None => "1.0.0"@,
        },
{
    ThemeInfo {
        id: manifest.id.clone(),
        name: match &manifest.name {
            Some(n) => n.clone(),
            None => registered_id.to_owned(),
        },
        version: match &manifest.version {
            Some(v) => v.clone(),
            None => "1.0.0".to_owned(),
        },
    }
}

} // verus!
