//! Registries of the running application: open windows, commands offered by
//! extensions, and global shortcuts. Each is keyed by a string (window
//! label, command name, shortcut in the host's format) and holds at most one
//! entry per key. The registries are explicit values owned by the
//! application root.
use vstd::prelude::*;

use crate::model::str_eq;

verus! {

/// An open window.
#[derive(Debug)]
pub struct WindowInfo {
    pub label: String,
    pub source: String,
    pub url: String,
    pub created_at: i64,
}

/// A command registered by an extension or a feature.
#[derive(Debug)]
pub struct RegisteredCommand {
    pub name: String,
    pub description: String,
    pub source: String,
}

/// A global shortcut: as the extension wrote it, as the host understands it,
/// and who registered it.
#[derive(Debug)]
pub struct RegisteredShortcut {
    pub original: String,
    pub tauri_format: String,
    pub source: String,
}

/// The three text fields of an entry and its time (zero where there is none).
pub type EntryView = (Seq<char>, Seq<char>, Seq<char>, int);

impl View for WindowInfo {
    type V = EntryView;

    open spec fn view(&self) -> EntryView {
        (self.label@, self.source@, self.url@, self.created_at as int)
    }
}

impl View for RegisteredCommand {
    type V = EntryView;

    open spec fn view(&self) -> EntryView {
        (self.name@, self.description@, self.source@, 0)
    }
}

impl View for RegisteredShortcut {
    type V = EntryView;

    open spec fn view(&self) -> EntryView {
        (self.tauri_format@, self.original@, self.source@, 0)
    }
}

pub open spec fn keys_unique(s: Seq<EntryView>) -> bool {
    forall|i: int, j: int| 0 <= i < s.len() && 0 <= j < s.len() && i != j ==> #[trigger] s[i].0 != #[trigger] s[j].0
}

pub open spec fn has_key(s: Seq<EntryView>, key: Seq<char>) -> bool {
    exists|k: int| 0 <= k < s.len() && #[trigger] s[k].0 == key
}

/// `b` is `a` with the entry `e` put under its key: replacing the entry with
/// that key, or added at the end.
pub open spec fn put_entry(a: Seq<EntryView>, b: Seq<EntryView>, e: EntryView) -> bool {
    &&& has_key(a, e.0) ==> forall|k: int| 0 <= k < a.len() && a[k].0 == e.0 ==> b == a.update(k, e)
    &&& !has_key(a, e.0) ==> b == a.push(e)
}

/// `b` is `a` without the entry under `key`, if there was one.
pub open spec fn drop_entry(a: Seq<EntryView>, b: Seq<EntryView>, key: Seq<char>) -> bool {
    &&& has_key(a, key) ==> forall|k: int| 0 <= k < a.len() && a[k].0 == key ==> b == a.remove(k)
    &&& !has_key(a, key) ==> b == a
}

proof fn lemma_update_keeps_keys_unique(a: Seq<EntryView>, k: int, e: EntryView)
    requires
        keys_unique(a),
        0 <= k < a.len(),
        a[k].0 == e.0,
    ensures
        keys_unique(a.update(k, e)),
        forall|q: int| 0 <= q < a.len() && a[q].0 == e.0 ==> q == k,
{
}

proof fn lemma_remove_keeps_keys_unique(a: Seq<EntryView>, k: int)
    requires
        keys_unique(a),
        0 <= k < a.len(),
    ensures
        keys_unique(a.remove(k)),
        forall|q: int| 0 <= q < a.len() && a[q].0 == a[k].0 ==> q == k,
{
    let b = a.remove(k);
    assert forall|i: int, j: int| 0 <= i < b.len() && 0 <= j < b.len() && i != j implies #[trigger] b[i].0
        != #[trigger] b[j].0 by {
        let oi = if i < k { i } else { i + 1 };
        let oj = if j < k { j } else { j + 1 };
        assert(b[i] == a[oi]);
        assert(b[j] == a[oj]);
    }
}

/// The open windows, registered commands and global shortcuts.
pub struct AppRegistry {
    windows: Vec<WindowInfo>,
    commands: Vec<RegisteredCommand>,
    shortcuts: Vec<RegisteredShortcut>,
}

impl AppRegistry {
    /// Windows keyed by label.
    pub closed spec fn windows(&self) -> Seq<EntryView> {
        self.windows@.map_values(|w: WindowInfo| w@)
    }

    /// Commands keyed by name.
    pub closed spec fn commands(&self) -> Seq<EntryView> {
        self.commands@.map_values(|c: RegisteredCommand| c@)
    }

    /// Shortcuts keyed by their host format.
    pub closed spec fn shortcuts(&self) -> Seq<EntryView> {
        self.shortcuts@.map_values(|s: RegisteredShortcut| s@)
    }

    pub open spec fn wf(&self) -> bool {
        keys_unique(self.windows()) && keys_unique(self.commands()) && keys_unique(self.shortcuts())
    }

    /// Empty registries.
    pub fn new() -> (r: AppRegistry)
        ensures
            r.wf(),
            r.windows() == Seq::<EntryView>::empty(),
            r.commands() == Seq::<EntryView>::empty(),
            r.shortcuts() == Seq::<EntryView>::empty(),
    {
        let r = AppRegistry { windows: Vec::new(), commands: Vec::new(), shortcuts: Vec::new() };
        assert(r.windows() =~= Seq::<EntryView>::empty());
        assert(r.commands() =~= Seq::<EntryView>::empty());
        assert(r.shortcuts() =~= Seq::<EntryView>::empty());
        r
    }

    fn find_window(&self, label: &str) -> (r: Option<usize>)
        ensures
            match r {
                Some(k) => k < self.windows().len() && self.windows()[k as int].0 == label@,
                None => !has_key(self.windows(), label@),
            },
    {
        let n: usize = self.windows.len();
        let mut i: usize = 0;
        while i < n
            invariant
                n == self.windows@.len(),
                0 <= i <= n,
                forall|k: int| 0 <= k < i ==> self.windows()[k].0 != label@,
            decreases n - i,
        {
            if str_eq(self.windows[i].label.as_str(), label) {
                return Some(i);
            }
            i = i + 1;
        }
        None
    }

    fn find_command(&self, name: &str) -> (r: Option<usize>)
        ensures
            match r {
                Some(k) => k < self.commands().len() && self.commands()[k as int].0 == name@,
                None => !has_key(self.commands(), name@),
            },
    {
        let n: usize = self.commands.len();
        let mut i: usize = 0;
        while i < n
            invariant
                n == self.commands@.len(),
                0 <= i <= n,
                forall|k: int| 0 <= k < i ==> self.commands()[k].0 != name@,
            decreases n - i,
        {
            if str_eq(self.commands[i].name.as_str(), name) {
                return Some(i);
            }
            i = i + 1;
        }
        None
    }

    fn find_shortcut_index(&self, tauri_format: &str) -> (r: Option<usize>)
        ensures
            match r {
                Some(k) => k < self.shortcuts().len() && self.shortcuts()[k as int].0 == tauri_format@,
                None => !has_key(self.shortcuts(), tauri_format@),
            },
    {
        let n: usize = self.shortcuts.len();
        let mut i: usize = 0;
        while i < n
            invariant
                n == self.shortcuts@.len(),
                0 <= i <= n,
                forall|k: int| 0 <= k < i ==> self.shortcuts()[k].0 != tauri_format@,
            decreases n - i,
        {
            if str_eq(self.shortcuts[i].tauri_format.as_str(), tauri_format) {
                return Some(i);
            }
            i = i + 1;
        }
        None
    }

    /// Records an open window, replacing any window with the same label.
    pub fn register_window(&mut self, label: &str, source: &str, url: &str, now: i64)
        requires
            old(self).wf(),
        ensures
            final(self).wf(),
            put_entry(old(self).windows(), final(self).windows(), (label@, source@, url@, now as int)),
            final(self).commands() == old(self).commands(),
            final(self).shortcuts() == old(self).shortcuts(),
    {
        let w = WindowInfo {
            label: label.to_owned(),
            source: source.to_owned(),
            url: url.to_owned(),
            created_at: now,
        };
        let ghost e = w@;
        match self.find_window(label) {
            Some(k) => {
                self.windows.set(k, w);
                assert(self.windows() =~= old(self).windows().update(k as int, e));
                proof {
                    lemma_update_keeps_keys_unique(old(self).windows(), k as int, e);
                }
            },
            None => {
                self.windows.push(w);
                assert(self.windows() =~= old(self).windows().push(e));
            },
        }
    }

    /// Forgets the window with this label.
    pub fn unregister_window(&mut self, label: &str)
        requires
            old(self).wf(),
        ensures
            final(self).wf(),
            drop_entry(old(self).windows(), final(self).windows(), label@),
            final(self).commands() == old(self).commands(),
            final(self).shortcuts() == old(self).shortcuts(),
    {
        if let Some(k) = self.find_window(label) {
            self.windows.remove(k);
            assert(self.windows() =~= old(self).windows().remove(k as int));
            proof {
                lemma_remove_keeps_keys_unique(old(self).windows(), k as int);
            }
        }
    }

    /// The open windows, in registration order.
    pub fn list_windows(&self) -> (r: Vec<WindowInfo>)
        ensures
            r@.map_values(|w: WindowInfo| w@) == self.windows(),
    {
        let mut out: Vec<WindowInfo> = Vec::new();
        let n: usize = self.windows.len();
        let mut i: usize = 0;
        while i < n
            invariant
                n == self.windows@.len(),
                0 <= i <= n,
                out@.len() == i,
                forall|k: int| 0 <= k < i ==> #[trigger] out@[k]@ == self.windows()[k],
            decreases n - i,
        {
            let w = &self.windows[i];
            out.push(
                WindowInfo {
                    label: w.label.clone(),
                    source: w.source.clone(),
                    url: w.url.clone(),
                    created_at: w.created_at,
                },
            );
            i = i + 1;
        }
        assert(out@.map_values(|w: WindowInfo| w@) =~= self.windows());
        out
    }

    /// Records a command, replacing any command with the same name.
    pub fn register_command(&mut self, name: &str, description: &str, source: &str)
        requires
            old(self).wf(),
        ensures
            final(self).wf(),
            put_entry(old(self).commands(), final(self).commands(), (name@, description@, source@, 0)),
            final(self).windows() == old(self).windows(),
            final(self).shortcuts() == old(self).shortcuts(),
    {
        let c = RegisteredCommand {
            name: name.to_owned(),
            description: description.to_owned(),
            source: source.to_owned(),
        };
        let ghost e = c@;
        match self.find_command(name) {
            Some(k) => {
                self.commands.set(k, c);
                assert(self.commands() =~= old(self).commands().update(k as int, e));
                proof {
                    lemma_update_keeps_keys_unique(old(self).commands(), k as int, e);
                }
            },
            None => {
                self.commands.push(c);
                assert(self.commands() =~= old(self).commands().push(e));
            },
        }
    }

    /// Forgets the command with this name.
    pub fn unregister_command(&mut self, name: &str)
        requires
            old(self).wf(),
        ensures
            final(self).wf(),
            drop_entry(old(self).commands(), final(self).commands(), name@),
            final(self).windows() == old(self).windows(),
            final(self).shortcuts() == old(self).shortcuts(),
    {
        if let Some(k) = self.find_command(name) {
            self.commands.remove(k);
            assert(self.commands() =~= old(self).commands().remove(k as int));
            proof {
                lemma_remove_keeps_keys_unique(old(self).commands(), k as int);
            }
        }
    }

    /// The registered commands, in registration order.
    pub fn get_all_commands(&self) -> (r: Vec<RegisteredCommand>)
        ensures
            r@.map_values(|c: RegisteredCommand| c@) == self.commands(),
    {
        let mut out: Vec<RegisteredCommand> = Vec::new();
        let n: usize = self.commands.len();
        let mut i: usize = 0;
        while i < n
            invariant
                n == self.commands@.len(),
                0 <= i <= n,
                out@.len() == i,
                forall|k: int| 0 <= k < i ==> #[trigger] out@[k]@ == self.commands()[k],
            decreases n - i,
        {
            let c = &self.commands[i];
            out.push(
                RegisteredCommand {
                    name: c.name.clone(),
                    description: c.description.clone(),
                    source: c.source.clone(),
                },
            );
            i = i + 1;
        }
        assert(out@.map_values(|c: RegisteredCommand| c@) =~= self.commands());
        out
    }

    /// Records a shortcut under its host format, replacing any shortcut with
    /// the same host format.
    pub fn register_shortcut(&mut self, original: &str, tauri_format: &str, source: &str)
        requires
            old(self).wf(),
        ensures
            final(self).wf(),
            put_entry(
                old(self).shortcuts(),
                final(self).shortcuts(),
                (tauri_format@, original@, source@, 0),
            ),
            final(self).windows() == old(self).windows(),
            final(self).commands() == old(self).commands(),
    {
        let s = RegisteredShortcut {
            original: original.to_owned(),
            tauri_format: tauri_format.to_owned(),
            source: source.to_owned(),
        };
        let ghost e = s@;
        match self.find_shortcut_index(tauri_format) {
            Some(k) => {
                self.shortcuts.set(k, s);
                assert(self.shortcuts() =~= old(self).shortcuts().update(k as int, e));
                proof {
                    lemma_update_keeps_keys_unique(old(self).shortcuts(), k as int, e);
                }
            },
            None => {
                self.shortcuts.push(s);
                assert(self.shortcuts() =~= old(self).shortcuts().push(e));
            },
        }
    }

    /// Forgets the shortcut with this host format.
    pub fn unregister_shortcut(&mut self, tauri_format: &str)
        requires
            old(self).wf(),
        ensures
            final(self).wf(),
            drop_entry(old(self).shortcuts(), final(self).shortcuts(), tauri_format@),
            final(self).windows() == old(self).windows(),
            final(self).commands() == old(self).commands(),
    {
        if let Some(k) = self.find_shortcut_index(tauri_format) {
            self.shortcuts.remove(k);
            assert(self.shortcuts() =~= old(self).shortcuts().remove(k as int));
            proof {
                lemma_remove_keeps_keys_unique(old(self).shortcuts(), k as int);
            }
        }
    }

    /// The shortcut registered under this host format.
    pub fn find_shortcut(&self, tauri_format: &str) -> (r: Option<RegisteredShortcut>)
        ensures
            r is Some <==> has_key(self.shortcuts(), tauri_format@),
            r matches Some(s) ==> self.shortcuts().contains(s@),
    {
        match self.find_shortcut_index(tauri_format) {
            Some(k) => {
                let s = &self.shortcuts[k];
                let out = RegisteredShortcut {
                    original: s.original.clone(),
                    tauri_format: s.tauri_format.clone(),
                    source: s.source.clone(),
                };
                assert(self.shortcuts()[k as int] == out@);
                Some(out)
            },
            None => None,
        }
    }
}

} // verus!
