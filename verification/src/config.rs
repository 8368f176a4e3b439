//! The `[keys]` section of the configuration: the key specs bound to each
//! action, with the defaults used when nothing is configured.

use vstd::prelude::*;
use crate::keymap::Action;

verus! {

/// The key specs bound to each action.
#[derive(Debug)]
pub struct KeysConfig {
    pub up: Vec<String>,
    pub down: Vec<String>,
    pub page_up: Vec<String>,
    pub page_down: Vec<String>,
    pub top: Vec<String>,
    pub bottom: Vec<String>,
    pub expand: Vec<String>,
    pub collapse: Vec<String>,
    pub toggle: Vec<String>,
    pub accept: Vec<String>,
    pub cancel: Vec<String>,
}

/// The texts of a list of strings.
pub open spec fn texts(v: Vec<String>) -> Seq<Seq<char>> {
    v@.map_values(|s: String| s@)
}

/// A copy of a list of strings.
fn copy_strings(v: &Vec<String>) -> (r: Vec<String>)
    ensures
        r@ == v@,
{
    let mut r: Vec<String> = Vec::new();
    let mut i: usize = 0;
    while i < v.len()
        invariant
            i <= v@.len(),
            r@ == v@.take(i as int),
        decreases v@.len() - i,
    {
        r.push(v[i].clone());
        assert(r@ =~= v@.take(i + 1));
        i = i + 1;
    }
    assert(v@.take(v@.len() as int) =~= v@);
    r
}

/// A list of owned strings with the given texts.
fn owned(items: &[&str]) -> (r: Vec<String>)
    ensures
        texts(r) == items@.map_values(|s: &str| s@),
{
    let mut r: Vec<String> = Vec::new();
    let mut i: usize = 0;
    while i < items.len()
        invariant
            i <= items@.len(),
            texts(r) == items@.take(i as int).map_values(|s: &str| s@),
        decreases items@.len() - i,
    {
        let ghost before = texts(r);
        let item: &str = items[i];
        let owned_item = String::from_str(item);
        r.push(owned_item);
        assert(texts(r) =~= before.push(item@));
        assert(items@.take(i + 1).map_values(|s: &str| s@) =~= items@.take(i as int).map_values(
            |s: &str| s@,
        ).push(item@));
        i = i + 1;
    }
    assert(items@.take(items@.len() as int) =~= items@);
    r
}

impl Default for KeysConfig {
    /// The default bindings: arrows and vi keys to move, `g g`/`home` and
    /// `G`/`end` for the ends, `space` toggles, `enter` accepts, `esc` or
    /// `ctrl+c` cancels.
    fn default() -> (r: KeysConfig)
        ensures
            texts(r.up) == seq!["up"@, "k"@, "ctrl+p"@],
            texts(r.down) == seq!["down"@, "j"@, "ctrl+n"@],
            texts(r.page_up) == seq!["pageup"@, "ctrl+u"@],
            texts(r.page_down) == seq!["pagedown"@, "ctrl+d"@],
            texts(r.top) == seq!["home"@, "g g"@],
            texts(r.bottom) == seq!["end"@, "shift+g"@],
            texts(r.expand) == seq!["right"@, "l"@],
            texts(r.collapse) == seq!["left"@, "h"@],
            texts(r.toggle) == seq!["space"@],
            texts(r.accept) == seq!["enter"@],
            texts(r.cancel) == seq!["esc"@, "ctrl+c"@],
    {
        let r = KeysConfig {
            up: owned(&["up", "k", "ctrl+p"]),
            down: owned(&["down", "j", "ctrl+n"]),
            page_up: owned(&["pageup", "ctrl+u"]),
            page_down: owned(&["pagedown", "ctrl+d"]),
            top: owned(&["home", "g g"]),
            bottom: owned(&["end", "shift+g"]),
            expand: owned(&["right", "l"]),
            collapse: owned(&["left", "h"]),
            toggle: owned(&["space"]),
            accept: owned(&["enter"]),
            cancel: owned(&["esc", "ctrl+c"]),
        };
        assert(texts(r.up) =~= seq!["up"@, "k"@, "ctrl+p"@]);
        assert(texts(r.down) =~= seq!["down"@, "j"@, "ctrl+n"@]);
        assert(texts(r.page_up) =~= seq!["pageup"@, "ctrl+u"@]);
        assert(texts(r.page_down) =~= seq!["pagedown"@, "ctrl+d"@]);
        assert(texts(r.top) =~= seq!["home"@, "g g"@]);
        assert(texts(r.bottom) =~= seq!["end"@, "shift+g"@]);
        assert(texts(r.expand) =~= seq!["right"@, "l"@]);
        assert(texts(r.collapse) =~= seq!["left"@, "h"@]);
        assert(texts(r.toggle) =~= seq!["space"@]);
        assert(texts(r.accept) =~= seq!["enter"@]);
        assert(texts(r.cancel) =~= seq!["esc"@, "ctrl+c"@]);
        r
    }
}

impl KeysConfig {
    /// The `(action, key specs)` pairs in action order, ready for
    /// [`crate::keymap::Keymap::from_bindings`].
    pub fn to_bindings(&self) -> (r: Vec<(Action, Vec<String>)>)
        ensures
            r@.map_values(|p: (Action, Vec<String>)| (p.0, texts(p.1))) == seq![
                (Action::Up, texts(self.up)),
                (Action::Down, texts(self.down)),
                (Action::PageUp, texts(self.page_up)),
                (Action::PageDown, texts(self.page_down)),
                (Action::Top, texts(self.top)),
                (Action::Bottom, texts(self.bottom)),
                (Action::Expand, texts(self.expand)),
                (Action::Collapse, texts(self.collapse)),
                (Action::Toggle, texts(self.toggle)),
                (Action::Accept, texts(self.accept)),
                (Action::Cancel, texts(self.cancel)),
            ],
    {
        let r = vec![
            (Action::Up, copy_strings(&self.up)),
            (Action::Down, copy_strings(&self.down)),
            (Action::PageUp, copy_strings(&self.page_up)),
            (Action::PageDown, copy_strings(&self.page_down)),
            (Action::Top, copy_strings(&self.top)),
            (Action::Bottom, copy_strings(&self.bottom)),
            (Action::Expand, copy_strings(&self.expand)),
            (Action::Collapse, copy_strings(&self.collapse)),
            (Action::Toggle, copy_strings(&self.toggle)),
            (Action::Accept, copy_strings(&self.accept)),
            (Action::Cancel, copy_strings(&self.cancel)),
        ];
        assert(r@.map_values(|p: (Action, Vec<String>)| (p.0, texts(p.1))) =~= seq![
            (Action::Up, texts(self.up)),
            (Action::Down, texts(self.down)),
            (Action::PageUp, texts(self.page_up)),
            (Action::PageDown, texts(self.page_down)),
            (Action::Top, texts(self.top)),
            (Action::Bottom, texts(self.bottom)),
            (Action::Expand, texts(self.expand)),
            (Action::Collapse, texts(self.collapse)),
            (Action::Toggle, texts(self.toggle)),
            (Action::Accept, texts(self.accept)),
            (Action::Cancel, texts(self.cancel)),
        ]);
        r
    }
}

/// The `[keys]` entries a configuration file sets; an action left out keeps
/// its default specs.
#[derive(Debug, Default)]
pub struct KeysOverrides {
    pub up: Option<Vec<String>>,
    pub down: Option<Vec<String>>,
    pub page_up: Option<Vec<String>>,
    pub page_down: Option<Vec<String>>,
    pub top: Option<Vec<String>>,
    pub bottom: Option<Vec<String>>,
    pub expand: Option<Vec<String>>,
    pub collapse: Option<Vec<String>>,
    pub toggle: Option<Vec<String>>,
    pub accept: Option<Vec<String>>,
    pub cancel: Option<Vec<String>>,
}

/// The texts of an override, if it is set, else the default texts.
pub open spec fn texts_or(o: Option<Vec<String>>, default: Seq<Seq<char>>) -> Seq<Seq<char>> {
    match o {
        Some(v) => texts(v),
        None => default,
    }
}

/// The override if it is set, else the default.
fn or_default(o: Option<Vec<String>>, d: Vec<String>) -> (r: Vec<String>)
    ensures
        texts(r) == texts_or(o, texts(d)),
{
    match o {
        Some(v) => v,
        None => d,
    }
}

impl KeysConfig {
    /// The configured bindings: each action set in `overrides` takes the
    /// specs given there, every other action keeps its defaults.
    pub fn with_overrides(overrides: KeysOverrides) -> (r: KeysConfig)
        ensures
            texts(r.up) == texts_or(overrides.up, seq!["up"@, "k"@, "ctrl+p"@]),
            texts(r.down) == texts_or(overrides.down, seq!["down"@, "j"@, "ctrl+n"@]),
            texts(r.page_up) == texts_or(overrides.page_up, seq!["pageup"@, "ctrl+u"@]),
            texts(r.page_down) == texts_or(overrides.page_down, seq!["pagedown"@, "ctrl+d"@]),
            texts(r.top) == texts_or(overrides.top, seq!["home"@, "g g"@]),
            texts(r.bottom) == texts_or(overrides.bottom, seq!["end"@, "shift+g"@]),
            texts(r.expand) == texts_or(overrides.expand, seq!["right"@, "l"@]),
            texts(r.collapse) == texts_or(overrides.collapse, seq!["left"@, "h"@]),
            texts(r.toggle) == texts_or(overrides.toggle, seq!["space"@]),
            texts(r.accept) == texts_or(overrides.accept, seq!["enter"@]),
            texts(r.cancel) == texts_or(overrides.cancel, seq!["esc"@, "ctrl+c"@]),
    {
        let d = KeysConfig::default();
        KeysConfig {
            up: or_default(overrides.up, d.up),
            down: or_default(overrides.down, d.down),
            page_up: or_default(overrides.page_up, d.page_up),
            page_down: or_default(overrides.page_down, d.page_down),
            top: or_default(overrides.top, d.top),
            bottom: or_default(overrides.bottom, d.bottom),
            expand: or_default(overrides.expand, d.expand),
            collapse: or_default(overrides.collapse, d.collapse),
            toggle: or_default(overrides.toggle, d.toggle),
            accept: or_default(overrides.accept, d.accept),
            cancel: or_default(overrides.cancel, d.cancel),
        }
    }
}

} // verus!
