//! The picker's input state machine: key presses go in, an [`Outcome`]
//! comes out. No terminal and no session: every step is a pure function of
//! the state and the key.

use vstd::prelude::*;
use crate::keymap::{resolve_keys, Action, KeyPress, Keymap, Resolution};
use crate::text::{chars_of, same_chars};
use crate::tree::{
    bounded, cursor_target, has_children, is_below, path_valid, is_expanded, lemma_visible_paths, lemma_with_expanded, node_id,
    parent_of, path_visible, rows_of, targets, visible_paths, with_expanded, FocusTarget, NodePath,
    Row, RowKind, Tree, WorkspaceModel,
};

verus! {

/// What the event loop should do after a key press.
#[derive(Clone, Debug, PartialEq, Eq)]
pub enum Outcome {
    Continue,
    Focus(FocusTarget),
    Cancel,
}

/// `[behavior] enter_on_branch` values.
#[derive(Clone, Copy, Debug, PartialEq, Eq, Structural)]
pub enum EnterOnBranch {
    /// Accept on a workspace or tab jumps straight to it.
    Jump,
    /// Accept on a workspace or tab toggles its subtree instead.
    Expand,
}

impl EnterOnBranch {
    /// `jump` and `expand`; any other text is not a value.
    pub fn parse(text: &str) -> (r: Option<EnterOnBranch>)
        ensures
            r == if text@ == "jump"@ {
                Some(EnterOnBranch::Jump)
            } else if text@ == "expand"@ {
                Some(EnterOnBranch::Expand)
            } else {
                None
            },
    {
        let cs = chars_of(text);
        if same_chars(cs.as_slice(), "jump") {
            Some(EnterOnBranch::Jump)
        } else if same_chars(cs.as_slice(), "expand") {
            Some(EnterOnBranch::Expand)
        } else {
            None
        }
    }
}

/// The picker's state as plain values (the rows are those the tree shows).
pub struct AppModel {
    pub tree: Seq<WorkspaceModel>,
    pub cursor: int,
    pub pending: Seq<KeyPress>,
    pub viewport: int,
    pub mode: EnterOnBranch,
}

/// What a step asks of the event loop, by node rather than by id.
pub enum Effect {
    Continue,
    Focus(NodePath),
    Cancel,
}

/// An index at which `x` occurs in `s`; the index, where `s` holds each
/// element once, as the visible paths do.
pub open spec fn index_in(s: Seq<NodePath>, x: NodePath) -> int {
    choose|i: int| 0 <= i < s.len() && s[i] == x
}

/// Where the cursor goes when the rows of tree `t` are rebuilt around node
/// `p`: onto `p`'s row when it is visible, else it stays at `cursor`, moved
/// up to the last row if it is past it (0 when there are no rows).
pub open spec fn parked_cursor(t: Seq<WorkspaceModel>, p: NodePath, cursor: int) -> int {
    let vp = visible_paths(t);
    if vp.contains(p) {
        index_in(vp, p)
    } else if cursor < vp.len() {
        cursor
    } else if vp.len() > 0 {
        vp.len() - 1
    } else {
        0
    }
}

/// The state with the tree replaced and the cursor parked on node `p`.
pub open spec fn keep_on(m: AppModel, t: Seq<WorkspaceModel>, p: NodePath) -> AppModel {
    AppModel { tree: t, cursor: parked_cursor(t, p, m.cursor), ..m }
}

/// The state with only the cursor moved.
pub open spec fn moved(m: AppModel, cursor: int) -> AppModel {
    AppModel { cursor, ..m }
}

/// What an action does to a state whose tree shows at least one row.
pub open spec fn apply_action(m: AppModel, action: Action) -> (AppModel, Effect) {
    let t = m.tree;
    let rows = visible_paths(t);
    let last = rows.len() - 1;
    let page = if m.viewport < 1 {
        1
    } else {
        m.viewport
    };
    let p = rows[m.cursor];
    match action {
        Action::Down => (moved(m, if m.cursor + 1 < last { m.cursor + 1 } else { last }), Effect::Continue),
        Action::Up => (moved(m, if m.cursor >= 1 { m.cursor - 1 } else { 0 }), Effect::Continue),
        Action::PageDown => (moved(m, if m.cursor + page < last { m.cursor + page } else { last }), Effect::Continue),
        Action::PageUp => (moved(m, if m.cursor >= page { m.cursor - page } else { 0 }), Effect::Continue),
        Action::Top => (moved(m, 0), Effect::Continue),
        Action::Bottom => (moved(m, last), Effect::Continue),
        Action::Expand => if has_children(t, p) && !is_expanded(t, p) {
            (keep_on(m, with_expanded(t, p, true), p), Effect::Continue)
        } else {
            (m, Effect::Continue)
        },
        Action::Collapse => if has_children(t, p) && is_expanded(t, p) {
            (keep_on(m, with_expanded(t, p, false), p), Effect::Continue)
        } else {
            match parent_of(p) {
                Some(q) => (keep_on(m, t, q), Effect::Continue),
                None => (m, Effect::Continue),
            }
        },
        Action::Toggle => if has_children(t, p) {
            (keep_on(m, with_expanded(t, p, !is_expanded(t, p)), p), Effect::Continue)
        } else {
            (m, Effect::Continue)
        },
        Action::Accept => if !(p is Pane) && m.mode == EnterOnBranch::Expand {
            if has_children(t, p) {
                (keep_on(m, with_expanded(t, p, !is_expanded(t, p)), p), Effect::Continue)
            } else {
                (keep_on(m, t, p), Effect::Continue)
            }
        } else {
            (m, Effect::Focus(p))
        },
        Action::Cancel => (m, Effect::Cancel),
    }
}

/// `o` is what the effect `e` asks for, in a tree `t`.
pub open spec fn outcome_of(o: Outcome, e: Effect, t: Seq<WorkspaceModel>) -> bool {
    match (o, e) {
        (Outcome::Continue, Effect::Continue) => true,
        (Outcome::Cancel, Effect::Cancel) => true,
        (Outcome::Focus(f), Effect::Focus(p)) => targets(f, p, node_id(t, p)),
        _ => false,
    }
}

/// Two focus targets ask for the same node.
pub open spec fn same_target(a: FocusTarget, b: FocusTarget) -> bool {
    match (a, b) {
        (FocusTarget::Workspace(x), FocusTarget::Workspace(y)) => x@ == y@,
        (FocusTarget::Tab(x), FocusTarget::Tab(y)) => x@ == y@,
        (FocusTarget::Pane(x), FocusTarget::Pane(y)) => x@ == y@,
        _ => false,
    }
}

/// A copy of a focus target.
fn copy_target(f: &FocusTarget) -> (r: FocusTarget)
    ensures
        same_target(*f, r),
{
    match f {
        FocusTarget::Workspace(x) => FocusTarget::Workspace(x.clone()),
        FocusTarget::Tab(x) => FocusTarget::Tab(x.clone()),
        FocusTarget::Pane(x) => FocusTarget::Pane(x.clone()),
    }
}

/// A path that occurs in a duplicate-free sequence occurs at one index only.
proof fn lemma_index_in(s: Seq<NodePath>, i: int)
    requires
        s.no_duplicates(),
        0 <= i < s.len(),
    ensures
        index_in(s, s[i]) == i,
{
    let j = index_in(s, s[i]);
    assert(0 <= j < s.len() && s[j] == s[i]);
}

/// The picker: the tree, its visible rows, the cursor, and the keys of a
/// chord in flight.
#[derive(Debug)]
pub struct App {
    tree: Tree,
    rows: Vec<Row>,
    pub cursor: usize,
    /// Keys buffered while a chord is in flight.
    pub pending: Vec<KeyPress>,
    /// Rows the list area can show; set by the drawing code on each draw
    /// so that page movements track the real terminal size.
    pub viewport_height: u16,
    enter_on_branch: EnterOnBranch,
}

impl View for App {
    type V = AppModel;

    closed spec fn view(&self) -> AppModel {
        AppModel {
            tree: self.tree@,
            cursor: self.cursor as int,
            pending: self.pending@,
            viewport: self.viewport_height as int,
            mode: self.enter_on_branch,
        }
    }
}

impl App {
    /// The rows are the tree's visible rows and the cursor is on one of
    /// them (or at 0 when there are none).
    pub closed spec fn wf(&self) -> bool {
        &&& rows_of(self.tree@, visible_paths(self.tree@), self.rows@)
        &&& if self.rows@.len() == 0 {
            self.cursor == 0
        } else {
            self.cursor < self.rows@.len()
        }
    }

    /// A well-formed picker: its tree fits in memory, its cursor is 0 when
    /// no row is visible, and otherwise it is a good state for the laws
    /// below (its cursor is on a visible row).
    pub proof fn lemma_wf_model(&self)
        requires
            self.wf(),
        ensures
            bounded(self@.tree),
            visible_paths(self@.tree).len() == 0 ==> self@.cursor == 0,
            visible_paths(self@.tree).len() > 0 ==> model_ok(self@),
    {
        self.tree.lemma_bounded();
    }

    /// A picker over `tree`, with the cursor on the row the session is
    /// focused on (see [`Tree::initial_cursor`]).
    pub fn new(tree: Tree, enter_on_branch: EnterOnBranch) -> (app: App)
        ensures
            app.wf(),
            app@.tree == tree@,
            match cursor_target(tree@) {
                Some(p) => visible_paths(tree@)[app@.cursor] == p,
                None => app@.cursor == 0,
            },
            app@.pending.len() == 0,
            app@.viewport == 0,
            app@.mode == enter_on_branch,
            visible_paths(tree@).len() == 0 ==> app@.cursor == 0,
            visible_paths(tree@).len() > 0 ==> model_ok(app@),
    {
        proof {
            tree.lemma_bounded();
        }
        let rows = tree.visible_rows();
        let cursor = tree.initial_cursor();
        App { tree, rows, cursor, pending: Vec::new(), viewport_height: 0, enter_on_branch }
    }

    /// Rebuilds the visible rows and parks the cursor on `path`'s row; when
    /// `path` is not visible the cursor stays where it was, moved up to the
    /// last row if it is past it.
    fn refresh_keeping(&mut self, path: NodePath)
        ensures
            final(self).wf(),
            final(self)@ == keep_on(old(self)@, old(self).tree@, path),
            final(self).tree@ == old(self).tree@,
    {
        proof {
            self.tree.lemma_bounded();
            lemma_visible_paths(self.tree@);
        }
        let ghost vp = visible_paths(self.tree@);
        self.rows = self.tree.visible_rows();
        let mut i: usize = 0;
        while i < self.rows.len()
            invariant
                self.tree@ == old(self).tree@,
                self.pending@ == old(self).pending@,
                self.viewport_height == old(self).viewport_height,
                self.enter_on_branch == old(self).enter_on_branch,
                self.cursor == old(self).cursor,
                vp == visible_paths(self.tree@),
                vp.no_duplicates(),
                rows_of(self.tree@, vp, self.rows@),
                i <= self.rows@.len(),
                forall|j: int| 0 <= j < i ==> vp[j] != path,
            decreases self.rows@.len() - i,
        {
            let here = self.rows[i].path;
            if here == path {
                proof {
                    assert(vp.contains(path));
                    lemma_index_in(vp, i as int);
                }
                self.cursor = i;
                return;
            }
            i = i + 1;
        }
        assert(!vp.contains(path));
        self.cursor = if self.cursor < self.rows.len() {
            self.cursor
        } else if self.rows.len() > 0 {
            self.rows.len() - 1
        } else {
            0
        };
    }

    /// Carries out `action` on a picker that shows at least one row.
    pub fn apply(&mut self, action: Action) -> (o: Outcome)
        requires
            old(self).wf(),
            visible_paths(old(self)@.tree).len() > 0,
        ensures
            final(self).wf(),
            model_ok(final(self)@),
            final(self)@ == apply_action(old(self)@, action).0,
            outcome_of(o, apply_action(old(self)@, action).1, old(self)@.tree),
    {
        proof {
            self.tree.lemma_bounded();
            lemma_visible_paths(self.tree@);
        }
        let ghost t = self.tree@;
        let ghost vp = visible_paths(t);
        let last = self.rows.len() - 1;
        let page: usize = if self.viewport_height < 1 {
            1
        } else {
            self.viewport_height as usize
        };
        let path = self.rows[self.cursor].path;
        let kind = self.rows[self.cursor].kind;
        assert(path == vp[self.cursor as int]);
        assert(vp.contains(path));
        assert(path_visible(t, path));
        match action {
            Action::Down => {
                self.cursor = if self.cursor + 1 < last {
                    self.cursor + 1
                } else {
                    last
                };
            },
            Action::Up => {
                self.cursor = if self.cursor >= 1 {
                    self.cursor - 1
                } else {
                    0
                };
            },
            Action::PageDown => {
                self.cursor = if page < last - self.cursor {
                    self.cursor + page
                } else {
                    last
                };
            },
            Action::PageUp => {
                self.cursor = if self.cursor >= page {
                    self.cursor - page
                } else {
                    0
                };
            },
            Action::Top => {
                self.cursor = 0;
            },
            Action::Bottom => {
                self.cursor = last;
            },
            Action::Expand => {
                proof {
                    lemma_with_expanded(t, path, true);
                }
                if self.tree.expand(path) {
                    self.refresh_keeping(path);
                }
            },
            Action::Collapse => {
                proof {
                    lemma_with_expanded(t, path, false);
                }
                if self.tree.collapse(path) {
                    self.refresh_keeping(path);
                } else if let Some(parent) = self.tree.parent_path(path) {
                    self.refresh_keeping(parent);
                }
            },
            Action::Toggle => {
                proof {
                    lemma_with_expanded(t, path, !is_expanded(t, path));
                }
                if self.tree.toggle(path) {
                    self.refresh_keeping(path);
                }
            },
            Action::Accept => {
                if kind != RowKind::Pane && self.enter_on_branch == EnterOnBranch::Expand {
                    proof {
                        lemma_with_expanded(t, path, !is_expanded(t, path));
                    }
                    self.tree.toggle(path);
                    self.refresh_keeping(path);
                } else {
                    let target = copy_target(&self.rows[self.cursor].focus_target);
                    return Outcome::Focus(target);
                }
            },
            Action::Cancel => {
                return Outcome::Cancel;
            },
        }
        Outcome::Continue
    }

    /// Handles one key press. With no rows, any key closes the picker.
    /// Otherwise the key joins the chord in flight: a completed binding runs
    /// its action, a prefix of a longer binding waits for more keys, and a
    /// key that matches nothing is swallowed together with the chord.
    pub fn handle_key(&mut self, keymap: &Keymap, key: KeyPress) -> (o: Outcome)
        requires
            old(self).wf(),
        ensures
            final(self).wf(),
            visible_paths(final(self)@.tree).len() == 0 ==> final(self)@.cursor == 0,
            visible_paths(final(self)@.tree).len() > 0 ==> model_ok(final(self)@),
            visible_paths(old(self)@.tree).len() == 0 ==> o == Outcome::Cancel && final(self)@
                == old(self)@,
            visible_paths(old(self)@.tree).len() > 0 ==> match resolve_keys(
                keymap@,
                old(self)@.pending.push(key),
            ) {
                Resolution::Action(a) => final(self)@ == AppModel {
                    pending: Seq::empty(),
                    ..apply_action(old(self)@, a).0
                } && outcome_of(o, apply_action(old(self)@, a).1, old(self)@.tree),
                Resolution::Pending => final(self)@ == AppModel {
                    pending: old(self)@.pending.push(key),
                    ..old(self)@
                } && o == Outcome::Continue,
                Resolution::NoMatch => final(self)@ == AppModel {
                    pending: Seq::empty(),
                    ..old(self)@
                } && o == Outcome::Continue,
            },
    {
        proof {
            self.tree.lemma_bounded();
        }
        if self.rows.len() == 0 {
            return Outcome::Cancel;
        }
        match keymap.resolve(self.pending.as_slice(), key) {
            Resolution::Action(action) => {
                self.pending = Vec::new();
                self.apply(action)
            },
            Resolution::Pending => {
                self.pending.push(key);
                Outcome::Continue
            },
            Resolution::NoMatch => {
                self.pending = Vec::new();
                Outcome::Continue
            },
        }
    }

    /// The visible rows.
    pub fn rows(&self) -> (r: &[Row])
        ensures
            self.wf() ==> rows_of(self@.tree, visible_paths(self@.tree), r@),
    {
        self.rows.as_slice()
    }
}


/// A state whose tree fits in memory and whose cursor is on a visible row.
pub open spec fn model_ok(m: AppModel) -> bool {
    bounded(m.tree) && 0 <= m.cursor < visible_paths(m.tree).len()
}

/// Parking the cursor on a visible node finds that node.
proof fn lemma_keep_on(m: AppModel, t: Seq<WorkspaceModel>, p: NodePath)
    requires
        bounded(t),
        path_visible(t, p),
    ensures
        model_ok(keep_on(m, t, p)),
        visible_paths(t)[keep_on(m, t, p).cursor] == p,
{
    lemma_visible_paths(t);
    assert(visible_paths(t).contains(p));
    let i = choose|i: int| 0 <= i < visible_paths(t).len() && visible_paths(t)[i] == p;
    lemma_index_in(visible_paths(t), i);
}

/// The row under the cursor of a good state is a visible node.
proof fn lemma_cursor_node(m: AppModel)
    requires
        model_ok(m),
    ensures
        path_visible(m.tree, visible_paths(m.tree)[m.cursor]),
        index_in(visible_paths(m.tree), visible_paths(m.tree)[m.cursor]) == m.cursor,
{
    lemma_visible_paths(m.tree);
    assert(visible_paths(m.tree).contains(visible_paths(m.tree)[m.cursor]));
    lemma_index_in(visible_paths(m.tree), m.cursor);
}

/// Every action leaves the cursor on a visible row.
pub proof fn law_actions_keep_cursor_on_a_row(m: AppModel, action: Action)
    requires
        model_ok(m),
    ensures
        model_ok(apply_action(m, action).0),
{
    let t = m.tree;
    let p = visible_paths(t)[m.cursor];
    lemma_cursor_node(m);
    match action {
        Action::Expand => {
            lemma_with_expanded(t, p, true);
            if has_children(t, p) && !is_expanded(t, p) {
                lemma_keep_on(m, with_expanded(t, p, true), p);
            }
        },
        Action::Collapse => {
            lemma_with_expanded(t, p, false);
            if has_children(t, p) && is_expanded(t, p) {
                lemma_keep_on(m, with_expanded(t, p, false), p);
            } else if let Some(q) = parent_of(p) {
                lemma_keep_on(m, t, q);
            }
        },
        Action::Toggle | Action::Accept => {
            lemma_with_expanded(t, p, !is_expanded(t, p));
            if has_children(t, p) {
                lemma_keep_on(m, with_expanded(t, p, !is_expanded(t, p)), p);
            } else {
                lemma_keep_on(m, t, p);
            }
        },
        _ => {},
    }
}

/// Collapsing an expanded branch keeps the cursor on that branch and hides
/// everything below it.
pub proof fn law_collapse_keeps_the_branch_and_hides_its_subtree(m: AppModel)
    requires
        model_ok(m),
        has_children(m.tree, visible_paths(m.tree)[m.cursor]),
        is_expanded(m.tree, visible_paths(m.tree)[m.cursor]),
    ensures
        ({
            let p = visible_paths(m.tree)[m.cursor];
            let m2 = apply_action(m, Action::Collapse).0;
            &&& visible_paths(m2.tree)[m2.cursor] == p
            &&& !is_expanded(m2.tree, p)
            &&& forall|q: NodePath| #[trigger]
                visible_paths(m2.tree).contains(q) ==> !is_below(q, p)
        }),
{
    let t = m.tree;
    let p = visible_paths(t)[m.cursor];
    lemma_cursor_node(m);
    lemma_with_expanded(t, p, false);
    let t2 = with_expanded(t, p, false);
    lemma_keep_on(m, t2, p);
    lemma_visible_paths(t2);
}

/// Collapsing a leaf, or a branch that is already collapsed or has no
/// children, moves the cursor up to the parent and changes nothing else.
pub proof fn law_collapse_on_a_leaf_walks_up(m: AppModel)
    requires
        model_ok(m),
        !(has_children(m.tree, visible_paths(m.tree)[m.cursor]) && is_expanded(
            m.tree,
            visible_paths(m.tree)[m.cursor],
        )),
        parent_of(visible_paths(m.tree)[m.cursor]) is Some,
    ensures
        ({
            let m2 = apply_action(m, Action::Collapse).0;
            &&& m2.tree == m.tree
            &&& Some(visible_paths(m2.tree)[m2.cursor]) == parent_of(visible_paths(m.tree)[m.cursor])
        }),
{
    lemma_cursor_node(m);
    let q = parent_of(visible_paths(m.tree)[m.cursor]).unwrap();
    lemma_keep_on(m, m.tree, q);
}

/// Expanding twice is expanding once.
pub proof fn law_expand_is_idempotent(m: AppModel)
    requires
        model_ok(m),
    ensures
        apply_action(apply_action(m, Action::Expand).0, Action::Expand).0 == apply_action(
            m,
            Action::Expand,
        ).0,
{
    let t = m.tree;
    let p = visible_paths(t)[m.cursor];
    lemma_cursor_node(m);
    lemma_with_expanded(t, p, true);
    if has_children(t, p) && !is_expanded(t, p) {
        lemma_keep_on(m, with_expanded(t, p, true), p);
    }
}

/// Toggling twice gives back the state toggled from.
pub proof fn law_toggle_twice_restores(m: AppModel)
    requires
        model_ok(m),
    ensures
        apply_action(apply_action(m, Action::Toggle).0, Action::Toggle).0 == m,
{
    let t = m.tree;
    let p = visible_paths(t)[m.cursor];
    lemma_cursor_node(m);
    if has_children(t, p) {
        let e = is_expanded(t, p);
        lemma_with_expanded(t, p, !e);
        let t2 = with_expanded(t, p, !e);
        lemma_keep_on(m, t2, p);
        let m2 = keep_on(m, t2, p);
        lemma_with_expanded(t2, p, e);
        assert(with_expanded(t2, p, !is_expanded(t2, p)) == t);
        assert(keep_on(m2, t, p).cursor == m.cursor);
        assert(keep_on(m2, t, p) == m);
    }
}

/// Expanding a collapsed branch and collapsing it again gives back the
/// state started from.
pub proof fn law_collapse_undoes_expand(m: AppModel)
    requires
        model_ok(m),
        has_children(m.tree, visible_paths(m.tree)[m.cursor]),
        !is_expanded(m.tree, visible_paths(m.tree)[m.cursor]),
    ensures
        apply_action(apply_action(m, Action::Expand).0, Action::Collapse).0 == m,
{
    let t = m.tree;
    let p = visible_paths(t)[m.cursor];
    lemma_cursor_node(m);
    lemma_with_expanded(t, p, true);
    let t2 = with_expanded(t, p, true);
    lemma_keep_on(m, t2, p);
    let m2 = keep_on(m, t2, p);
    lemma_with_expanded(t2, p, false);
    assert(with_expanded(t2, p, false) == t);
    assert(keep_on(m2, t, p) == m);
}

/// Accepting a pane row asks to focus that pane and changes nothing, in
/// either `enter_on_branch` mode.
pub proof fn law_accept_on_a_pane_focuses_it(m: AppModel)
    requires
        model_ok(m),
        visible_paths(m.tree)[m.cursor] is Pane,
    ensures
        apply_action(m, Action::Accept) == (m, Effect::Focus(visible_paths(m.tree)[m.cursor])),
{
}

/// The motions move only the cursor, over the visible rows and clamped to
/// them: up and down by one row, page up and page down by the viewport
/// height (at least one row), top and bottom to the first and last row.
pub proof fn law_motions_move_only_the_cursor(m: AppModel, action: Action)
    requires
        model_ok(m),
        action is Up || action is Down || action is PageUp || action is PageDown || action is Top
            || action is Bottom,
    ensures
        ({
            let (m2, e) = apply_action(m, action);
            let n = visible_paths(m.tree).len() as int;
            let page = if m.viewport >= 1 { m.viewport } else { 1 };
            let c = m.cursor;
            let c2 = m2.cursor;
            &&& e is Continue
            &&& m2.tree == m.tree
            &&& m2.pending == m.pending
            &&& m2.viewport == m.viewport
            &&& m2.mode == m.mode
            &&& 0 <= c2 < n
            &&& action is Up ==> (c >= 1 ==> c2 == c - 1) && (c == 0 ==> c2 == 0)
            &&& action is Down ==> (c + 1 < n ==> c2 == c + 1) && (c + 1 >= n ==> c2 == n - 1)
            &&& action is PageUp ==> (c >= page ==> c2 == c - page) && (c < page ==> c2 == 0)
            &&& action is PageDown ==> (c + page < n ==> c2 == c + page) && (c + page >= n ==> c2
                == n - 1)
            &&& action is Top ==> c2 == 0
            &&& action is Bottom ==> c2 == n - 1
        }),
{
}

/// In `expand` mode, accepting a workspace or tab row never asks to focus
/// it: the step continues, the branch's expansion flips when it has
/// children (and nothing changes when it has none), no other branch
/// changes, and the cursor stays on the row.
pub proof fn law_accept_on_a_branch_toggles_it_in_expand_mode(m: AppModel)
    requires
        model_ok(m),
        m.mode == EnterOnBranch::Expand,
        !(visible_paths(m.tree)[m.cursor] is Pane),
    ensures
        ({
            let p = visible_paths(m.tree)[m.cursor];
            let (m2, e) = apply_action(m, Action::Accept);
            &&& e is Continue
            &&& visible_paths(m2.tree)[m2.cursor] == p
            &&& has_children(m.tree, p) ==> is_expanded(m2.tree, p) == !is_expanded(m.tree, p)
            &&& !has_children(m.tree, p) ==> m2.tree == m.tree
            &&& forall|q: NodePath| path_valid(m.tree, q) && q != p ==> #[trigger] is_expanded(m2.tree, q) == is_expanded(m.tree, q)
            &&& m2.pending == m.pending && m2.viewport == m.viewport && m2.mode == m.mode
        }),
{
    let t = m.tree;
    let p = visible_paths(t)[m.cursor];
    lemma_cursor_node(m);
    lemma_with_expanded(t, p, !is_expanded(t, p));
    if has_children(t, p) {
        lemma_keep_on(m, with_expanded(t, p, !is_expanded(t, p)), p);
    } else {
        lemma_keep_on(m, t, p);
    }
}

/// In `jump` mode accepting any row asks to focus that row's node and
/// changes nothing.
pub proof fn law_accept_in_jump_mode_focuses_the_row(m: AppModel)
    requires
        model_ok(m),
        m.mode == EnterOnBranch::Jump,
    ensures
        apply_action(m, Action::Accept) == (m, Effect::Focus(visible_paths(m.tree)[m.cursor])),
{
}

/// Cancel asks to close the picker and changes nothing.
pub proof fn law_cancel_closes(m: AppModel)
    requires
        model_ok(m),
    ensures
        apply_action(m, Action::Cancel) == (m, Effect::Cancel),
{
}

/// Expanding a collapsed branch that has children opens it, keeps the
/// cursor on it and makes its children visible; on any other row expand
/// changes nothing.
pub proof fn law_expand_opens_a_collapsed_branch(m: AppModel)
    requires
        model_ok(m),
    ensures
        ({
            let p = visible_paths(m.tree)[m.cursor];
            let m2 = apply_action(m, Action::Expand).0;
            &&& apply_action(m, Action::Expand).1 is Continue
            &&& (has_children(m.tree, p) && !is_expanded(m.tree, p)) ==> {
                &&& is_expanded(m2.tree, p)
                &&& visible_paths(m2.tree)[m2.cursor] == p
                &&& forall|q: NodePath|
                    path_valid(m.tree, q) && parent_of(q) == Some(p) ==> #[trigger] visible_paths(
                        m2.tree,
                    ).contains(q)
                &&& forall|q: NodePath| path_valid(m.tree, q) && q != p ==> #[trigger] is_expanded(m2.tree, q) == is_expanded(m.tree, q)
            }
            &&& !(has_children(m.tree, p) && !is_expanded(m.tree, p)) ==> m2 == m
        }),
{
    let t = m.tree;
    let p = visible_paths(t)[m.cursor];
    lemma_cursor_node(m);
    lemma_with_expanded(t, p, true);
    if has_children(t, p) && !is_expanded(t, p) {
        let t2 = with_expanded(t, p, true);
        lemma_keep_on(m, t2, p);
        lemma_visible_paths(t2);
        assert forall|q: NodePath| path_valid(t, q) && parent_of(q) == Some(p) implies #[trigger]
            visible_paths(t2).contains(q) by {
            assert(path_valid(t2, q));
            assert(path_visible(t2, q));
        }
    }
}

/// Toggle flips the expansion of the branch under the cursor when it has
/// children, leaves every other branch alone and keeps the cursor on the
/// row; on a row without children it changes nothing.
pub proof fn law_toggle_flips_the_branch_under_the_cursor(m: AppModel)
    requires
        model_ok(m),
    ensures
        ({
            let p = visible_paths(m.tree)[m.cursor];
            let (m2, e) = apply_action(m, Action::Toggle);
            &&& e is Continue
            &&& has_children(m.tree, p) ==> {
                &&& is_expanded(m2.tree, p) == !is_expanded(m.tree, p)
                &&& visible_paths(m2.tree)[m2.cursor] == p
                &&& forall|q: NodePath| path_valid(m.tree, q) && q != p ==> #[trigger] is_expanded(m2.tree, q) == is_expanded(m.tree, q)
                &&& m2.pending == m.pending && m2.viewport == m.viewport && m2.mode == m.mode
            }
            &&& !has_children(m.tree, p) ==> m2 == m
        }),
{
    let t = m.tree;
    let p = visible_paths(t)[m.cursor];
    lemma_cursor_node(m);
    lemma_with_expanded(t, p, !is_expanded(t, p));
    if has_children(t, p) {
        lemma_keep_on(m, with_expanded(t, p, !is_expanded(t, p)), p);
    }
}

} // verus!
