//! The session tree: workspaces hold tabs, tabs hold panes. Branches can be
//! expanded or collapsed; the rows shown are the nodes whose ancestors are
//! all expanded, in tree order.

use vstd::prelude::*;
use crate::text::{decimal, decimal_string, opt_text};

verus! {

/// An agent's state, as the session reports it.
#[derive(Clone, Copy, Debug, PartialEq, Eq, Structural)]
pub enum AgentStatus {
    Idle,
    Working,
    Blocked,
    Done,
    Unknown,
}

/// A workspace as the session lists it.
#[derive(Clone, Debug)]
pub struct WorkspaceInfo {
    pub workspace_id: String,
    pub number: usize,
    pub label: String,
    pub focused: bool,
    pub pane_count: usize,
    pub tab_count: usize,
    pub active_tab_id: String,
    pub agent_status: AgentStatus,
}

/// A tab as the session lists it.
#[derive(Clone, Debug)]
pub struct TabInfo {
    pub tab_id: String,
    pub workspace_id: String,
    pub number: usize,
    pub label: String,
    pub focused: bool,
    pub pane_count: usize,
    pub agent_status: AgentStatus,
}

/// A pane as the session lists it.
#[derive(Clone, Debug)]
pub struct PaneInfo {
    pub pane_id: String,
    pub tab_id: String,
    pub workspace_id: String,
    pub focused: bool,
    pub agent: Option<String>,
    pub display_agent: Option<String>,
    pub agent_status: AgentStatus,
    pub cwd: Option<String>,
    pub label: Option<String>,
    pub title: Option<String>,
    pub terminal_id: String,
}

/// Which branches start expanded: all of them, or none (everything starts
/// collapsed).
#[derive(Clone, Copy, Debug, PartialEq, Eq, Structural)]
pub enum InitialExpansion {
    All,
    Collapsed,
}

/// The level of a row.
#[derive(Clone, Copy, Debug, PartialEq, Eq, Structural)]
pub enum RowKind {
    Workspace,
    Tab,
    Pane,
}

/// Where a node sits: workspace index, tab index within it, pane index
/// within the tab.
#[derive(Clone, Copy, Debug, PartialEq, Eq, Structural)]
pub enum NodePath {
    Workspace(usize),
    Tab(usize, usize),
    Pane(usize, usize, usize),
}

/// What accepting a row asks the session to focus.
#[derive(Clone, Debug, PartialEq, Eq)]
pub enum FocusTarget {
    Workspace(String),
    Tab(String),
    Pane(String),
}

/// One visible line of the tree.
#[derive(Clone, Debug, PartialEq, Eq)]
pub struct Row {
    pub kind: RowKind,
    pub path: NodePath,
    pub depth: u8,
    pub label: String,
    pub expandable: bool,
    pub expanded: bool,
    pub is_current: bool,
    pub pane_count: usize,
    pub agent: Option<String>,
    pub agent_status: AgentStatus,
    pub focus_target: FocusTarget,
}

/// A pane of the tree, as plain values.
pub struct PaneModel {
    pub id: Seq<char>,
    pub label: Seq<char>,
    pub focused: bool,
    pub agent: Option<Seq<char>>,
    pub status: AgentStatus,
}

/// A tab of the tree, as plain values.
pub struct TabModel {
    pub id: Seq<char>,
    pub label: Seq<char>,
    pub focused: bool,
    pub pane_count: nat,
    pub status: AgentStatus,
    pub expanded: bool,
    pub panes: Seq<PaneModel>,
}

/// A workspace of the tree, as plain values.
pub struct WorkspaceModel {
    pub id: Seq<char>,
    pub label: Seq<char>,
    pub focused: bool,
    pub pane_count: nat,
    pub status: AgentStatus,
    pub expanded: bool,
    pub tabs: Seq<TabModel>,
}

/// Every index of the tree fits a `usize`.
pub open spec fn bounded(t: Seq<WorkspaceModel>) -> bool {
    &&& t.len() <= usize::MAX
    &&& forall|w: int| 0 <= w < t.len() ==> (#[trigger] t[w]).tabs.len() <= usize::MAX
    &&& forall|w: int, k: int|
        0 <= w < t.len() && 0 <= k < t[w].tabs.len() ==> (#[trigger] t[w].tabs[k]).panes.len()
            <= usize::MAX
}

/// The path names a node of `t`.
pub open spec fn path_valid(t: Seq<WorkspaceModel>, p: NodePath) -> bool {
    match p {
        NodePath::Workspace(w) => w < t.len(),
        NodePath::Tab(w, k) => w < t.len() && k < t[w as int].tabs.len(),
        NodePath::Pane(w, k, j) => w < t.len() && k < t[w as int].tabs.len() && j < t[w as int].tabs[
            k as int].panes.len(),
    }
}

/// The node exists and all its ancestors are expanded.
pub open spec fn path_visible(t: Seq<WorkspaceModel>, p: NodePath) -> bool {
    &&& path_valid(t, p)
    &&& match p {
        NodePath::Workspace(_) => true,
        NodePath::Tab(w, _) => t[w as int].expanded,
        NodePath::Pane(w, k, _) => t[w as int].expanded && t[w as int].tabs[k as int].expanded,
    }
}

/// The node is a branch with at least one child.
pub open spec fn has_children(t: Seq<WorkspaceModel>, p: NodePath) -> bool {
    match p {
        NodePath::Workspace(w) => t[w as int].tabs.len() > 0,
        NodePath::Tab(w, k) => t[w as int].tabs[k as int].panes.len() > 0,
        NodePath::Pane(..) => false,
    }
}

/// The node's expansion flag (panes are never expanded).
pub open spec fn is_expanded(t: Seq<WorkspaceModel>, p: NodePath) -> bool {
    match p {
        NodePath::Workspace(w) => t[w as int].expanded,
        NodePath::Tab(w, k) => t[w as int].tabs[k as int].expanded,
        NodePath::Pane(..) => false,
    }
}

/// The node one level up, if any.
pub open spec fn parent_of(p: NodePath) -> Option<NodePath> {
    match p {
        NodePath::Workspace(_) => None,
        NodePath::Tab(w, _) => Some(NodePath::Workspace(w)),
        NodePath::Pane(w, k, _) => Some(NodePath::Tab(w, k)),
    }
}

/// The tree with the expansion flag of branch `p` set to `b`.
pub open spec fn with_expanded(t: Seq<WorkspaceModel>, p: NodePath, b: bool) -> Seq<WorkspaceModel> {
    match p {
        NodePath::Workspace(w) => t.update(w as int, WorkspaceModel { expanded: b, ..t[w as int] }),
        NodePath::Tab(w, k) => t.update(
            w as int,
            WorkspaceModel {
                tabs: t[w as int].tabs.update(
                    k as int,
                    TabModel { expanded: b, ..t[w as int].tabs[k as int] },
                ),
                ..t[w as int]
            },
        ),
        NodePath::Pane(..) => t,
    }
}

/// The rows of tab `k` of workspace `w`: the tab, then its panes if it is
/// expanded.
pub open spec fn tab_block(t: Seq<WorkspaceModel>, w: int, k: int) -> Seq<NodePath> {
    seq![NodePath::Tab(w as usize, k as usize)] + if t[w].tabs[k].expanded {
        Seq::new(
            t[w].tabs[k].panes.len(),
            |j: int| NodePath::Pane(w as usize, k as usize, j as usize),
        )
    } else {
        Seq::empty()
    }
}

/// The rows of the first `n` tabs of workspace `w`.
pub open spec fn tab_blocks(t: Seq<WorkspaceModel>, w: int, n: int) -> Seq<NodePath>
    decreases n,
{
    if n <= 0 {
        Seq::empty()
    } else {
        tab_blocks(t, w, n - 1) + tab_block(t, w, n - 1)
    }
}

/// The rows of workspace `w`: the workspace, then its tabs if it is expanded.
pub open spec fn workspace_block(t: Seq<WorkspaceModel>, w: int) -> Seq<NodePath> {
    seq![NodePath::Workspace(w as usize)] + if t[w].expanded {
        tab_blocks(t, w, t[w].tabs.len() as int)
    } else {
        Seq::empty()
    }
}

/// The rows of the first `n` workspaces.
pub open spec fn workspace_blocks(t: Seq<WorkspaceModel>, n: int) -> Seq<NodePath>
    decreases n,
{
    if n <= 0 {
        Seq::empty()
    } else {
        workspace_blocks(t, n - 1) + workspace_block(t, n - 1)
    }
}

/// The paths of the visible rows, in tree order.
pub open spec fn visible_paths(t: Seq<WorkspaceModel>) -> Seq<NodePath> {
    workspace_blocks(t, t.len() as int)
}

/// The workspace index of a path.
pub open spec fn ws_of(p: NodePath) -> int {
    match p {
        NodePath::Workspace(w) => w as int,
        NodePath::Tab(w, _) => w as int,
        NodePath::Pane(w, _, _) => w as int,
    }
}

/// The tab index of a path below a workspace.
pub open spec fn tab_of(p: NodePath) -> int {
    match p {
        NodePath::Workspace(_) => -1,
        NodePath::Tab(_, k) => k as int,
        NodePath::Pane(_, k, _) => k as int,
    }
}


/// Concatenating two duplicate-free sequences with no element in common
/// gives a duplicate-free sequence.
proof fn lemma_concat_no_duplicates(a: Seq<NodePath>, b: Seq<NodePath>)
    requires
        a.no_duplicates(),
        b.no_duplicates(),
        forall|i: int, j: int| 0 <= i < a.len() && 0 <= j < b.len() ==> a[i] != b[j],
    ensures
        (a + b).no_duplicates(),
{
    let c = a + b;
    assert forall|i: int, j: int| 0 <= i < c.len() && 0 <= j < c.len() && i != j implies c[i]
        != c[j] by {
        if i < a.len() && j >= a.len() {
            assert(c[j] == b[j - a.len()]);
        } else if i >= a.len() && j < a.len() {
            assert(c[i] == b[i - a.len()]);
        } else if i >= a.len() {
            assert(c[i] == b[i - a.len()] && c[j] == b[j - a.len()]);
        }
    }
}

/// What the rows of one tab are.
proof fn lemma_tab_block(t: Seq<WorkspaceModel>, w: int, k: int)
    requires
        bounded(t),
        0 <= w < t.len(),
        0 <= k < t[w].tabs.len(),
    ensures
        forall|i: int|
            0 <= i < tab_block(t, w, k).len() ==> ws_of(#[trigger] tab_block(t, w, k)[i]) == w
                && tab_of(tab_block(t, w, k)[i]) == k,
        tab_block(t, w, k).no_duplicates(),
        forall|p: NodePath|
            #[trigger] tab_block(t, w, k).contains(p) <==> (path_valid(t, p) && ws_of(p) == w
                && tab_of(p) == k && (p is Pane ==> t[w].tabs[k].expanded)),
{
    let tb = tab_block(t, w, k);
    assert(t[w].tabs.len() <= usize::MAX);
    assert(t[w].tabs[k].panes.len() <= usize::MAX);
    assert forall|p: NodePath| #[trigger] tb.contains(p) <== (path_valid(t, p) && ws_of(p) == w
        && tab_of(p) == k && (p is Pane ==> t[w].tabs[k].expanded)) by {
        if path_valid(t, p) && ws_of(p) == w && tab_of(p) == k && (p is Pane
            ==> t[w].tabs[k].expanded) {
            match p {
                NodePath::Workspace(_) => {},
                NodePath::Tab(_, _) => {
                    assert(tb[0] == p);
                },
                NodePath::Pane(_, _, j) => {
                    assert(tb[j + 1] == p);
                },
            }
        }
    }
    assert forall|i: int, j: int| 0 <= i < tb.len() && 0 <= j < tb.len() && i != j implies tb[i]
        != tb[j] by {
        if i > 0 && j > 0 {
            assert(tb[i] == NodePath::Pane(w as usize, k as usize, (i - 1) as usize));
            assert(tb[j] == NodePath::Pane(w as usize, k as usize, (j - 1) as usize));
        }
    }
}

/// What the rows of the first `n` tabs of a workspace are.
proof fn lemma_tab_blocks(t: Seq<WorkspaceModel>, w: int, n: int)
    requires
        bounded(t),
        0 <= w < t.len(),
        0 <= n <= t[w].tabs.len(),
    ensures
        forall|i: int|
            0 <= i < tab_blocks(t, w, n).len() ==> ws_of(#[trigger] tab_blocks(t, w, n)[i]) == w
                && 0 <= tab_of(tab_blocks(t, w, n)[i]) < n,
        tab_blocks(t, w, n).no_duplicates(),
        forall|p: NodePath|
            #[trigger] tab_blocks(t, w, n).contains(p) <==> (path_valid(t, p) && ws_of(p) == w
                && 0 <= tab_of(p) < n && (p is Pane ==> t[w].tabs[tab_of(p)].expanded)),
    decreases n,
{
    if n > 0 {
        lemma_tab_blocks(t, w, n - 1);
        lemma_tab_block(t, w, n - 1);
        let a = tab_blocks(t, w, n - 1);
        let b = tab_block(t, w, n - 1);
        lemma_concat_no_duplicates(a, b);
        assert forall|p: NodePath| #[trigger] (a + b).contains(p) <==> (a.contains(p) || b.contains(
            p,
        )) by {
            if a.contains(p) {
                let i = choose|i: int| 0 <= i < a.len() && a[i] == p;
                assert((a + b)[i] == p);
            }
            if b.contains(p) {
                let i = choose|i: int| 0 <= i < b.len() && b[i] == p;
                assert((a + b)[a.len() + i] == p);
            }
        }
        assert forall|i: int| 0 <= i < (a + b).len() implies ws_of(#[trigger] (a + b)[i]) == w && 0
            <= tab_of((a + b)[i]) < n by {
            if i >= a.len() {
                assert((a + b)[i] == b[i - a.len()]);
            }
        }
    }
}

/// What the rows of one workspace are.
proof fn lemma_workspace_block(t: Seq<WorkspaceModel>, w: int)
    requires
        bounded(t),
        0 <= w < t.len(),
    ensures
        forall|i: int|
            0 <= i < workspace_block(t, w).len() ==> ws_of(#[trigger] workspace_block(t, w)[i])
                == w,
        workspace_block(t, w).no_duplicates(),
        forall|p: NodePath|
            #[trigger] workspace_block(t, w).contains(p) <==> (path_visible(t, p) && ws_of(p) == w),
{
    let head = seq![NodePath::Workspace(w as usize)];
    let n = t[w].tabs.len() as int;
    lemma_tab_blocks(t, w, n);
    let rest = if t[w].expanded {
        tab_blocks(t, w, n)
    } else {
        Seq::empty()
    };
    assert(workspace_block(t, w) == head + rest);
    assert forall|i: int, j: int| 0 <= i < head.len() && 0 <= j < rest.len() implies head[i]
        != rest[j] by {
        assert(tab_of(rest[j]) >= 0);
    }
    lemma_concat_no_duplicates(head, rest);
    assert forall|p: NodePath| #[trigger] (head + rest).contains(p) <==> (path_visible(t, p) && ws_of(
        p,
    ) == w) by {
        if (head + rest).contains(p) {
            let i = choose|i: int| 0 <= i < (head + rest).len() && (head + rest)[i] == p;
            if i >= 1 {
                assert(rest[i - 1] == p);
                assert(rest.contains(p));
            }
        }
        if path_visible(t, p) && ws_of(p) == w {
            match p {
                NodePath::Workspace(_) => {
                    assert((head + rest)[0] == p);
                },
                _ => {
                    assert(rest.contains(p));
                    let i = choose|i: int| 0 <= i < rest.len() && rest[i] == p;
                    assert((head + rest)[i + 1] == p);
                },
            }
        }
    }
    assert forall|i: int| 0 <= i < (head + rest).len() implies ws_of(#[trigger] (head + rest)[i])
        == w by {
        if i >= 1 {
            assert((head + rest)[i] == rest[i - 1]);
        }
    }
}

/// What the rows of the first `n` workspaces are.
proof fn lemma_workspace_blocks(t: Seq<WorkspaceModel>, n: int)
    requires
        bounded(t),
        0 <= n <= t.len(),
    ensures
        forall|i: int|
            0 <= i < workspace_blocks(t, n).len() ==> 0 <= ws_of(
                #[trigger] workspace_blocks(t, n)[i],
            ) < n,
        workspace_blocks(t, n).no_duplicates(),
        forall|p: NodePath|
            #[trigger] workspace_blocks(t, n).contains(p) <==> (path_visible(t, p) && ws_of(p) < n),
    decreases n,
{
    if n > 0 {
        lemma_workspace_blocks(t, n - 1);
        lemma_workspace_block(t, n - 1);
        let a = workspace_blocks(t, n - 1);
        let b = workspace_block(t, n - 1);
        lemma_concat_no_duplicates(a, b);
        assert forall|p: NodePath| #[trigger] (a + b).contains(p) <==> (a.contains(p) || b.contains(
            p,
        )) by {
            if a.contains(p) {
                let i = choose|i: int| 0 <= i < a.len() && a[i] == p;
                assert((a + b)[i] == p);
            }
            if b.contains(p) {
                let i = choose|i: int| 0 <= i < b.len() && b[i] == p;
                assert((a + b)[a.len() + i] == p);
            }
        }
        assert forall|i: int| 0 <= i < (a + b).len() implies 0 <= ws_of(#[trigger] (a + b)[i]) < n by {
            if i >= a.len() {
                assert((a + b)[i] == b[i - a.len()]);
            }
        }
    }
}

/// The visible rows are exactly the visible nodes, each once.
pub proof fn lemma_visible_paths(t: Seq<WorkspaceModel>)
    requires
        bounded(t),
    ensures
        visible_paths(t).no_duplicates(),
        forall|p: NodePath| #[trigger] visible_paths(t).contains(p) <==> path_visible(t, p),
{
    lemma_workspace_blocks(t, t.len() as int);
}


/// Indices, below `n`, of the tabs listed under workspace `wid`.
pub open spec fn tab_indices(tabs: Seq<TabInfo>, wid: Seq<char>, n: int) -> Seq<int>
    decreases n,
{
    if n <= 0 {
        Seq::empty()
    } else {
        tab_indices(tabs, wid, n - 1) + if tabs[n - 1].workspace_id@ == wid {
            seq![n - 1]
        } else {
            Seq::empty()
        }
    }
}

/// Indices, below `n`, of the panes listed under tab `tid`.
pub open spec fn pane_indices(panes: Seq<PaneInfo>, tid: Seq<char>, n: int) -> Seq<int>
    decreases n,
{
    if n <= 0 {
        Seq::empty()
    } else {
        pane_indices(panes, tid, n - 1) + if panes[n - 1].tab_id@ == tid {
            seq![n - 1]
        } else {
            Seq::empty()
        }
    }
}

/// How many of the first `n` panes belong to workspace `wid`.
pub open spec fn workspace_panes_before(panes: Seq<PaneInfo>, wid: Seq<char>, n: int) -> nat
    decreases n,
{
    if n <= 0 {
        0
    } else {
        workspace_panes_before(panes, wid, n - 1) + if panes[n - 1].workspace_id@ == wid {
            1nat
        } else {
            0nat
        }
    }
}

/// A pane's label: its own label if it has one, else `pane N`, where N
/// counts the panes of its workspace in the order the session lists them.
pub open spec fn pane_label(info: PaneInfo, number: nat) -> Seq<char> {
    match info.label {
        Some(l) => l@,
        None => "pane "@ + decimal(number),
    }
}

/// The pane built from pane `i` of the list, in workspace `wid`.
pub open spec fn pane_model(panes: Seq<PaneInfo>, wid: Seq<char>, i: int) -> PaneModel {
    PaneModel {
        id: panes[i].pane_id@,
        label: pane_label(panes[i], workspace_panes_before(panes, wid, i) + 1),
        focused: panes[i].focused,
        agent: opt_text(panes[i].agent),
        status: panes[i].agent_status,
    }
}

/// The tab built from `info`, holding the panes listed under it.
pub open spec fn tab_model(info: TabInfo, panes: Seq<PaneInfo>, wid: Seq<char>, expanded: bool) -> TabModel {
    TabModel {
        id: info.tab_id@,
        label: info.label@,
        focused: info.focused,
        pane_count: info.pane_count as nat,
        status: info.agent_status,
        expanded,
        panes: pane_indices(panes, info.tab_id@, panes.len() as int).map_values(
            |i: int| pane_model(panes, wid, i),
        ),
    }
}

/// The workspace built from `info`, holding the tabs listed under it.
pub open spec fn workspace_model(
    info: WorkspaceInfo,
    tabs: Seq<TabInfo>,
    panes: Seq<PaneInfo>,
    expanded: bool,
) -> WorkspaceModel {
    let wid = info.workspace_id@;
    WorkspaceModel {
        id: wid,
        label: info.label@,
        focused: info.focused,
        pane_count: info.pane_count as nat,
        status: info.agent_status,
        expanded,
        tabs: tab_indices(tabs, wid, tabs.len() as int).map_values(
            |i: int| tab_model(tabs[i], panes, wid, expanded),
        ),
    }
}

/// The tree the session lists give: workspaces in order, each tab under the
/// workspace it names, each pane under the tab it names.
pub open spec fn built_tree(
    workspaces: Seq<WorkspaceInfo>,
    tabs: Seq<TabInfo>,
    panes: Seq<PaneInfo>,
    initial: InitialExpansion,
) -> Seq<WorkspaceModel> {
    workspaces.map_values(
        |w: WorkspaceInfo| workspace_model(w, tabs, panes, initial == InitialExpansion::All),
    )
}

/// The index of the first `true`, if any.
pub open spec fn first_true(s: Seq<bool>) -> Option<int>
    decreases s.len(),
{
    if s.len() == 0 {
        None
    } else if s[0] {
        Some(0)
    } else {
        match first_true(s.drop_first()) {
            Some(i) => Some(i + 1),
            None => None,
        }
    }
}

/// `first_true` finds `i` when nothing before `i` is set and `i` is, and
/// finds nothing when nothing is set.
proof fn lemma_first_true(s: Seq<bool>, i: int)
    requires
        0 <= i <= s.len(),
        forall|j: int| 0 <= j < i ==> !s[j],
    ensures
        i < s.len() && s[i] ==> first_true(s) == Some(i),
        i == s.len() ==> first_true(s) is None,
    decreases i,
{
    if i > 0 {
        assert forall|j: int| 0 <= j < i - 1 implies !s.drop_first()[j] by {
            assert(s.drop_first()[j] == s[j + 1]);
        }
        lemma_first_true(s.drop_first(), i - 1);
        if i < s.len() {
            assert(s.drop_first()[i - 1] == s[i]);
        }
    }
}

/// What `first_true` finds is a set flag.
proof fn lemma_first_true_in_range(s: Seq<bool>)
    ensures
        first_true(s) matches Some(i) ==> 0 <= i < s.len() && s[i],
    decreases s.len(),
{
    if s.len() > 0 && !s[0] {
        lemma_first_true_in_range(s.drop_first());
    }
}

/// The node the cursor starts on is visible.
pub proof fn lemma_cursor_target_visible(t: Seq<WorkspaceModel>)
    requires
        bounded(t),
    ensures
        cursor_target(t) matches Some(p) ==> path_visible(t, p),
{
    lemma_first_true_in_range(workspace_focus(t));
    if let Some(w) = first_true(workspace_focus(t)) {
        assert(t[w].tabs.len() <= usize::MAX);
        lemma_first_true_in_range(tab_focus(t[w]));
        if let Some(k) = first_true(tab_focus(t[w])) {
            assert(t[w].tabs[k].panes.len() <= usize::MAX);
            lemma_first_true_in_range(pane_focus(t[w].tabs[k]));
        }
    }
}

/// `q` lies inside the subtree of `p` (and is not `p` itself).
pub open spec fn is_below(q: NodePath, p: NodePath) -> bool {
    match p {
        NodePath::Workspace(w) => !(q is Workspace) && ws_of(q) == w,
        NodePath::Tab(w, k) => q is Pane && ws_of(q) == w && tab_of(q) == k,
        NodePath::Pane(..) => false,
    }
}

/// Setting a branch's flag touches nothing else: the branch keeps its
/// children and its visibility, the flag reads back as set, and setting the
/// flag it already has leaves the tree as it was.
pub proof fn lemma_with_expanded(t: Seq<WorkspaceModel>, p: NodePath, b: bool)
    requires
        path_valid(t, p),
    ensures
        path_valid(with_expanded(t, p, b), p),
        has_children(with_expanded(t, p, b), p) == has_children(t, p),
        !(p is Pane) ==> is_expanded(with_expanded(t, p, b), p) == b,
        path_visible(with_expanded(t, p, b), p) == path_visible(t, p),
        with_expanded(t, p, is_expanded(t, p)) == t,
        with_expanded(with_expanded(t, p, b), p, is_expanded(t, p)) == t,
        bounded(t) ==> bounded(with_expanded(t, p, b)),
        forall|q: NodePath| path_valid(t, q) <==> #[trigger] path_valid(with_expanded(t, p, b), q),
        forall|q: NodePath|
            path_valid(t, q) ==> #[trigger] node_id(with_expanded(t, p, b), q) == node_id(t, q),
        forall|q: NodePath|
            path_valid(t, q) && q != p ==> #[trigger] is_expanded(with_expanded(t, p, b), q)
                == is_expanded(t, q),
{
    match p {
        NodePath::Workspace(w) => {
            assert(with_expanded(t, p, is_expanded(t, p)) =~= t);
            assert(with_expanded(with_expanded(t, p, b), p, is_expanded(t, p)) =~= t);
        },
        NodePath::Tab(w, k) => {
            assert(t[w as int].tabs.update(k as int, TabModel { expanded: t[w as int].tabs[k as int].expanded, ..t[w as int].tabs[k as int] }) =~= t[w as int].tabs);
            assert(with_expanded(t, p, is_expanded(t, p)) =~= t);
            let t2 = with_expanded(t, p, b);
            assert(t2[w as int].tabs.update(k as int, TabModel { expanded: t[w as int].tabs[k as int].expanded, ..t2[w as int].tabs[k as int] }) =~= t[w as int].tabs);
            assert(with_expanded(t2, p, is_expanded(t, p)) =~= t);
        },
        NodePath::Pane(..) => {},
    }
}

/// The focus flags of the workspaces.
pub open spec fn workspace_focus(t: Seq<WorkspaceModel>) -> Seq<bool> {
    t.map_values(|w: WorkspaceModel| w.focused)
}

/// The focus flags of the tabs of a workspace.
pub open spec fn tab_focus(w: WorkspaceModel) -> Seq<bool> {
    w.tabs.map_values(|k: TabModel| k.focused)
}

/// The focus flags of the panes of a tab.
pub open spec fn pane_focus(k: TabModel) -> Seq<bool> {
    k.panes.map_values(|p: PaneModel| p.focused)
}

/// The pane the picker was opened from: the first focused pane of the
/// first focused tab of the first focused workspace.
pub open spec fn current_pane(t: Seq<WorkspaceModel>) -> Option<NodePath> {
    match first_true(workspace_focus(t)) {
        None => None,
        Some(w) => match first_true(tab_focus(t[w])) {
            None => None,
            Some(k) => match first_true(pane_focus(t[w].tabs[k])) {
                None => None,
                Some(j) => Some(NodePath::Pane(w as usize, k as usize, j as usize)),
            },
        },
    }
}

/// Where the cursor starts: the deepest visible node on the focused chain.
pub open spec fn cursor_target(t: Seq<WorkspaceModel>) -> Option<NodePath> {
    match first_true(workspace_focus(t)) {
        None => None,
        Some(w) => if !t[w].expanded {
            Some(NodePath::Workspace(w as usize))
        } else {
            match first_true(tab_focus(t[w])) {
                None => Some(NodePath::Workspace(w as usize)),
                Some(k) => if !t[w].tabs[k].expanded {
                    Some(NodePath::Tab(w as usize, k as usize))
                } else {
                    match first_true(pane_focus(t[w].tabs[k])) {
                        None => Some(NodePath::Tab(w as usize, k as usize)),
                        Some(j) => Some(NodePath::Pane(w as usize, k as usize, j as usize)),
                    }
                },
            }
        },
    }
}

/// The level of a path.
pub open spec fn kind_of(p: NodePath) -> RowKind {
    match p {
        NodePath::Workspace(_) => RowKind::Workspace,
        NodePath::Tab(..) => RowKind::Tab,
        NodePath::Pane(..) => RowKind::Pane,
    }
}

/// How deep a path sits.
pub open spec fn depth_of(p: NodePath) -> int {
    match p {
        NodePath::Workspace(_) => 0,
        NodePath::Tab(..) => 1,
        NodePath::Pane(..) => 2,
    }
}

/// The label of a node.
pub open spec fn node_label(t: Seq<WorkspaceModel>, p: NodePath) -> Seq<char> {
    match p {
        NodePath::Workspace(w) => t[w as int].label,
        NodePath::Tab(w, k) => t[w as int].tabs[k as int].label,
        NodePath::Pane(w, k, j) => t[w as int].tabs[k as int].panes[j as int].label,
    }
}

/// The session id of a node.
pub open spec fn node_id(t: Seq<WorkspaceModel>, p: NodePath) -> Seq<char> {
    match p {
        NodePath::Workspace(w) => t[w as int].id,
        NodePath::Tab(w, k) => t[w as int].tabs[k as int].id,
        NodePath::Pane(w, k, j) => t[w as int].tabs[k as int].panes[j as int].id,
    }
}

/// The agent status of a node.
pub open spec fn node_status(t: Seq<WorkspaceModel>, p: NodePath) -> AgentStatus {
    match p {
        NodePath::Workspace(w) => t[w as int].status,
        NodePath::Tab(w, k) => t[w as int].tabs[k as int].status,
        NodePath::Pane(w, k, j) => t[w as int].tabs[k as int].panes[j as int].status,
    }
}

/// The pane count a node reports (a pane counts as one).
pub open spec fn node_pane_count(t: Seq<WorkspaceModel>, p: NodePath) -> nat {
    match p {
        NodePath::Workspace(w) => t[w as int].pane_count,
        NodePath::Tab(w, k) => t[w as int].tabs[k as int].pane_count,
        NodePath::Pane(..) => 1,
    }
}

/// The agent running in a pane; branches have none.
pub open spec fn node_agent(t: Seq<WorkspaceModel>, p: NodePath) -> Option<Seq<char>> {
    match p {
        NodePath::Pane(w, k, j) => t[w as int].tabs[k as int].panes[j as int].agent,
        _ => None,
    }
}

/// `f` asks to focus the node at `p`, whose id is `id`.
pub open spec fn targets(f: FocusTarget, p: NodePath, id: Seq<char>) -> bool {
    match (f, p) {
        (FocusTarget::Workspace(s), NodePath::Workspace(_)) => s@ == id,
        (FocusTarget::Tab(s), NodePath::Tab(..)) => s@ == id,
        (FocusTarget::Pane(s), NodePath::Pane(..)) => s@ == id,
        _ => false,
    }
}

/// `r` is the row of node `p`.
pub open spec fn row_describes(t: Seq<WorkspaceModel>, p: NodePath, r: Row) -> bool {
    &&& r.path == p
    &&& r.kind == kind_of(p)
    &&& r.depth as int == depth_of(p)
    &&& r.label@ == node_label(t, p)
    &&& r.expandable == has_children(t, p)
    &&& r.expanded == is_expanded(t, p)
    &&& r.is_current == (current_pane(t) == Some(p))
    &&& r.pane_count as nat == node_pane_count(t, p)
    &&& opt_text(r.agent) == node_agent(t, p)
    &&& r.agent_status == node_status(t, p)
    &&& targets(r.focus_target, p, node_id(t, p))
}

/// `rows` are the rows of the nodes at `paths`, one for one.
pub open spec fn rows_of(t: Seq<WorkspaceModel>, paths: Seq<NodePath>, rows: Seq<Row>) -> bool {
    &&& rows.len() == paths.len()
    &&& forall|i: int| 0 <= i < rows.len() ==> row_describes(t, paths[i], #[trigger] rows[i])
}

#[derive(Debug)]
struct PaneNode {
    id: String,
    label: String,
    focused: bool,
    agent: Option<String>,
    status: AgentStatus,
}

#[derive(Debug)]
struct TabNode {
    id: String,
    label: String,
    focused: bool,
    pane_count: usize,
    status: AgentStatus,
    expanded: bool,
    panes: Vec<PaneNode>,
}

#[derive(Debug)]
struct WorkspaceNode {
    id: String,
    label: String,
    focused: bool,
    pane_count: usize,
    status: AgentStatus,
    expanded: bool,
    tabs: Vec<TabNode>,
}

impl View for PaneNode {
    type V = PaneModel;

    closed spec fn view(&self) -> PaneModel {
        PaneModel {
            id: self.id@,
            label: self.label@,
            focused: self.focused,
            agent: opt_text(self.agent),
            status: self.status,
        }
    }
}

impl View for TabNode {
    type V = TabModel;

    closed spec fn view(&self) -> TabModel {
        TabModel {
            id: self.id@,
            label: self.label@,
            focused: self.focused,
            pane_count: self.pane_count as nat,
            status: self.status,
            expanded: self.expanded,
            panes: self.panes@.map_values(|p: PaneNode| p@),
        }
    }
}

impl View for WorkspaceNode {
    type V = WorkspaceModel;

    closed spec fn view(&self) -> WorkspaceModel {
        WorkspaceModel {
            id: self.id@,
            label: self.label@,
            focused: self.focused,
            pane_count: self.pane_count as nat,
            status: self.status,
            expanded: self.expanded,
            tabs: self.tabs@.map_values(|k: TabNode| k@),
        }
    }
}

/// The session tree with the expansion state of every branch.
#[derive(Debug)]
pub struct Tree {
    workspaces: Vec<WorkspaceNode>,
}

impl View for Tree {
    type V = Seq<WorkspaceModel>;

    closed spec fn view(&self) -> Seq<WorkspaceModel> {
        self.workspaces@.map_values(|w: WorkspaceNode| w@)
    }
}

/// A copy of an optional string.
fn copy_opt(s: &Option<String>) -> (r: Option<String>)
    ensures
        opt_text(r) == opt_text(*s),
{
    match s {
        Some(x) => Some(x.clone()),
        None => None,
    }
}

/// The tab node for `info`, holding the panes listed under it.
fn build_tab(info: &TabInfo, panes: &Vec<PaneInfo>, wid: &String, expanded: bool) -> (n: TabNode)
    ensures
        n@ == tab_model(*info, panes@, wid@, expanded),
        n.panes@.len() <= panes@.len(),
{
    let mut nodes: Vec<PaneNode> = Vec::new();
    let mut before: usize = 0;
    let mut i: usize = 0;
    let ghost tid = info.tab_id@;
    while i < panes.len()
        invariant
            tid == info.tab_id@,
            i <= panes@.len(),
            before == workspace_panes_before(panes@, wid@, i as int),
            before <= i,
            nodes@.map_values(|p: PaneNode| p@) == pane_indices(panes@, tid, i as int).map_values(
                |j: int| pane_model(panes@, wid@, j),
            ),
            nodes@.len() <= i,
        decreases panes@.len() - i,
    {
        let p = &panes[i];
        let ghost prev = nodes@.map_values(|q: PaneNode| q@);
        if p.tab_id == info.tab_id {
            let label = match &p.label {
                Some(l) => l.clone(),
                None => {
                    let mut s = String::from_str("pane ");
                    let digits = decimal_string(before + 1);
                    s.append(digits.as_str());
                    s
                },
            };
            let node = PaneNode {
                id: p.pane_id.clone(),
                label,
                focused: p.focused,
                agent: copy_opt(&p.agent),
                status: p.agent_status,
            };
            assert(node@ == pane_model(panes@, wid@, i as int));
            nodes.push(node);
            assert(nodes@.map_values(|q: PaneNode| q@) =~= prev.push(node@));
        }
        assert(pane_indices(panes@, tid, i + 1).map_values(|j: int| pane_model(panes@, wid@, j))
            =~= nodes@.map_values(|q: PaneNode| q@));
        if p.workspace_id == *wid {
            before = before + 1;
        }
        i = i + 1;
    }
    let n = TabNode {
        id: info.tab_id.clone(),
        label: info.label.clone(),
        focused: info.focused,
        pane_count: info.pane_count,
        status: info.agent_status,
        expanded,
        panes: nodes,
    };
    assert(n@.panes =~= tab_model(*info, panes@, wid@, expanded).panes);
    n
}

impl Tree {
    /// Every index of the tree fits a `usize`.
    pub proof fn lemma_bounded(&self)
        ensures
            bounded(self@),
    {
        assert(self.workspaces@.len() == self.workspaces.len());
        assert forall|w: int| 0 <= w < self@.len() implies (#[trigger] self@[w]).tabs.len()
            <= usize::MAX by {
            assert(self.workspaces@[w].tabs@.len() == self.workspaces@[w].tabs.len());
        }
        assert forall|w: int, k: int|
            0 <= w < self@.len() && 0 <= k < self@[w].tabs.len() implies (
            #[trigger] self@[w].tabs[k]).panes.len() <= usize::MAX by {
            assert(self.workspaces@[w].tabs@[k].panes@.len()
                == self.workspaces@[w].tabs@[k].panes.len());
        }
    }

    /// The node one level up, if any.
    pub fn parent_path(&self, p: NodePath) -> (r: Option<NodePath>)
        ensures
            r == parent_of(p),
    {
        match p {
            NodePath::Workspace(_) => None,
            NodePath::Tab(w, _) => Some(NodePath::Workspace(w)),
            NodePath::Pane(w, k, _) => Some(NodePath::Tab(w, k)),
        }
    }

    /// Sets the expansion flag of the branch at `p`, which must exist.
    fn set_expanded(&mut self, p: NodePath, b: bool)
        requires
            path_valid(old(self)@, p),
        ensures
            final(self)@ == with_expanded(old(self)@, p, b),
    {
        match p {
            NodePath::Workspace(w) => {
                self.workspaces[w].expanded = b;
                assert(self@[w as int] == WorkspaceModel { expanded: b, ..old(self)@[w as int] });
                assert(self@ =~= with_expanded(old(self)@, p, b));
            },
            NodePath::Tab(w, k) => {
                self.workspaces[w].tabs[k].expanded = b;
                assert(self@[w as int].tabs =~= old(self)@[w as int].tabs.update(
                    k as int,
                    TabModel { expanded: b, ..old(self)@[w as int].tabs[k as int] },
                ));
                assert(self@ =~= with_expanded(old(self)@, p, b));
            },
            NodePath::Pane(..) => {},
        }
    }

    /// Whether `p` names a node of the tree.
    fn is_valid(&self, p: NodePath) -> (r: bool)
        ensures
            r == path_valid(self@, p),
    {
        match p {
            NodePath::Workspace(w) => w < self.workspaces.len(),
            NodePath::Tab(w, k) => w < self.workspaces.len() && k < self.workspaces[w].tabs.len(),
            NodePath::Pane(w, k, j) => w < self.workspaces.len() && k
                < self.workspaces[w].tabs.len() && j < self.workspaces[w].tabs[k].panes.len(),
        }
    }

    /// Whether the existing node `p` has children, and whether it is expanded.
    fn branch_state(&self, p: NodePath) -> (r: (bool, bool))
        requires
            path_valid(self@, p),
        ensures
            r == (has_children(self@, p), is_expanded(self@, p)),
    {
        match p {
            NodePath::Workspace(w) => (
                self.workspaces[w].tabs.len() > 0,
                self.workspaces[w].expanded,
            ),
            NodePath::Tab(w, k) => (
                self.workspaces[w].tabs[k].panes.len() > 0,
                self.workspaces[w].tabs[k].expanded,
            ),
            NodePath::Pane(..) => (false, false),
        }
    }

    /// Expands the branch at `p`; true when it was a collapsed branch with
    /// children, the only case that changes anything.
    pub fn expand(&mut self, p: NodePath) -> (changed: bool)
        ensures
            changed == (path_valid(old(self)@, p) && has_children(old(self)@, p) && !is_expanded(
                old(self)@,
                p,
            )),
            final(self)@ == if changed {
                with_expanded(old(self)@, p, true)
            } else {
                old(self)@
            },
    {
        if !self.is_valid(p) {
            return false;
        }
        let (children, expanded) = self.branch_state(p);
        if children && !expanded {
            self.set_expanded(p, true);
            true
        } else {
            false
        }
    }

    /// Collapses the branch at `p`; true when it was an expanded branch with
    /// children, the only case that changes anything.
    pub fn collapse(&mut self, p: NodePath) -> (changed: bool)
        ensures
            changed == (path_valid(old(self)@, p) && has_children(old(self)@, p) && is_expanded(
                old(self)@,
                p,
            )),
            final(self)@ == if changed {
                with_expanded(old(self)@, p, false)
            } else {
                old(self)@
            },
    {
        if !self.is_valid(p) {
            return false;
        }
        let (children, expanded) = self.branch_state(p);
        if children && expanded {
            self.set_expanded(p, false);
            true
        } else {
            false
        }
    }

    /// Flips the branch at `p`; true when it is a branch with children, the
    /// only case that changes anything.
    pub fn toggle(&mut self, p: NodePath) -> (changed: bool)
        ensures
            changed == (path_valid(old(self)@, p) && has_children(old(self)@, p)),
            final(self)@ == if changed {
                with_expanded(old(self)@, p, !is_expanded(old(self)@, p))
            } else {
                old(self)@
            },
    {
        if !self.is_valid(p) {
            return false;
        }
        let (children, expanded) = self.branch_state(p);
        if children {
            self.set_expanded(p, !expanded);
            true
        } else {
            false
        }
    }

    /// The first focused workspace.
    fn first_focused_workspace(&self) -> (r: Option<usize>)
        ensures
            match r {
                Some(w) => first_true(workspace_focus(self@)) == Some(w as int),
                None => first_true(workspace_focus(self@)) is None,
            },
    {
        let ghost f = workspace_focus(self@);
        let mut i: usize = 0;
        while i < self.workspaces.len()
            invariant
                f == workspace_focus(self@),
                f.len() == self.workspaces@.len(),
                i <= f.len(),
                forall|j: int| 0 <= j < i ==> !f[j],
            decreases f.len() - i,
        {
            assert(f[i as int] == self.workspaces@[i as int].focused);
            if self.workspaces[i].focused {
                proof {
                    lemma_first_true(f, i as int);
                }
                return Some(i);
            }
            i = i + 1;
        }
        proof {
            lemma_first_true(f, i as int);
        }
        None
    }

    /// The first focused tab of workspace `w`.
    fn first_focused_tab(&self, w: usize) -> (r: Option<usize>)
        requires
            w < self@.len(),
        ensures
            match r {
                Some(k) => first_true(tab_focus(self@[w as int])) == Some(k as int),
                None => first_true(tab_focus(self@[w as int])) is None,
            },
    {
        let ghost f = tab_focus(self@[w as int]);
        let tabs = &self.workspaces[w].tabs;
        let mut i: usize = 0;
        while i < tabs.len()
            invariant
                w < self@.len(),
                f == tab_focus(self@[w as int]),
                *tabs == self.workspaces@[w as int].tabs,
                f.len() == tabs@.len(),
                i <= f.len(),
                forall|j: int| 0 <= j < i ==> !f[j],
            decreases f.len() - i,
        {
            assert(f[i as int] == tabs@[i as int].focused);
            if tabs[i].focused {
                proof {
                    lemma_first_true(f, i as int);
                }
                return Some(i);
            }
            i = i + 1;
        }
        proof {
            lemma_first_true(f, i as int);
        }
        None
    }

    /// The first focused pane of tab `k` of workspace `w`.
    fn first_focused_pane(&self, w: usize, k: usize) -> (r: Option<usize>)
        requires
            w < self@.len(),
            k < self@[w as int].tabs.len(),
        ensures
            match r {
                Some(j) => first_true(pane_focus(self@[w as int].tabs[k as int])) == Some(j as int),
                None => first_true(pane_focus(self@[w as int].tabs[k as int])) is None,
            },
    {
        let ghost f = pane_focus(self@[w as int].tabs[k as int]);
        let panes = &self.workspaces[w].tabs[k].panes;
        let mut i: usize = 0;
        while i < panes.len()
            invariant
                w < self@.len(),
                k < self@[w as int].tabs.len(),
                f == pane_focus(self@[w as int].tabs[k as int]),
                *panes == self.workspaces@[w as int].tabs@[k as int].panes,
                f.len() == panes@.len(),
                i <= f.len(),
                forall|j: int| 0 <= j < i ==> !f[j],
            decreases f.len() - i,
        {
            assert(f[i as int] == panes@[i as int].focused);
            if panes[i].focused {
                proof {
                    lemma_first_true(f, i as int);
                }
                return Some(i);
            }
            i = i + 1;
        }
        proof {
            lemma_first_true(f, i as int);
        }
        None
    }

    /// The pane the picker was opened from, if the session names one.
    fn current(&self) -> (r: Option<NodePath>)
        ensures
            r == current_pane(self@),
    {
        match self.first_focused_workspace() {
            None => None,
            Some(w) => {
                proof {
                    lemma_first_true_in_range(workspace_focus(self@));
                }
                match self.first_focused_tab(w) {
                    None => None,
                    Some(k) => {
                        proof {
                            lemma_first_true_in_range(tab_focus(self@[w as int]));
                        }
                        match self.first_focused_pane(w, k) {
                            None => None,
                            Some(j) => Some(NodePath::Pane(w, k, j)),
                        }
                    },
                }
            },
        }
    }

    /// The node the cursor starts on, if the session names a focused one.
    fn start_target(&self) -> (r: Option<NodePath>)
        ensures
            r == cursor_target(self@),
    {
        match self.first_focused_workspace() {
            None => None,
            Some(w) => {
                proof {
                    lemma_first_true_in_range(workspace_focus(self@));
                }
                if !self.workspaces[w].expanded {
                    return Some(NodePath::Workspace(w));
                }
                match self.first_focused_tab(w) {
                    None => Some(NodePath::Workspace(w)),
                    Some(k) => {
                        proof {
                            lemma_first_true_in_range(tab_focus(self@[w as int]));
                        }
                        if !self.workspaces[w].tabs[k].expanded {
                            return Some(NodePath::Tab(w, k));
                        }
                        match self.first_focused_pane(w, k) {
                            None => Some(NodePath::Tab(w, k)),
                            Some(j) => Some(NodePath::Pane(w, k, j)),
                        }
                    },
                }
            },
        }
    }

    /// The row of the existing node `p`.
    fn row_at(&self, p: NodePath, cur: Option<NodePath>) -> (r: Row)
        requires
            path_valid(self@, p),
            cur == current_pane(self@),
        ensures
            row_describes(self@, p, r),
    {
        let is_current = match cur {
            Some(c) => c == p,
            None => false,
        };
        match p {
            NodePath::Workspace(w) => {
                let n = &self.workspaces[w];
                Row {
                    kind: RowKind::Workspace,
                    path: p,
                    depth: 0,
                    label: n.label.clone(),
                    expandable: n.tabs.len() > 0,
                    expanded: n.expanded,
                    is_current,
                    pane_count: n.pane_count,
                    agent: None,
                    agent_status: n.status,
                    focus_target: FocusTarget::Workspace(n.id.clone()),
                }
            },
            NodePath::Tab(w, k) => {
                let n = &self.workspaces[w].tabs[k];
                Row {
                    kind: RowKind::Tab,
                    path: p,
                    depth: 1,
                    label: n.label.clone(),
                    expandable: n.panes.len() > 0,
                    expanded: n.expanded,
                    is_current,
                    pane_count: n.pane_count,
                    agent: None,
                    agent_status: n.status,
                    focus_target: FocusTarget::Tab(n.id.clone()),
                }
            },
            NodePath::Pane(w, k, j) => {
                let n = &self.workspaces[w].tabs[k].panes[j];
                Row {
                    kind: RowKind::Pane,
                    path: p,
                    depth: 2,
                    label: n.label.clone(),
                    expandable: false,
                    expanded: false,
                    is_current,
                    pane_count: 1,
                    agent: copy_opt(&n.agent),
                    agent_status: n.status,
                    focus_target: FocusTarget::Pane(n.id.clone()),
                }
            },
        }
    }

    /// The visible rows, in tree order: each workspace, then (if it is
    /// expanded) each of its tabs, each followed (if expanded) by its panes.
    pub fn visible_rows(&self) -> (rows: Vec<Row>)
        ensures
            rows_of(self@, visible_paths(self@), rows@),
    {
        proof {
            self.lemma_bounded();
        }
        let ghost t = self@;
        let cur = self.current();
        let mut rows: Vec<Row> = Vec::new();
        let mut w: usize = 0;
        while w < self.workspaces.len()
            invariant
                t == self@,
                bounded(t),
                cur == current_pane(t),
                w <= t.len(),
                rows_of(t, workspace_blocks(t, w as int), rows@),
            decreases t.len() - w,
        {
            let ghost done = workspace_blocks(t, w as int);
            let r = self.row_at(NodePath::Workspace(w), cur);
            rows.push(r);
            let ghost head = done + seq![NodePath::Workspace(w)];
            assert(rows_of(t, head, rows@)) by {
                assert forall|i: int| 0 <= i < rows@.len() implies row_describes(
                    t,
                    head[i],
                    #[trigger] rows@[i],
                ) by {
                    if i < done.len() {
                        assert(head[i] == done[i]);
                    }
                }
            }
            if self.workspaces[w].expanded {
                let ntabs = self.workspaces[w].tabs.len();
                let mut k: usize = 0;
                while k < ntabs
                    invariant
                        t == self@,
                        bounded(t),
                        cur == current_pane(t),
                        w < t.len(),
                        t[w as int].expanded,
                        ntabs == t[w as int].tabs.len(),
                        k <= ntabs,
                        head == workspace_blocks(t, w as int) + seq![NodePath::Workspace(w)],
                        rows_of(t, head + tab_blocks(t, w as int, k as int), rows@),
                    decreases ntabs - k,
                {
                    let ghost before = head + tab_blocks(t, w as int, k as int);
                    let r = self.row_at(NodePath::Tab(w, k), cur);
                    rows.push(r);
                    let ghost with_tab = before + seq![NodePath::Tab(w, k)];
                    assert(rows_of(t, with_tab, rows@)) by {
                        assert forall|i: int| 0 <= i < rows@.len() implies row_describes(
                            t,
                            with_tab[i],
                            #[trigger] rows@[i],
                        ) by {
                            if i < before.len() {
                                assert(with_tab[i] == before[i]);
                            }
                        }
                    }
                    if self.workspaces[w].tabs[k].expanded {
                        let npanes = self.workspaces[w].tabs[k].panes.len();
                        let mut j: usize = 0;
                        while j < npanes
                            invariant
                                t == self@,
                                bounded(t),
                                cur == current_pane(t),
                                w < t.len(),
                                k < t[w as int].tabs.len(),
                                npanes == t[w as int].tabs[k as int].panes.len(),
                                j <= npanes,
                                rows_of(
                                    t,
                                    with_tab + Seq::new(
                                        j as nat,
                                        |x: int| NodePath::Pane(w, k, x as usize),
                                    ),
                                    rows@,
                                ),
                            decreases npanes - j,
                        {
                            let ghost ps = with_tab + Seq::new(
                                j as nat,
                                |x: int| NodePath::Pane(w, k, x as usize),
                            );
                            let ghost ps2 = with_tab + Seq::new(
                                (j + 1) as nat,
                                |x: int| NodePath::Pane(w, k, x as usize),
                            );
                            assert(ps2 =~= ps.push(NodePath::Pane(w, k, j)));
                            let r = self.row_at(NodePath::Pane(w, k, j), cur);
                            rows.push(r);
                            assert forall|i: int| 0 <= i < rows@.len() implies row_describes(
                                t,
                                ps2[i],
                                #[trigger] rows@[i],
                            ) by {
                                if i < ps.len() {
                                    assert(ps2[i] == ps[i]);
                                }
                            }
                            j = j + 1;
                        }
                        assert(with_tab + Seq::new(
                            npanes as nat,
                            |x: int| NodePath::Pane(w, k, x as usize),
                        ) =~= head + tab_blocks(t, w as int, k + 1));
                    } else {
                        assert(with_tab =~= head + tab_blocks(t, w as int, k + 1));
                    }
                    k = k + 1;
                }
                assert(head + tab_blocks(t, w as int, ntabs as int) =~= workspace_blocks(
                    t,
                    w + 1,
                ));
            } else {
                assert(head =~= workspace_blocks(t, w + 1));
            }
            w = w + 1;
        }
        rows
    }

    /// The row the cursor starts on: the deepest visible node of the focused
    /// chain (the current pane when its branches are expanded), or the first
    /// row when the session names no focused workspace.
    pub fn initial_cursor(&self) -> (r: usize)
        ensures
            match cursor_target(self@) {
                Some(p) => r < visible_paths(self@).len() && visible_paths(self@)[r as int] == p,
                None => r == 0,
            },
    {
        proof {
            self.lemma_bounded();
            lemma_cursor_target_visible(self@);
            lemma_visible_paths(self@);
        }
        match self.start_target() {
            None => 0,
            Some(p) => {
                let rows = self.visible_rows();
                let ghost vp = visible_paths(self@);
                let mut i: usize = 0;
                while i < rows.len()
                    invariant
                        vp == visible_paths(self@),
                        cursor_target(self@) == Some(p),
                        rows_of(self@, vp, rows@),
                        vp.contains(p),
                        i <= rows@.len(),
                        forall|j: int| 0 <= j < i ==> vp[j] != p,
                    decreases rows@.len() - i,
                {
                    assert(row_describes(self@, vp[i as int], rows@[i as int]));
                    let here = rows[i].path;
                    if here == p {
                        assert(here == rows@[i as int].path);
                        assert(vp[i as int] == p);
                        return i;
                    }
                    i = i + 1;
                }
                0
            },
        }
    }

    /// Builds the tree from the session's lists: workspaces in the order
    /// given, each tab under the workspace it names, each pane under the tab
    /// it names. Every branch starts expanded or collapsed as `initial` says.
    pub fn build(
        workspaces: Vec<WorkspaceInfo>,
        tabs: Vec<TabInfo>,
        panes: Vec<PaneInfo>,
        initial: InitialExpansion,
    ) -> (t: Tree)
        ensures
            t@ == built_tree(workspaces@, tabs@, panes@, initial),
    {
        let expanded = match initial {
            InitialExpansion::All => true,
            InitialExpansion::Collapsed => false,
        };
        let mut nodes: Vec<WorkspaceNode> = Vec::new();
        let mut w: usize = 0;
        while w < workspaces.len()
            invariant
                expanded == (initial == InitialExpansion::All),
                w <= workspaces@.len(),
                nodes@.map_values(|n: WorkspaceNode| n@) == workspaces@.take(w as int).map_values(
                    |x: WorkspaceInfo| workspace_model(x, tabs@, panes@, expanded),
                ),
            decreases workspaces@.len() - w,
        {
            let info = &workspaces[w];
            let ghost wid = info.workspace_id@;
            let mut tab_nodes: Vec<TabNode> = Vec::new();
            let mut i: usize = 0;
            while i < tabs.len()
                invariant
                    wid == info.workspace_id@,
                    i <= tabs@.len(),
                    tab_nodes@.map_values(|k: TabNode| k@) == tab_indices(
                        tabs@,
                        wid,
                        i as int,
                    ).map_values(|j: int| tab_model(tabs@[j], panes@, wid, expanded)),
                decreases tabs@.len() - i,
            {
                let ghost prev = tab_nodes@.map_values(|k: TabNode| k@);
                if tabs[i].workspace_id == info.workspace_id {
                    let node = build_tab(&tabs[i], &panes, &info.workspace_id, expanded);
                    tab_nodes.push(node);
                    assert(tab_nodes@.map_values(|k: TabNode| k@) =~= prev.push(node@));
                }
                assert(tab_indices(tabs@, wid, i + 1).map_values(
                    |j: int| tab_model(tabs@[j], panes@, wid, expanded),
                ) =~= tab_nodes@.map_values(|k: TabNode| k@));
                i = i + 1;
            }
            let node = WorkspaceNode {
                id: info.workspace_id.clone(),
                label: info.label.clone(),
                focused: info.focused,
                pane_count: info.pane_count,
                status: info.agent_status,
                expanded,
                tabs: tab_nodes,
            };
            let ghost prev = nodes@.map_values(|n: WorkspaceNode| n@);
            assert(node@.tabs =~= workspace_model(*info, tabs@, panes@, expanded).tabs);
            nodes.push(node);
            assert(nodes@.map_values(|n: WorkspaceNode| n@) =~= prev.push(node@));
            assert(workspaces@.take(w + 1).map_values(
                |x: WorkspaceInfo| workspace_model(x, tabs@, panes@, expanded),
            ) =~= prev.push(workspace_model(*info, tabs@, panes@, expanded)));
            w = w + 1;
        }
        let t = Tree { workspaces: nodes };
        assert(workspaces@.take(workspaces@.len() as int) =~= workspaces@);
        assert(t@ =~= built_tree(workspaces@, tabs@, panes@, initial));
        t
    }
}

/// The panes the session lists for workspace `wid`.
pub open spec fn in_workspace(wid: Seq<char>) -> spec_fn(PaneInfo) -> bool {
    |q: PaneInfo| q.workspace_id@ == wid
}

/// The indices of the panes listed under a tab are in range, increasing,
/// and name panes of that tab.
proof fn lemma_pane_indices(panes: Seq<PaneInfo>, tid: Seq<char>, n: int)
    requires
        0 <= n <= panes.len(),
    ensures
        forall|x: int|
            0 <= x < pane_indices(panes, tid, n).len() ==> 0 <= #[trigger] pane_indices(
                panes,
                tid,
                n,
            )[x] < n && panes[pane_indices(panes, tid, n)[x]].tab_id@ == tid,
    decreases n,
{
    if n > 0 {
        lemma_pane_indices(panes, tid, n - 1);
    }
}

/// The indices of the tabs listed under a workspace are in range and name
/// tabs of that workspace.
proof fn lemma_tab_indices(tabs: Seq<TabInfo>, wid: Seq<char>, n: int)
    requires
        0 <= n <= tabs.len(),
    ensures
        forall|x: int|
            0 <= x < tab_indices(tabs, wid, n).len() ==> 0 <= #[trigger] tab_indices(tabs, wid, n)[x]
                < n && tabs[tab_indices(tabs, wid, n)[x]].workspace_id@ == wid,
    decreases n,
{
    if n > 0 {
        lemma_tab_indices(tabs, wid, n - 1);
    }
}

/// Counting the first `n` panes of a workspace is filtering them.
proof fn lemma_workspace_panes_before(panes: Seq<PaneInfo>, wid: Seq<char>, n: int)
    requires
        0 <= n <= panes.len(),
    ensures
        workspace_panes_before(panes, wid, n) == panes.take(n).filter(in_workspace(wid)).len(),
    decreases n,
{
    reveal(Seq::filter);
    if n > 0 {
        lemma_workspace_panes_before(panes, wid, n - 1);
        assert(panes.take(n).drop_last() =~= panes.take(n - 1));
        assert(panes.take(n).last() == panes[n - 1]);
    } else {
        assert(panes.take(n) =~= Seq::<PaneInfo>::empty());
    }
}

/// Each pane of the built tree comes from a pane the session lists under
/// its tab; an unlabelled pane is called `pane N`, N its 1-based position
/// among the panes the session lists for the pane's workspace, so panes of
/// other workspaces do not count. A labelled pane keeps its label.
pub proof fn law_unlabelled_panes_are_numbered_within_their_workspace(
    workspaces: Seq<WorkspaceInfo>,
    tabs: Seq<TabInfo>,
    panes: Seq<PaneInfo>,
    initial: InitialExpansion,
    w: int,
    k: int,
    j: int,
)
    requires
        ({
            let t = built_tree(workspaces, tabs, panes, initial);
            0 <= w < t.len() && 0 <= k < t[w].tabs.len() && 0 <= j < t[w].tabs[k].panes.len()
        }),
    ensures
        ({
            let t = built_tree(workspaces, tabs, panes, initial);
            let node = t[w].tabs[k].panes[j];
            exists|i: int|
                0 <= i < panes.len() && #[trigger] panes[i].pane_id@ == node.id && panes[i].tab_id@
                    == t[w].tabs[k].id && (panes[i].label is None ==> node.label == "pane "@
                    + decimal(
                    panes.take(i).filter(in_workspace(workspaces[w].workspace_id@)).len() + 1,
                )) && (panes[i].label matches Some(l) ==> node.label == l@)
        }),
{
    let t = built_tree(workspaces, tabs, panes, initial);
    let e = initial == InitialExpansion::All;
    let wid = workspaces[w].workspace_id@;
    assert(t[w] == workspace_model(workspaces[w], tabs, panes, e));
    let tis = tab_indices(tabs, wid, tabs.len() as int);
    lemma_tab_indices(tabs, wid, tabs.len() as int);
    let ti = tis[k];
    assert(t[w].tabs[k] == tab_model(tabs[ti], panes, wid, e));
    let tid = tabs[ti].tab_id@;
    let pis = pane_indices(panes, tid, panes.len() as int);
    lemma_pane_indices(panes, tid, panes.len() as int);
    let i = pis[j];
    assert(t[w].tabs[k].panes[j] == pane_model(panes, wid, i));
    lemma_workspace_panes_before(panes, wid, i);
    assert(panes[i].pane_id@ == t[w].tabs[k].panes[j].id);
}

/// The cursor starts on the focused chain: on nothing only when no
/// workspace is focused; otherwise on the first focused workspace, or
/// deeper on its focused tab and that tab's focused pane as far as they are
/// expanded and focused.
pub proof fn law_cursor_starts_on_the_focused_chain(t: Seq<WorkspaceModel>)
    requires
        bounded(t),
    ensures
        cursor_target(t) is None <==> forall|w: int| 0 <= w < t.len() ==> !(#[trigger] t[w]).focused,
        cursor_target(t) matches Some(p) ==> {
            let w = ws_of(p);
            &&& 0 <= w < t.len() && t[w].focused
            &&& forall|v: int| 0 <= v < w ==> !(#[trigger] t[v]).focused
            &&& p is Workspace ==> !t[w].expanded || forall|k: int|
                0 <= k < t[w].tabs.len() ==> !(#[trigger] t[w].tabs[k]).focused
            &&& !(p is Workspace) ==> t[w].expanded && t[w].tabs[tab_of(p)].focused
            &&& p is Tab ==> !t[w].tabs[tab_of(p)].expanded || forall|j: int|
                0 <= j < t[w].tabs[tab_of(p)].panes.len() ==> !(
                #[trigger] t[w].tabs[tab_of(p)].panes[j]).focused
            &&& p matches NodePath::Pane(_, k, j) ==> t[w].tabs[k as int].expanded
                && t[w].tabs[k as int].panes[j as int].focused
        },
{
    let wf = workspace_focus(t);
    lemma_first_true_in_range(wf);
    lemma_first_true_exact(wf);
    if let Some(w) = first_true(wf) {
        assert(wf[w] == t[w].focused);
        assert forall|v: int| 0 <= v < w implies !(#[trigger] t[v]).focused by {
            assert(wf[v] == t[v].focused);
        }
        let tf = tab_focus(t[w]);
        assert(t[w].tabs.len() <= usize::MAX);
        lemma_first_true_in_range(tf);
        lemma_first_true_exact(tf);
        assert forall|k: int| 0 <= k < t[w].tabs.len() implies tf[k] == (#[trigger] t[w].tabs[k]).focused by {}
        if let Some(k) = first_true(tf) {
            let pf = pane_focus(t[w].tabs[k]);
            assert(t[w].tabs[k].panes.len() <= usize::MAX);
            lemma_first_true_in_range(pf);
            lemma_first_true_exact(pf);
            assert forall|j: int| 0 <= j < t[w].tabs[k].panes.len() implies pf[j] == (
            #[trigger] t[w].tabs[k].panes[j]).focused by {}
        }
    } else {
        assert forall|w: int| 0 <= w < t.len() implies !(#[trigger] t[w]).focused by {
            assert(wf[w] == t[w].focused);
        }
    }
}

/// `first_true` finds nothing only when no flag is set, and what it finds
/// has no set flag before it.
proof fn lemma_first_true_exact(s: Seq<bool>)
    ensures
        first_true(s) is None ==> forall|i: int| 0 <= i < s.len() ==> !s[i],
        first_true(s) matches Some(i) ==> forall|j: int| 0 <= j < i ==> !s[j],
    decreases s.len(),
{
    lemma_first_true_in_range(s);
    if s.len() > 0 && !s[0] {
        lemma_first_true_exact(s.drop_first());
        if let Some(i) = first_true(s) {
            assert forall|j: int| 0 <= j < i implies !s[j] by {
                if j > 0 {
                    assert(s[j] == s.drop_first()[j - 1]);
                }
            }
        } else {
            assert forall|j: int| 0 <= j < s.len() implies !s[j] by {
                if j > 0 {
                    assert(s[j] == s.drop_first()[j - 1]);
                }
            }
        }
    }
}

} // verus!
