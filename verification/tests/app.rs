use herdr_configurable_picker::app::{App, EnterOnBranch, Outcome};
use herdr_configurable_picker::config::KeysConfig;
use herdr_configurable_picker::keymap::{parse_key_spec, Action, Keymap};
use herdr_configurable_picker::tree::{
    AgentStatus, FocusTarget, InitialExpansion, PaneInfo, TabInfo, Tree, WorkspaceInfo,
};

fn workspace(id: &str, number: usize, label: &str, focused: bool) -> WorkspaceInfo {
    WorkspaceInfo {
        workspace_id: id.to_string(),
        number,
        label: label.to_string(),
        focused,
        pane_count: 0,
        tab_count: 0,
        active_tab_id: String::new(),
        agent_status: AgentStatus::Unknown,
    }
}

fn tab(id: &str, ws_id: &str, number: usize, label: &str, focused: bool) -> TabInfo {
    TabInfo {
        tab_id: id.to_string(),
        workspace_id: ws_id.to_string(),
        number,
        label: label.to_string(),
        focused,
        pane_count: 1,
        agent_status: AgentStatus::Idle,
    }
}

fn pane(id: &str, tab_id: &str, ws_id: &str, focused: bool) -> PaneInfo {
    PaneInfo {
        pane_id: id.to_string(),
        tab_id: tab_id.to_string(),
        workspace_id: ws_id.to_string(),
        focused,
        agent: None,
        display_agent: None,
        agent_status: AgentStatus::Idle,
        cwd: None,
        label: None,
        title: None,
        terminal_id: format!("term_{id}"),
    }
}

/// Rows with All expansion:
/// 0 alpha / 1 a-one / 2 pane 1(focused) / 3 a-two / 4 pane 2 / 5 beta / 6 b-one / 7 pane 1
fn tree(initial: InitialExpansion) -> Tree {
    Tree::build(
        vec![
            workspace("w1", 1, "alpha", true),
            workspace("w2", 2, "beta", false),
        ],
        vec![
            tab("w1:t1", "w1", 1, "a-one", true),
            tab("w1:t2", "w1", 2, "a-two", false),
            tab("w2:t1", "w2", 1, "b-one", true),
        ],
        vec![
            pane("w1:p1", "w1:t1", "w1", true),
            pane("w1:p2", "w1:t2", "w1", false),
            pane("w2:p1", "w2:t1", "w2", false),
        ],
        initial,
    )
}

fn app() -> App {
    let mut app = App::new(tree(InitialExpansion::All), EnterOnBranch::Jump);
    app.viewport_height = 3;
    app
}

fn default_keymap() -> Keymap {
    let (keymap, warnings) = Keymap::from_bindings(&KeysConfig::default().to_bindings());
    assert!(warnings.is_empty(), "default config must be warning-free");
    keymap
}

fn press(app: &mut App, keymap: &Keymap, spec: &str) -> Outcome {
    let keys = parse_key_spec(spec).unwrap();
    let mut outcome = Outcome::Continue;
    for key in keys.0 {
        outcome = app.handle_key(keymap, key);
    }
    outcome
}

fn cursor_label(app: &App) -> &str {
    &app.rows()[app.cursor].label
}

#[test]
fn cursor_starts_on_the_current_row() {
    let app = app();
    assert_eq!(cursor_label(&app), "pane 1");
    assert_eq!(app.cursor, 2);
}

#[test]
fn movement_moves_over_visible_rows_and_clamps() {
    let keymap = default_keymap();
    let mut app = app();

    press(&mut app, &keymap, "home");
    assert_eq!(app.cursor, 0);
    press(&mut app, &keymap, "up");
    assert_eq!(app.cursor, 0, "up clamps at the top");
    press(&mut app, &keymap, "j");
    press(&mut app, &keymap, "ctrl+n");
    assert_eq!(app.cursor, 2);
    press(&mut app, &keymap, "shift+g");
    assert_eq!(app.cursor, 7, "bottom hits the last visible row");
    press(&mut app, &keymap, "down");
    assert_eq!(app.cursor, 7, "down clamps at the bottom");
    press(&mut app, &keymap, "ctrl+u");
    assert_eq!(app.cursor, 4, "page up moves by viewport height");
}

#[test]
fn collapse_hides_the_subtree_and_keeps_cursor_on_the_branch() {
    let keymap = default_keymap();
    let mut app = app();

    press(&mut app, &keymap, "home");
    assert_eq!(cursor_label(&app), "alpha");
    press(&mut app, &keymap, "h");
    assert_eq!(cursor_label(&app), "alpha", "cursor stays on the branch");
    // alpha, beta, b-one, pane 1 — alpha's own subtree is hidden.
    assert_eq!(app.rows().len(), 4);
}

#[test]
fn collapse_on_a_leaf_walks_up_to_the_parent() {
    let keymap = default_keymap();
    let mut app = app(); // cursor on "pane 1"

    press(&mut app, &keymap, "h");
    assert_eq!(cursor_label(&app), "a-one", "pane -> its tab");
    press(&mut app, &keymap, "h"); // collapses a-one (it is expanded)
    assert_eq!(cursor_label(&app), "a-one");
    press(&mut app, &keymap, "h"); // now collapsed -> walks up
    assert_eq!(cursor_label(&app), "alpha");
}

#[test]
fn expand_opens_a_collapsed_branch_in_place() {
    let keymap = default_keymap();
    let mut app = App::new(tree(InitialExpansion::Collapsed), EnterOnBranch::Jump);

    assert_eq!(app.rows().len(), 2);
    press(&mut app, &keymap, "l");
    assert_eq!(cursor_label(&app), "alpha", "cursor stays put");
    assert_eq!(app.rows().len(), 4, "alpha's tabs appeared");
    press(&mut app, &keymap, "l");
    assert_eq!(app.rows().len(), 4, "expanding again is a no-op");
}

#[test]
fn toggle_flips_the_branch() {
    let keymap = default_keymap();
    let mut app = app();

    press(&mut app, &keymap, "home");
    press(&mut app, &keymap, "space");
    assert_eq!(app.rows().len(), 4);
    press(&mut app, &keymap, "space");
    assert_eq!(app.rows().len(), 8);
}

#[test]
fn accept_on_a_pane_focuses_the_pane() {
    let keymap = default_keymap();
    let mut app = app();

    assert_eq!(
        press(&mut app, &keymap, "enter"),
        Outcome::Focus(FocusTarget::Pane("w1:p1".to_string()))
    );
}

#[test]
fn accept_on_branches_jumps_when_configured_to_jump() {
    let keymap = default_keymap();
    let mut app = app();

    press(&mut app, &keymap, "home");
    assert_eq!(
        press(&mut app, &keymap, "enter"),
        Outcome::Focus(FocusTarget::Workspace("w1".to_string()))
    );
    press(&mut app, &keymap, "j");
    assert_eq!(
        press(&mut app, &keymap, "enter"),
        Outcome::Focus(FocusTarget::Tab("w1:t1".to_string()))
    );
}

#[test]
fn accept_on_branches_toggles_when_configured_to_expand() {
    let keymap = default_keymap();
    let mut app = App::new(tree(InitialExpansion::All), EnterOnBranch::Expand);

    press(&mut app, &keymap, "home");
    assert_eq!(press(&mut app, &keymap, "enter"), Outcome::Continue);
    assert_eq!(app.rows().len(), 4, "enter collapsed the workspace");

    // Panes still jump.
    press(&mut app, &keymap, "space"); // reopen
    let mut app2 = App::new(tree(InitialExpansion::All), EnterOnBranch::Expand);
    assert_eq!(
        press(&mut app2, &keymap, "enter"),
        Outcome::Focus(FocusTarget::Pane("w1:p1".to_string()))
    );
}

#[test]
fn cancel_and_empty_tree_behave_like_m1() {
    let keymap = default_keymap();
    let mut app = app();
    assert_eq!(press(&mut app, &keymap, "esc"), Outcome::Cancel);

    let mut empty = App::new(
        Tree::build(vec![], vec![], vec![], InitialExpansion::All),
        EnterOnBranch::Jump,
    );
    assert_eq!(press(&mut empty, &keymap, "x"), Outcome::Cancel);
}

#[test]
fn enter_on_branch_parses_known_values_only() {
    assert_eq!(EnterOnBranch::parse("jump"), Some(EnterOnBranch::Jump));
    assert_eq!(EnterOnBranch::parse("expand"), Some(EnterOnBranch::Expand));
    assert_eq!(EnterOnBranch::parse("teleport"), None);
}

#[test]
fn chord_waits_then_fires_and_a_failed_chord_swallows_the_key() {
    let keymap = default_keymap();
    let mut app = app();

    let g = parse_key_spec("g").unwrap().0[0];
    assert_eq!(app.handle_key(&keymap, g), Outcome::Continue);
    assert_eq!(app.pending.len(), 1, "g waits for the second g");
    assert_eq!(app.cursor, 2);
    assert_eq!(app.handle_key(&keymap, g), Outcome::Continue);
    assert!(app.pending.is_empty());
    assert_eq!(app.cursor, 0, "g g goes to the top");

    press(&mut app, &keymap, "j");
    let x = parse_key_spec("x").unwrap().0[0];
    app.handle_key(&keymap, g);
    assert_eq!(app.handle_key(&keymap, x), Outcome::Continue);
    assert!(app.pending.is_empty(), "the failed chord is dropped");
    assert_eq!(app.cursor, 1, "and the key does nothing else");
}

#[test]
fn page_down_moves_by_viewport_height_and_clamps() {
    let keymap = default_keymap();
    let mut app = app();

    press(&mut app, &keymap, "home");
    press(&mut app, &keymap, "ctrl+d");
    assert_eq!(app.cursor, 3);
    press(&mut app, &keymap, "ctrl+d");
    assert_eq!(app.cursor, 6);
    press(&mut app, &keymap, "ctrl+d");
    assert_eq!(app.cursor, 7);
    app.viewport_height = 0;
    press(&mut app, &keymap, "pageup");
    assert_eq!(app.cursor, 6, "a zero-height viewport pages by one row");
}

#[test]
fn toggling_twice_and_expand_then_collapse_restore_the_rows() {
    let keymap = default_keymap();
    let mut app = app();
    let before: Vec<String> = app.rows().iter().map(|r| r.label.clone()).collect();

    press(&mut app, &keymap, "home");
    press(&mut app, &keymap, "space");
    press(&mut app, &keymap, "space");
    let after: Vec<String> = app.rows().iter().map(|r| r.label.clone()).collect();
    assert_eq!(before, after);
    assert_eq!(app.cursor, 0);

    let mut collapsed = App::new(tree(InitialExpansion::Collapsed), EnterOnBranch::Jump);
    press(&mut collapsed, &keymap, "l");
    press(&mut collapsed, &keymap, "h");
    assert_eq!(collapsed.rows().len(), 2);
    assert_eq!(collapsed.cursor, 0);
}

#[test]
fn applying_expand_twice_changes_nothing_the_second_time() {
    let mut app = App::new(tree(InitialExpansion::Collapsed), EnterOnBranch::Jump);
    assert_eq!(app.apply(Action::Expand), Outcome::Continue);
    let labels: Vec<String> = app.rows().iter().map(|r| r.label.clone()).collect();
    let cursor = app.cursor;
    assert_eq!(labels, vec!["alpha", "a-one", "a-two", "beta"]);
    assert_eq!(app.apply(Action::Expand), Outcome::Continue);
    let again: Vec<String> = app.rows().iter().map(|r| r.label.clone()).collect();
    assert_eq!(again, labels);
    assert_eq!(app.cursor, cursor);
}
