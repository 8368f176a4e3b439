use herdr_configurable_picker::app::{App, EnterOnBranch};
use herdr_configurable_picker::config::KeysConfig;
use herdr_configurable_picker::keymap::{Action, Keymap};
use herdr_configurable_picker::tree::{
    AgentStatus, FocusTarget, InitialExpansion, NodePath, PaneInfo, Row, RowKind, TabInfo, Tree,
    WorkspaceInfo,
};
use herdr_configurable_picker::ui::{popup_rect, row_text, status_label, FooterHints, Rect};

fn default_hints() -> FooterHints {
    let (keymap, _) = Keymap::from_bindings(&KeysConfig::default().to_bindings());
    FooterHints::from_keymap(&keymap)
}

#[test]
fn default_footer_line() {
    assert_eq!(
        default_hints().line(),
        "↑/↓ move   → expand   ← collapse   enter accept   esc cancel"
    );
}

#[test]
fn footer_entries_reflect_the_actual_keymap() {
    let (keymap, warnings) = Keymap::from_bindings(&[
        (Action::Down, vec!["ctrl+j".to_string()]),
        (Action::Up, vec!["ctrl+k".to_string()]),
        (Action::Expand, vec!["tab".to_string()]),
        (Action::Accept, vec!["ctrl+m".to_string()]),
        (Action::Cancel, vec!["q".to_string()]),
    ]);
    assert!(warnings.is_empty());
    let hints = FooterHints::from_keymap(&keymap);
    let line = hints.line();
    assert!(line.contains("C-k/C-j move"), "{line}");
    assert!(line.contains("tab expand"), "{line}");
    assert!(line.contains("q cancel"), "{line}");
    assert!(!line.contains("collapse"), "unbound actions stay out of the footer: {line}");
    assert_eq!(hints.entries.len(), 4);

    let (down_only, _) = Keymap::from_bindings(&[(Action::Down, vec!["j".to_string()])]);
    assert_eq!(FooterHints::from_keymap(&down_only).line(), "j move");
}

fn row(kind: RowKind, depth: u8, label: &str) -> Row {
    Row {
        kind,
        path: NodePath::Workspace(0),
        depth,
        label: label.to_string(),
        expandable: kind != RowKind::Pane,
        expanded: true,
        is_current: false,
        pane_count: 2,
        agent: None,
        agent_status: AgentStatus::Working,
        focus_target: FocusTarget::Workspace("w1".to_string()),
    }
}

#[test]
fn row_text_pads_the_right_column_to_the_width() {
    let text = row_text(&row(RowKind::Tab, 1, "main"), 30);
    assert_eq!(text, "    ▼ main    2 panes  working");
    assert_eq!(text.chars().count(), 30);
}

#[test]
fn row_text_marks_the_current_pane_and_shows_its_agent() {
    let mut r = row(RowKind::Pane, 2, "pane 1");
    r.is_current = true;
    r.agent = Some("pilot".to_string());
    r.agent_status = AgentStatus::Idle;
    assert_eq!(row_text(&r, 24), "→     pane 1");
    assert_eq!(row_text(&r, 26), "→     pane 1   pilot  idle");
    r.agent = None;
    assert!(row_text(&r, 40).ends_with("shell  idle"));
}

#[test]
fn narrow_rows_drop_the_right_column_and_cut_the_label() {
    let r = row(RowKind::Workspace, 0, "mothership");
    assert_eq!(row_text(&r, 16), "  ▼ mothership");
    assert_eq!(row_text(&r, 6), "  ▼ mo");
    assert_eq!(row_text(&r, 0), "");
    let mut leaf = row(RowKind::Workspace, 0, "empty");
    leaf.expandable = false;
    leaf.pane_count = 1;
    assert_eq!(row_text(&leaf, 30), "  · empty      1 pane  working");
}

#[test]
fn status_words() {
    assert_eq!(status_label(AgentStatus::Blocked), "blocked");
    assert_eq!(status_label(AgentStatus::Done), "done");
    assert_eq!(status_label(AgentStatus::Unknown), "unknown");
}

#[test]
fn popup_is_centered_with_builtin_goto_margins() {
    let area = Rect { x: 0, y: 0, width: 80, height: 24 };
    assert_eq!(popup_rect(area), Rect { x: 5, y: 2, width: 70, height: 20 });
    let small = Rect { x: 0, y: 0, width: 20, height: 6 };
    assert_eq!(popup_rect(small), Rect { x: 2, y: 1, width: 16, height: 4 });
    let tiny = Rect { x: 3, y: 0, width: 5, height: 3 };
    assert_eq!(popup_rect(tiny), Rect { x: 5, y: 1, width: 3, height: 2 });
}

#[test]
fn rows_of_the_sample_tree_render_like_the_picker() {
    let tree = Tree::build(
        vec![WorkspaceInfo {
            workspace_id: "w1".to_string(),
            number: 1,
            label: "mothership".to_string(),
            focused: true,
            pane_count: 2,
            tab_count: 1,
            active_tab_id: "w1:t1".to_string(),
            agent_status: AgentStatus::Unknown,
        }],
        vec![TabInfo {
            tab_id: "w1:t1".to_string(),
            workspace_id: "w1".to_string(),
            number: 1,
            label: "main".to_string(),
            focused: true,
            pane_count: 2,
            agent_status: AgentStatus::Working,
        }],
        vec![
            PaneInfo {
                pane_id: "w1:p1".to_string(),
                tab_id: "w1:t1".to_string(),
                workspace_id: "w1".to_string(),
                focused: true,
                agent: Some("pilot".to_string()),
                display_agent: None,
                agent_status: AgentStatus::Idle,
                cwd: None,
                label: None,
                title: None,
                terminal_id: "term_w1:p1".to_string(),
            },
            PaneInfo {
                pane_id: "w1:p2".to_string(),
                tab_id: "w1:t1".to_string(),
                workspace_id: "w1".to_string(),
                focused: false,
                agent: None,
                display_agent: None,
                agent_status: AgentStatus::Idle,
                cwd: None,
                label: None,
                title: None,
                terminal_id: "term_w1:p2".to_string(),
            },
        ],
        InitialExpansion::All,
    );
    let app = App::new(tree, EnterOnBranch::Jump);
    let lines: Vec<String> = app.rows().iter().map(|r| row_text(r, 60)).collect();
    assert!(lines[0].contains("▼ mothership"), "{lines:?}");
    assert!(lines[1].contains("  ▼ main") && lines[1].contains("2 panes  working"), "{lines:?}");
    assert!(lines[2].starts_with("→") && lines[2].contains("    pane 1"), "{lines:?}");
    assert!(lines[2].ends_with("pilot  idle"), "{lines:?}");
    assert!(!lines[3].contains("→") && lines[3].ends_with("shell  idle"), "{lines:?}");
}
