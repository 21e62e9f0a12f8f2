use cad_widgets::feedback::StatusBar;
use cad_widgets::messages::push_message;
use cad_widgets::panels::{pin_label, PanelHeader, PanelHeaderAction, PanelHeaderResponse, PropertyGridResponse};
use cad_widgets::shell::{
    tool_for_action, ShellBandState, ShellLayoutState, ShellPanelState, Toolbar, ToolbarAction, ToolbarResponse,
};
use cad_widgets::trees::{TreeNode, TreeRowInput, TreeViewResponse, TreeViewState};

fn no_input() -> TreeRowInput {
    TreeRowInput {
        toggle_clicked: false,
        clicked: false,
        additive: false,
        range: false,
        double_clicked: false,
        secondary_clicked: false,
    }
}

#[test]
fn tree_state_toggles() {
    let mut state = TreeViewState::default();
    assert!(!state.is_expanded("a"));
    state.toggle_expanded("a");
    assert!(state.is_expanded("a"));
    state.toggle_expanded("a");
    assert!(!state.is_expanded("a"));
    state.toggle_selected("x");
    state.toggle_selected("y");
    assert!(state.is_selected("x") && state.is_selected("y"));
    assert_eq!(state.active.as_deref(), Some("y"));
    state.toggle_selected("x");
    assert!(!state.is_selected("x"));
    assert_eq!(state.active.as_deref(), Some("x"));
    state.select_single("z");
    assert_eq!(state.selected, vec!["z".to_string()]);
    assert_eq!(state.active.as_deref(), Some("z"));
}

#[test]
fn tree_row_clicks() {
    let mut state = TreeViewState::default();
    let mut response = TreeViewResponse::default();
    let rows: Vec<String> = vec![];
    state.handle_row_input(&rows, "n", true, TreeRowInput { toggle_clicked: true, ..no_input() }, &mut response);
    assert!(state.is_expanded("n"));
    assert!(response.clicked.is_none());
    state.handle_row_input(&rows, "n", true, TreeRowInput { clicked: true, double_clicked: true, ..no_input() }, &mut response);
    assert!(!state.is_expanded("n"));
    assert_eq!(response.clicked.as_deref(), Some("n"));
    assert_eq!(state.selected, vec!["n".to_string()]);
    state.handle_row_input(&rows, "m", false, TreeRowInput { clicked: true, additive: true, double_clicked: true, ..no_input() }, &mut response);
    assert!(state.is_selected("n") && state.is_selected("m"));
    assert!(!state.is_expanded("m"));
    state.handle_row_input(&rows, "k", false, TreeRowInput { secondary_clicked: true, ..no_input() }, &mut response);
    assert_eq!(state.selected, vec!["k".to_string()]);
    assert_eq!(response.context_requested.as_deref(), Some("k"));
    state.toggle_selected("m");
    state.handle_row_input(&rows, "m", false, TreeRowInput { secondary_clicked: true, ..no_input() }, &mut response);
    assert!(state.is_selected("k") && state.is_selected("m"));
}

#[test]
fn tree_nodes() {
    let leaf = TreeNode::leaf("l", "Leaf").icon("*").detail("d");
    assert_eq!(leaf.row_text(), "* Leaf");
    assert_eq!(leaf.detail, Some("d"));
    let branch = TreeNode::branch("b", "Branch", vec![leaf.clone(), TreeNode::leaf("m", "M")]);
    assert_eq!(branch.row_text(), "Branch");
    assert_eq!(branch.children.len(), 2);
    assert_eq!(branch.clone().children[0].id, "l");
}

#[test]
fn shell_defaults() {
    let state = ShellLayoutState::default();
    assert_eq!(state.top.title, "Tool Options");
    assert_eq!(f32::from_bits(state.top.height), 72.0);
    assert_eq!(state.left.title, "Model");
    assert_eq!(f32::from_bits(state.left.width), 260.0);
    assert_eq!(state.right.title, "Properties");
    assert_eq!(f32::from_bits(state.right.width), 300.0);
    assert_eq!(state.bottom.title, "Messages");
    assert_eq!(f32::from_bits(state.bottom.height), 160.0);
    assert!(state.top.open && state.left.pinned && state.right.open && state.bottom.pinned);
    assert_eq!(state.status_message, "Ready");
    assert_eq!(state.status_detail, "100% | mm");
}

#[test]
fn header_actions_pin_and_collapse() {
    let mut panel = ShellPanelState::new("P", 1);
    panel.apply_header_action(Some("pin"));
    assert!(!panel.pinned && panel.open);
    panel.apply_header_action(Some("pin"));
    assert!(panel.pinned);
    panel.apply_header_action(Some("other"));
    assert!(panel.pinned && panel.open);
    panel.apply_header_action(Some("collapse"));
    assert!(!panel.open && panel.pinned);
    let mut band = ShellBandState::new("B", 2);
    band.apply_header_action(None);
    assert!(band.open && band.pinned);
    band.apply_header_action(Some("collapse"));
    assert!(!band.open);
    assert_eq!(band.height, 2);
}

#[test]
fn toolbar_reports_clicks() {
    let actions = [ToolbarAction::new("select", "Select").selected(true), ToolbarAction::new("sketch", "Sketch").enabled(false)];
    assert!(actions[0].selected && actions[0].enabled);
    assert!(!actions[1].enabled);
    let toolbar = Toolbar::new("main", &actions);
    assert_eq!(toolbar.source_id(), "main");
    let mut response = ToolbarResponse::default();
    Toolbar::handle_click(&toolbar.action_list()[0], true, &mut response);
    Toolbar::handle_click(&toolbar.action_list()[1], false, &mut response);
    assert_eq!(response.clicked.as_deref(), Some("select"));
}

#[test]
fn panel_header_reports_first_clicked_action() {
    let header = PanelHeader::new("Title")
        .subtitle("Sub")
        .action(PanelHeaderAction::new("pin", "[P]").selected(true))
        .action(PanelHeaderAction::new("collapse", "v"));
    assert_eq!(header.header_title(), "Title");
    assert_eq!(header.header_subtitle(), Some("Sub"));
    assert_eq!(header.header_actions().len(), 2);
    let both = PanelHeaderResponse::from_clicks(header.header_actions(), &vec![true, true]);
    assert_eq!(both.clicked_action.as_deref(), Some("pin"));
    let second = PanelHeaderResponse::from_clicks(header.header_actions(), &vec![false, true]);
    assert_eq!(second.clicked_action.as_deref(), Some("collapse"));
    let none = PanelHeaderResponse::from_clicks(header.header_actions(), &vec![false, false]);
    assert!(none.clicked_action.is_none());
}

#[test]
fn pin_labels() {
    assert_eq!(pin_label(true), "[P]");
    assert_eq!(pin_label(false), "[ ]");
}

#[test]
fn property_grid_tracks_last_change() {
    let mut response = PropertyGridResponse::new();
    response.record_row("Name", false);
    assert!(!response.changed);
    response.record_row("Length", true);
    response.record_row("Width", false);
    assert!(response.changed);
    assert_eq!(response.last_changed.as_deref(), Some("Length"));
}

#[test]
fn status_bar_builders() {
    let bar = StatusBar::new("Ready").detail("100%").mode("Sketch");
    assert_eq!(bar.message, "Ready");
    assert_eq!(bar.detail, Some("100%"));
    assert_eq!(bar.mode, Some("Sketch"));
}

#[test]
fn message_log_keeps_last_twelve() {
    let mut log = Vec::new();
    for i in 0..15 {
        push_message(&mut log, &format!("m{i}"));
    }
    assert_eq!(log.len(), 12);
    assert_eq!(log[0], "m3");
    assert_eq!(log[11], "m14");
}

#[test]
fn toolbar_ids_name_tools() {
    assert_eq!(tool_for_action("select"), "Select");
    assert_eq!(tool_for_action("sketch"), "Sketch");
    assert_eq!(tool_for_action("extrude"), "Extrude");
    assert_eq!(tool_for_action("measure"), "Measure");
    assert_eq!(tool_for_action("orbit"), "Select");
}

fn model_tree() -> Vec<TreeNode<'static>> {
    vec![
        TreeNode::branch(
            "asm",
            "Assembly",
            vec![
                TreeNode::leaf("body", "Body-01"),
                TreeNode::branch("sk", "Sketch-02", vec![TreeNode::leaf("line", "Line-1")]),
            ],
        ),
        TreeNode::leaf("plane", "Plane"),
    ]
}

#[test]
fn visible_rows_follow_expansion() {
    let nodes = model_tree();
    let mut state = TreeViewState::default();
    assert_eq!(state.visible_rows(&nodes), vec!["asm".to_string(), "plane".to_string()]);
    state.toggle_expanded("asm");
    assert_eq!(
        state.visible_rows(&nodes),
        vec!["asm".to_string(), "body".to_string(), "sk".to_string(), "plane".to_string()]
    );
    state.toggle_expanded("sk");
    assert_eq!(state.visible_rows(&nodes).len(), 5);
}

#[test]
fn shift_click_selects_a_range() {
    let nodes = model_tree();
    let mut state = TreeViewState::default();
    state.toggle_expanded("asm");
    let rows = state.visible_rows(&nodes);
    let mut response = TreeViewResponse::default();
    state.handle_row_input(&rows, "body", false, TreeRowInput { clicked: true, ..no_input() }, &mut response);
    state.handle_row_input(&rows, "plane", false, TreeRowInput { clicked: true, range: true, ..no_input() }, &mut response);
    assert_eq!(state.selected, vec!["body".to_string(), "sk".to_string(), "plane".to_string()]);
    assert_eq!(state.active.as_deref(), Some("plane"));
    assert_eq!(response.clicked.as_deref(), Some("plane"));
    state.handle_row_input(&rows, "asm", false, TreeRowInput { clicked: true, range: true, ..no_input() }, &mut response);
    assert_eq!(state.selected, vec!["asm".to_string(), "body".to_string(), "sk".to_string(), "plane".to_string()]);
    assert_eq!(state.active.as_deref(), Some("asm"));
    let mut fresh = TreeViewState::default();
    fresh.handle_row_input(&rows, "sk", false, TreeRowInput { clicked: true, range: true, ..no_input() }, &mut response);
    assert_eq!(fresh.selected, vec!["sk".to_string()]);
}

#[test]
fn collapsed_regions_reopen() {
    let mut state = ShellLayoutState::default();
    state.left.apply_header_action(Some("collapse"));
    state.left.apply_header_action(Some("pin"));
    assert!(!state.left.open);
    state.left.reopen();
    assert!(state.left.open);
    assert!(!state.left.pinned);
    state.bottom.apply_header_action(Some("collapse"));
    state.bottom.reopen();
    assert!(state.bottom.open && state.bottom.pinned);
}
