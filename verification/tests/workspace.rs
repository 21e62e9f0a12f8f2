use cad_widgets::color::AccentColor;
use cad_widgets::workspace::{
    DocumentKind, DocumentPaneHeaderStyle, DocumentTab, DocumentTabs, DocumentTabsResponse,
    DocumentTabsState, DocumentWorkspaceBuilder, DocumentWorkspaceLayout, DocumentWorkspaceNode,
    WorkspaceDocument,
};
use egui_tiles::{Container, LinearDir, Tile, TileId, Tree};

fn doc(id: &str, title: &str) -> WorkspaceDocument {
    WorkspaceDocument::new(id, title, DocumentKind::Table, "summary", vec!["a".to_string()], AccentColor::from_rgb(1, 2, 3))
}

fn small_builder() -> DocumentWorkspaceBuilder {
    DocumentWorkspaceBuilder::new(
        "tree",
        DocumentWorkspaceNode::horizontal(vec![
            DocumentWorkspaceNode::single_tab("a"),
            DocumentWorkspaceNode::tabs(vec![
                DocumentWorkspaceNode::document("b"),
                DocumentWorkspaceNode::document("c"),
            ]),
        ]),
    )
    .document(doc("a", "Alpha"))
    .documents(vec![doc("b", "Beta"), doc("c", "Gamma")])
}

/// Whether the tile holding the document `id` is visible in the layout's tree.
fn document_visible(layout: &mut DocumentWorkspaceLayout, id: &str) -> bool {
    let tree = layout.tree_mut();
    let tile_id = tree
        .tiles
        .iter()
        .find_map(|(tile_id, tile)| match tile {
            Tile::Pane(pane) if pane.id == id => Some(*tile_id),
            _ => None,
        })
        .expect("document tile");
    tree.tiles.is_visible(tile_id)
}

/// The shape of the tree under `tile_id`: document ids, and `T[..]`, `H[..]`
/// or `V[..]` for tabs, rows and columns.
fn shape(tree: &Tree<WorkspaceDocument>, tile_id: TileId) -> String {
    let children = |ids: &[TileId]| ids.iter().map(|id| shape(tree, *id)).collect::<Vec<_>>().join(",");
    match tree.tiles.get(tile_id).expect("tile") {
        Tile::Pane(pane) => pane.id.clone(),
        Tile::Container(Container::Tabs(tabs)) => format!("T[{}]", children(&tabs.children)),
        Tile::Container(Container::Linear(linear)) => match linear.dir {
            LinearDir::Horizontal => format!("H[{}]", children(&linear.children)),
            LinearDir::Vertical => format!("V[{}]", children(&linear.children)),
        },
        Tile::Container(Container::Grid(_)) => "G".to_owned(),
    }
}

fn root_shape(layout: &mut DocumentWorkspaceLayout) -> String {
    let tree = layout.tree_mut();
    let root = tree.root.expect("root");
    shape(tree, root)
}

fn closed_ids(layout: &DocumentWorkspaceLayout) -> Vec<String> {
    layout.closed_documents().into_iter().map(|d| d.id).collect()
}

#[test]
fn badge_text_per_kind() {
    assert_eq!(DocumentKind::Model3d.badge_text(), "3D");
    assert_eq!(DocumentKind::Plot2d.badge_text(), "2D");
    assert_eq!(DocumentKind::Table.badge_text(), "TAB");
    assert_eq!(DocumentKind::Report.badge_text(), "DOC");
}

#[test]
fn tabs_state_activates() {
    let mut state = DocumentTabsState::new("one");
    assert!(state.is_active("one"));
    assert!(!state.is_active("two"));
    state.activate("two");
    assert!(state.is_active("two"));
    assert!(!state.is_active("one"));
}

#[test]
fn tab_button_text_marks_dirty() {
    let tab = DocumentTab::new("d", "Drawing", DocumentKind::Plot2d);
    assert!(tab.closable);
    assert!(!tab.dirty);
    assert_eq!(tab.button_text(), "2D Drawing");
    assert_eq!(tab.dirty(true).button_text(), "2D Drawing *");
}

#[test]
fn tab_input_activates_and_requests_close() {
    let tabs = [DocumentTab::new("x", "X", DocumentKind::Report), DocumentTab::new("y", "Y", DocumentKind::Report).closable(false)];
    let strip = DocumentTabs::new("strip", &tabs);
    assert_eq!(strip.source_id(), "strip");
    assert_eq!(strip.tab_list().len(), 2);
    let mut state = DocumentTabsState::new("y");
    let mut response = DocumentTabsResponse::default();
    DocumentTabs::handle_tab_input(&tabs[0], true, true, &mut state, &mut response);
    assert_eq!(state.active_id, "x");
    assert_eq!(response.activated.as_deref(), Some("x"));
    assert_eq!(response.close_requested.as_deref(), Some("x"));
    let mut response = DocumentTabsResponse::default();
    DocumentTabs::handle_tab_input(&tabs[1], false, true, &mut state, &mut response);
    assert_eq!(state.active_id, "x");
    assert!(response.activated.is_none());
    assert!(response.close_requested.is_none());
}

#[test]
fn document_builders_set_fields() {
    let d = doc("a", "Alpha").standalone().dirty(true).closable(false);
    assert_eq!(d.header_style, DocumentPaneHeaderStyle::Standalone);
    assert!(d.dirty);
    assert!(!d.closable);
    assert_eq!(d.tab_title(), "TAB Alpha *");
    assert_eq!(d.header_title(), "TAB Alpha");
    let fresh = doc("b", "Beta");
    assert_eq!(fresh.header_style, DocumentPaneHeaderStyle::Tabbed);
    assert!(!fresh.dirty);
    assert!(fresh.closable);
    assert_eq!(fresh.accent, AccentColor { r: 1, g: 2, b: 3, a: 255 });
}

#[test]
fn missing_document_is_reported() {
    assert_eq!(small_builder().missing_document(), None);
    let builder = DocumentWorkspaceBuilder::new(
        "tree",
        DocumentWorkspaceNode::vertical(vec![DocumentWorkspaceNode::document("a"), DocumentWorkspaceNode::document("zz")]),
    )
    .document(doc("a", "Alpha"));
    assert_eq!(builder.missing_document().as_deref(), Some("zz"));
}

#[test]
fn close_hides_and_restore_shows() {
    let mut layout = small_builder().build();
    assert!(document_visible(&mut layout, "b"));
    layout.apply_close_requests(vec!["b".to_string()]);
    assert_eq!(closed_ids(&layout), vec!["b"]);
    assert!(!document_visible(&mut layout, "b"));
    assert!(document_visible(&mut layout, "a"));
    assert!(layout.restore_document("b"));
    assert!(closed_ids(&layout).is_empty());
    assert!(document_visible(&mut layout, "b"));
    assert!(!layout.restore_document("b"));
}

#[test]
fn close_requests_skip_duplicates_and_unknown_ids() {
    let mut layout = small_builder().build();
    layout.apply_close_requests(vec!["c".to_string(), "nope".to_string(), "c".to_string(), "a".to_string()]);
    assert_eq!(closed_ids(&layout), vec!["c", "a"]);
}

#[test]
fn restore_all_reopens_everything() {
    let mut layout = small_builder().build();
    layout.apply_close_requests(vec!["a".to_string(), "b".to_string()]);
    layout.restore_all_documents();
    assert!(closed_ids(&layout).is_empty());
    assert!(document_visible(&mut layout, "a"));
    assert!(document_visible(&mut layout, "b"));
}

#[test]
fn snapshot_round_trip() {
    let mut layout = small_builder().build();
    layout.apply_close_requests(vec!["c".to_string(), "a".to_string()]);
    let snapshot = layout.snapshot();
    assert_eq!(snapshot.closed_document_ids, vec!["c", "a"]);
    layout.restore_all_documents();
    layout.restore(snapshot);
    assert_eq!(closed_ids(&layout), vec!["c", "a"]);
    assert!(!document_visible(&mut layout, "c"));
    assert!(!document_visible(&mut layout, "a"));
    assert!(document_visible(&mut layout, "b"));
}

#[test]
fn closed_documents_follow_close_order() {
    let mut layout = small_builder().build();
    layout.apply_close_requests(vec!["c".to_string(), "b".to_string()]);
    let titles: Vec<String> = layout.closed_documents().into_iter().map(|d| d.title).collect();
    assert_eq!(titles, vec!["Gamma", "Beta"]);
}

#[test]
fn demo_layout_places_five_documents() {
    let mut layout = DocumentWorkspaceLayout::demo();
    assert!(layout.closed_documents().is_empty());
    assert_eq!(layout.tab_bar_height_bits(), 26.0f32.to_bits());
    assert_eq!(layout.gap_width_bits(), 2.0f32.to_bits());
    for id in ["doc:model_3d", "doc:force_plot", "doc:bom_table", "doc:inspection_report", "doc:notes"] {
        assert!(document_visible(&mut layout, id));
    }
    layout.apply_close_requests(vec!["doc:notes".to_string()]);
    let closed = layout.closed_documents();
    assert_eq!(closed.len(), 1);
    assert_eq!(closed[0].title, "Notes");
}

#[test]
fn builder_size_setters() {
    let layout = small_builder().tab_bar_height(30.0f32.to_bits()).gap_width(4.0f32.to_bits()).build();
    assert_eq!(f32::from_bits(layout.tab_bar_height_bits()), 30.0);
    assert_eq!(f32::from_bits(layout.gap_width_bits()), 4.0);
}

#[test]
fn tree_follows_the_layout_spec() {
    let mut layout = small_builder().build();
    assert_eq!(root_shape(&mut layout), "H[T[a],T[b,c]]");
    layout.apply_close_requests(vec!["b".to_string()]);
    assert_eq!(root_shape(&mut layout), "H[T[a],T[b,c]]");
    assert!(layout.restore_document("b"));
    assert_eq!(root_shape(&mut layout), "H[T[a],T[b,c]]");
    let mut demo = DocumentWorkspaceLayout::demo();
    assert_eq!(
        root_shape(&mut demo),
        "V[H[T[doc:model_3d],T[doc:force_plot,doc:bom_table,doc:inspection_report]],T[doc:notes]]"
    );
}

#[test]
fn document_tiles_hold_the_registered_documents() {
    let mut layout = DocumentWorkspaceLayout::demo();
    let tree = layout.tree_mut();
    let model = tree
        .tiles
        .iter()
        .find_map(|(_, tile)| match tile {
            Tile::Pane(pane) if pane.id == "doc:model_3d" => Some(pane.clone()),
            _ => None,
        })
        .expect("document");
    assert_eq!(model.title, "Chassis-3D");
    assert_eq!(model.kind, DocumentKind::Model3d);
    assert_eq!(model.header_style, DocumentPaneHeaderStyle::Standalone);
    assert!(model.dirty);
    assert!(!model.closable);
    assert_eq!(model.accent, AccentColor::from_rgb(77, 126, 189));
    assert_eq!(model.lines.len(), 3);
}

#[test]
fn cloned_workspace_is_independent() {
    let mut layout = small_builder().build();
    layout.apply_close_requests(vec!["c".to_string()]);
    let mut copy = layout.clone();
    assert_eq!(closed_ids(&copy), vec!["c".to_string()]);
    assert!(!document_visible(&mut copy, "c"));
    copy.restore_all_documents();
    assert!(document_visible(&mut copy, "c"));
    assert!(!document_visible(&mut layout, "c"));
    assert_eq!(root_shape(&mut copy), "H[T[a],T[b,c]]");
}

#[test]
fn close_requests_pass_over_documents_that_cannot_close() {
    let mut layout = DocumentWorkspaceLayout::demo();
    layout.apply_close_requests(vec!["doc:model_3d".to_string(), "doc:bom_table".to_string()]);
    assert_eq!(closed_ids(&layout), vec!["doc:bom_table".to_string()]);
    assert!(document_visible(&mut layout, "doc:model_3d"));
    assert!(!document_visible(&mut layout, "doc:bom_table"));
}
