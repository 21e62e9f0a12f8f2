use cad_widgets::color::AccentColor;
use cad_widgets::docking::{transfer_dock_pane, DemoDockArea, DemoDockContent, DemoDockLayout, PaneHeaderStyle};
use egui_tiles::{Container, LinearDir, Tile, TileId, Tree};

fn strings(items: &[&str]) -> Vec<String> {
    items.iter().map(|s| s.to_string()).collect()
}

/// Whether the tile holding the pane titled `title` is visible in the host's tree.
fn pane_visible(layout: &mut DemoDockLayout, title: &str) -> bool {
    let tree = layout.tree_mut();
    let tile_id = tree
        .tiles
        .iter()
        .find_map(|(tile_id, tile)| match tile {
            Tile::Pane(pane) if pane.title == title => Some(*tile_id),
            _ => None,
        })
        .expect("pane tile");
    tree.tiles.is_visible(tile_id)
}

/// The shape of the tree under `tile_id`: pane titles, and `T[..]`, `H[..]`
/// or `V[..]` for tabs, rows and columns.
fn shape(tree: &Tree<DemoDockContent>, tile_id: TileId) -> String {
    let children = |ids: &[TileId]| ids.iter().map(|id| shape(tree, *id)).collect::<Vec<_>>().join(",");
    match tree.tiles.get(tile_id).expect("tile") {
        Tile::Pane(pane) => pane.title.clone(),
        Tile::Container(Container::Tabs(tabs)) => format!("T[{}]", children(&tabs.children)),
        Tile::Container(Container::Linear(linear)) => match linear.dir {
            LinearDir::Horizontal => format!("H[{}]", children(&linear.children)),
            LinearDir::Vertical => format!("V[{}]", children(&linear.children)),
        },
        Tile::Container(Container::Grid(_)) => "G".to_owned(),
    }
}

fn root_shape(layout: &mut DemoDockLayout) -> String {
    let tree = layout.tree_mut();
    let root = tree.root.expect("root");
    shape(tree, root)
}

#[test]
fn hosts_arrange_their_panes() {
    assert_eq!(root_shape(&mut DemoDockLayout::for_area(DemoDockArea::Top)), "H[Command Options,Snaps]");
    assert_eq!(
        root_shape(&mut DemoDockLayout::for_area(DemoDockArea::Left)),
        "V[T[Model,Layers,History],Selection]"
    );
    assert_eq!(
        root_shape(&mut DemoDockLayout::for_area(DemoDockArea::Right)),
        "V[T[Properties,Inspector],Constraints]"
    );
    assert_eq!(
        root_shape(&mut DemoDockLayout::for_area(DemoDockArea::Bottom)),
        "H[T[Messages,Tasks],Diagnostics]"
    );
}

#[test]
fn received_panes_stand_beside_the_host_layout() {
    let mut left = DemoDockLayout::for_area(DemoDockArea::Left);
    left.receive_pane(DemoDockContent::new("Guest", "G", "s", vec![], AccentColor::from_rgb(9, 9, 9)));
    assert_eq!(root_shape(&mut left), "V[V[T[Model,Layers,History],Selection],Guest]");
    let mut bottom = DemoDockLayout::for_area(DemoDockArea::Bottom);
    bottom.receive_pane(DemoDockContent::new("A", "G", "s", vec![], AccentColor::from_rgb(9, 9, 9)));
    bottom.receive_pane(DemoDockContent::new("B", "G", "s", vec![], AccentColor::from_rgb(9, 9, 9)));
    assert_eq!(root_shape(&mut bottom), "H[H[T[Messages,Tasks],Diagnostics],A,B]");
    bottom.apply_close_requests(strings(&["A"]));
    assert_eq!(root_shape(&mut bottom), "H[H[T[Messages,Tasks],Diagnostics],A,B]");
}

#[test]
fn host_panes_hold_their_content() {
    let mut right = DemoDockLayout::for_area(DemoDockArea::Right);
    let tree = right.tree_mut();
    let constraints = tree
        .tiles
        .iter()
        .find_map(|(_, tile)| match tile {
            Tile::Pane(pane) if pane.title == "Constraints" => Some(pane.clone()),
            _ => None,
        })
        .expect("pane");
    assert_eq!(constraints.badge, "PANE");
    assert_eq!(constraints.header_style, PaneHeaderStyle::Standalone);
    assert!(!constraints.pinned);
    assert!(constraints.closable);
    assert_eq!(constraints.lines, strings(&["Horizontal", "Coincident", "Equal"]));
    assert_eq!(constraints.accent, AccentColor::from_rgb(191, 136, 71));
}

#[test]
fn hosts_start_with_their_panes() {
    assert_eq!(DemoDockLayout::for_area(DemoDockArea::Top).visible_panes(), strings(&["Command Options", "Snaps"]));
    assert_eq!(
        DemoDockLayout::for_area(DemoDockArea::Left).visible_panes(),
        strings(&["Model", "Layers", "History", "Selection"])
    );
    assert_eq!(
        DemoDockLayout::for_area(DemoDockArea::Right).visible_panes(),
        strings(&["Properties", "Inspector", "Constraints"])
    );
    assert_eq!(
        DemoDockLayout::for_area(DemoDockArea::Bottom).visible_panes(),
        strings(&["Messages", "Tasks", "Diagnostics"])
    );
    assert!(DemoDockLayout::for_area(DemoDockArea::Left).closed_panes().is_empty());
}

#[test]
fn close_then_restore_last() {
    let mut left = DemoDockLayout::for_area(DemoDockArea::Left);
    left.apply_close_requests(strings(&["Layers", "History", "Layers"]));
    assert_eq!(left.closed_panes(), strings(&["Layers", "History"]));
    assert_eq!(left.visible_panes(), strings(&["Model", "Selection"]));
    assert!(!pane_visible(&mut left, "Layers"));
    assert!(!pane_visible(&mut left, "History"));
    assert_eq!(left.restore_last_closed().as_deref(), Some("History"));
    assert!(pane_visible(&mut left, "History"));
    assert!(!pane_visible(&mut left, "Layers"));
    assert_eq!(left.closed_panes(), strings(&["Layers"]));
    assert_eq!(left.restore_last_closed().as_deref(), Some("Layers"));
    assert_eq!(left.restore_last_closed(), None);
}

#[test]
fn restore_all_closed_reopens() {
    let mut bottom = DemoDockLayout::for_area(DemoDockArea::Bottom);
    bottom.apply_close_requests(strings(&["Tasks", "Diagnostics"]));
    bottom.restore_all_closed();
    assert!(bottom.closed_panes().is_empty());
    assert!(pane_visible(&mut bottom, "Tasks"));
    assert!(pane_visible(&mut bottom, "Diagnostics"));
    assert_eq!(bottom.visible_panes(), strings(&["Messages", "Tasks", "Diagnostics"]));
}

#[test]
fn transfer_and_return() {
    let mut left = DemoDockLayout::for_area(DemoDockArea::Left);
    let mut right = DemoDockLayout::for_area(DemoDockArea::Right);
    let pane = left.transfer_pane("History").expect("History moves");
    assert_eq!(pane.title, "History");
    assert_eq!(pane.badge, "TAB");
    assert_eq!(pane.header_style, PaneHeaderStyle::Tabbed);
    assert_eq!(left.visible_panes(), strings(&["Model", "Layers", "Selection"]));
    assert!(!pane_visible(&mut left, "History"));
    right.receive_pane(pane);
    assert_eq!(right.visible_panes(), strings(&["Properties", "Inspector", "Constraints", "History"]));
    assert!(pane_visible(&mut right, "History"));
    let back = right.transfer_pane("History").expect("History moves back");
    assert_eq!(back.lines, strings(&["Sketch-01", "Extrude-01", "Fillet-02"]));
    left.receive_pane(back);
    assert_eq!(left.visible_panes(), strings(&["Model", "Layers", "History", "Selection"]));
    assert!(pane_visible(&mut left, "History"));
    assert_eq!(right.visible_panes(), strings(&["Properties", "Inspector", "Constraints"]));
}

#[test]
fn transfer_refuses_closed_moved_and_unknown() {
    let mut top = DemoDockLayout::for_area(DemoDockArea::Top);
    top.apply_close_requests(strings(&["Snaps"]));
    assert!(top.transfer_pane("Snaps").is_none());
    assert!(top.transfer_pane("Nowhere").is_none());
    assert!(top.transfer_pane("Command Options").is_some());
    assert!(top.transfer_pane("Command Options").is_none());
}

#[test]
fn receive_refuses_a_title_already_here() {
    let mut right = DemoDockLayout::for_area(DemoDockArea::Right);
    let copy = DemoDockContent::new("Inspector", "X", "s", vec![], AccentColor::from_rgb(0, 0, 0));
    right.receive_pane(copy);
    assert_eq!(right.visible_panes(), strings(&["Properties", "Inspector", "Constraints"]));
    let fresh = DemoDockContent::new("Extra", "X", "s", vec![], AccentColor::from_rgb(0, 0, 0));
    right.receive_pane(fresh.clone());
    right.receive_pane(fresh);
    assert_eq!(right.visible_panes(), strings(&["Properties", "Inspector", "Constraints", "Extra"]));
}

#[test]
fn rebuild_keeps_closed_panes_hidden() {
    let mut top = DemoDockLayout::for_area(DemoDockArea::Top);
    top.apply_close_requests(strings(&["Snaps"]));
    top.receive_pane(DemoDockContent::new("Guest", "G", "s", vec![], AccentColor::from_rgb(9, 9, 9)));
    assert!(!pane_visible(&mut top, "Snaps"));
    assert!(pane_visible(&mut top, "Guest"));
    assert_eq!(top.visible_panes(), strings(&["Command Options", "Guest"]));
}

#[test]
fn content_builders() {
    let pane = DemoDockContent::new("T", "B", "S", strings(&["l"]), AccentColor::from_rgb(1, 2, 3));
    assert_eq!(pane.header_style, PaneHeaderStyle::Standalone);
    assert!(pane.pinned);
    assert!(pane.closable);
    let pane = pane.tabbed().pinned(false).closable(false);
    assert_eq!(pane.header_style, PaneHeaderStyle::Tabbed);
    assert!(!pane.pinned);
    assert!(!pane.closable);
    let mut pane = pane.standalone();
    assert_eq!(pane.header_title(), "B T");
    pane.toggle_pin();
    assert!(pane.pinned);
}

#[test]
fn dock_sizes() {
    let layout = DemoDockLayout::for_area(DemoDockArea::Top);
    assert_eq!(f32::from_bits(layout.tab_bar_height_bits()), 24.0);
    assert_eq!(f32::from_bits(layout.gap_width_bits()), 2.0);
}

#[test]
fn cloned_layout_is_independent() {
    let mut left = DemoDockLayout::for_area(DemoDockArea::Left);
    left.apply_close_requests(strings(&["Layers"]));
    let mut copy = left.clone();
    assert_eq!(copy.closed_panes(), strings(&["Layers"]));
    assert_eq!(root_shape(&mut copy), "V[T[Model,Layers,History],Selection]");
    assert!(!pane_visible(&mut copy, "Layers"));
    copy.restore_all_closed();
    assert!(pane_visible(&mut copy, "Layers"));
    assert!(!pane_visible(&mut left, "Layers"));
    assert_eq!(left.closed_panes(), strings(&["Layers"]));
}

#[test]
fn moving_panes_between_hosts() {
    let mut top = DemoDockLayout::for_area(DemoDockArea::Top);
    let mut bottom = DemoDockLayout::for_area(DemoDockArea::Bottom);
    assert!(transfer_dock_pane(&mut top, &mut bottom, "Snaps"));
    assert_eq!(top.visible_panes(), strings(&["Command Options"]));
    assert_eq!(bottom.visible_panes(), strings(&["Messages", "Tasks", "Diagnostics", "Snaps"]));
    assert_eq!(root_shape(&mut bottom), "H[H[T[Messages,Tasks],Diagnostics],Snaps]");
    assert!(!transfer_dock_pane(&mut top, &mut bottom, "Snaps"));
    assert!(!transfer_dock_pane(&mut top, &mut bottom, "Nowhere"));
    assert!(transfer_dock_pane(&mut bottom, &mut top, "Snaps"));
    assert_eq!(top.visible_panes(), strings(&["Command Options", "Snaps"]));
    assert!(pane_visible(&mut top, "Snaps"));
    assert_eq!(bottom.visible_panes(), strings(&["Messages", "Tasks", "Diagnostics"]));
    assert_eq!(root_shape(&mut top), "H[Command Options,Snaps]");
}

#[test]
fn dock_snapshot_round_trip() {
    let mut left = DemoDockLayout::for_area(DemoDockArea::Left);
    let mut right = DemoDockLayout::for_area(DemoDockArea::Right);
    assert!(transfer_dock_pane(&mut right, &mut left, "Inspector"));
    left.apply_close_requests(strings(&["Layers"]));
    let saved_left = left.snapshot();
    let saved_right = right.snapshot();
    assert_eq!(saved_left.area, DemoDockArea::Left);
    assert_eq!(saved_left.closed_titles, strings(&["Layers"]));
    assert_eq!(saved_right.transferred_titles, strings(&["Inspector"]));
    left.restore_all_closed();
    assert!(transfer_dock_pane(&mut left, &mut right, "Inspector"));
    left.restore(saved_left);
    right.restore(saved_right);
    assert_eq!(left.closed_panes(), strings(&["Layers"]));
    assert_eq!(left.visible_panes(), strings(&["Model", "History", "Selection", "Inspector"]));
    assert!(!pane_visible(&mut left, "Layers"));
    assert_eq!(right.visible_panes(), strings(&["Properties", "Constraints"]));
    assert!(!pane_visible(&mut right, "Inspector"));
    assert_eq!(root_shape(&mut left), "V[V[T[Model,Layers,History],Selection],Inspector]");
}

#[test]
fn close_requests_pass_over_panes_that_cannot_close() {
    let mut left = DemoDockLayout::for_area(DemoDockArea::Left);
    let mut right = DemoDockLayout::for_area(DemoDockArea::Right);
    assert!(transfer_dock_pane(&mut left, &mut right, "History"));
    left.apply_close_requests(strings(&["History", "Model", "Nowhere", "Layers"]));
    assert_eq!(left.closed_panes(), strings(&["Layers"]));
    assert_eq!(left.restore_last_closed().as_deref(), Some("Layers"));
    assert_eq!(left.restore_last_closed(), None);
    assert!(!pane_visible(&mut left, "History"));
    assert_eq!(left.visible_panes(), strings(&["Model", "Layers", "Selection"]));
}

#[test]
fn restore_skips_what_does_not_fit_the_host() {
    let mut top = DemoDockLayout::for_area(DemoDockArea::Top);
    let mut saved = top.snapshot();
    saved.imported_panes.push(DemoDockContent::new("Snaps", "X", "s", vec![], AccentColor::from_rgb(0, 0, 0)));
    saved.imported_panes.push(DemoDockContent::new("Guest", "G", "s", vec![], AccentColor::from_rgb(0, 0, 0)));
    saved.imported_panes.push(DemoDockContent::new("Guest", "H", "s", vec![], AccentColor::from_rgb(0, 0, 0)));
    saved.transferred_titles = strings(&["Guest", "Nowhere", "Guest"]);
    saved.closed_titles = strings(&["Guest", "Snaps", "Snaps", "Other"]);
    top.restore(saved);
    assert_eq!(root_shape(&mut top), "H[H[Command Options,Snaps],Guest]");
    assert_eq!(top.closed_panes(), strings(&["Snaps"]));
    assert_eq!(top.visible_panes(), strings(&["Command Options"]));
    let snapshot = top.snapshot();
    assert_eq!(snapshot.imported_panes.len(), 1);
    assert_eq!(snapshot.imported_panes[0].badge, "G");
    assert_eq!(snapshot.transferred_titles, strings(&["Guest"]));
}
