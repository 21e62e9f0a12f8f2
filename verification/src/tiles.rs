//! The boundary to `egui_tiles`: its tile collection and tree types, and the
//! methods of them that the layouts call.
//!
//! A tile id crosses this boundary as the `u64` that `egui_tiles::TileId`
//! wraps. Each wrapper below makes one outside call; what its contract says of
//! that call is believed, not proved. The contracts speak of what a collection
//! holds: its tiles by id (each a pane, or a container of one kind over the ids
//! of its children), and the ids it marks invisible; and of a tree, its root.
//! A tab group's active child and the shares of a linear container's children,
//! which the source also sets, are left unsaid: the layouts never read them.

use vstd::prelude::*;
use egui_tiles::{TileId, Tiles, Tree};
use crate::workspace::{WorkspaceDocument, DocumentRecord};
use crate::docking::{DemoDockContent, PaneRecord};


verus! {

/// `egui_tiles::Tiles`: the tiles (panes and containers) of one tree, by id.
#[verifier::external_type_specification]
#[verifier::external_body]
#[verifier::reject_recursive_types(Pane)]
pub struct ExTiles<Pane>(Tiles<Pane>);

/// `egui_tiles::Tree`: a root tile id together with the tiles it reaches.
#[verifier::external_type_specification]
#[verifier::external_body]
#[verifier::reject_recursive_types(Pane)]
pub struct ExTree<Pane>(Tree<Pane>);

/// A tile as the layouts see it: a pane (by its value), or a container of one
/// kind over the ids of its children, in order.
pub enum TileShape<P> {
    Pane(P),
    Tabs(Seq<u64>),
    Horizontal(Seq<u64>),
    Vertical(Seq<u64>),
}

/// The tiles that a collection of document tiles holds, by id.
pub uninterp spec fn document_tiles(tiles: Tiles<WorkspaceDocument>) -> Map<u64, TileShape<DocumentRecord>>;

/// The ids of the tiles that a collection holds.
pub open spec fn document_tile_ids(tiles: Tiles<WorkspaceDocument>) -> Set<u64> {
    document_tiles(tiles).dom()
}

/// The ids that a collection of document tiles marks invisible.
pub uninterp spec fn document_tiles_hidden(tiles: Tiles<WorkspaceDocument>) -> Set<u64>;

/// The ids that the tiles of a document tree mark invisible.
pub uninterp spec fn document_tree_hidden(tree: Tree<WorkspaceDocument>) -> Set<u64>;

/// The tiles of a document tree, by id.
pub uninterp spec fn document_tree_tiles(tree: Tree<WorkspaceDocument>) -> Map<u64, TileShape<DocumentRecord>>;

/// The root tile of a document tree, if it has one.
pub uninterp spec fn document_tree_root(tree: Tree<WorkspaceDocument>) -> Option<u64>;

/// `Tiles::default`: the source sets its map of tiles and its set of
/// invisible ids to empty ones.
#[verifier::external_body]
pub(crate) fn new_document_tiles() -> (tiles: Tiles<WorkspaceDocument>)
    ensures
        document_tiles(tiles).dom() == Set::<u64>::empty(),
        document_tiles_hidden(tiles) == Set::<u64>::empty(),
{
    Tiles::default()
}

/// `Tiles::insert_pane`: the source takes an id that no tile holds yet
/// (`next_free_id` skips taken ones), stores the pane under it and returns
/// it; the invisible set is not touched.
#[verifier::external_body]
pub(crate) fn insert_document_pane(tiles: &mut Tiles<WorkspaceDocument>, pane: WorkspaceDocument) -> (id: u64)
    ensures
        !document_tiles(*old(tiles)).dom().contains(id),
        document_tiles(*final(tiles)) == document_tiles(*old(tiles)).insert(id, TileShape::Pane(pane@)),
        document_tiles_hidden(*final(tiles)) == document_tiles_hidden(*old(tiles)),
{
    tiles.insert_pane(pane).0
}

/// `Tiles::insert_tab_tile`: stores a tabs container over `children` under a
/// new id, as `insert_document_pane` does for a pane.
#[verifier::external_body]
pub(crate) fn insert_document_tabs(tiles: &mut Tiles<WorkspaceDocument>, children: Vec<u64>) -> (id: u64)
    ensures
        !document_tiles(*old(tiles)).dom().contains(id),
        document_tiles(*final(tiles)) == document_tiles(*old(tiles)).insert(id, TileShape::Tabs(children@)),
        document_tiles_hidden(*final(tiles)) == document_tiles_hidden(*old(tiles)),
{
    tiles.insert_tab_tile(children.into_iter().map(TileId).collect())
        .0
}

/// `Tiles::insert_horizontal_tile`: stores a left-to-right linear container
/// over `children` under a new id, as `insert_document_pane` does for a pane.
#[verifier::external_body]
pub(crate) fn insert_document_row(tiles: &mut Tiles<WorkspaceDocument>, children: Vec<u64>) -> (id: u64)
    ensures
        !document_tiles(*old(tiles)).dom().contains(id),
        document_tiles(*final(tiles)) == document_tiles(*old(tiles)).insert(id, TileShape::Horizontal(children@)),
        document_tiles_hidden(*final(tiles)) == document_tiles_hidden(*old(tiles)),
{
    tiles.insert_horizontal_tile(children.into_iter().map(TileId).collect())
        .0
}

/// `Tiles::insert_vertical_tile`: stores a top-to-bottom linear container
/// over `children` under a new id, as `insert_document_pane` does for a pane.
#[verifier::external_body]
pub(crate) fn insert_document_column(tiles: &mut Tiles<WorkspaceDocument>, children: Vec<u64>) -> (id: u64)
    ensures
        !document_tiles(*old(tiles)).dom().contains(id),
        document_tiles(*final(tiles)) == document_tiles(*old(tiles)).insert(id, TileShape::Vertical(children@)),
        document_tiles_hidden(*final(tiles)) == document_tiles_hidden(*old(tiles)),
{
    tiles.insert_vertical_tile(children.into_iter().map(TileId).collect())
        .0
}

/// `Tree::new`: the source moves `tiles` into the tree unchanged, so the tree
/// holds their tiles and marks invisible what they marked, and makes `root`
/// its root. The tree's egui id, which egui derives from `id` by hashing, is
/// left unsaid: the layouts never read it.
#[verifier::external_body]
pub(crate) fn new_document_tree(id: String, root: u64, tiles: Tiles<WorkspaceDocument>) -> (tree: Tree<WorkspaceDocument>)
    ensures
        document_tree_tiles(tree) == document_tiles(tiles),
        document_tree_root(tree) == Some(root),
        document_tree_hidden(tree) == document_tiles_hidden(tiles),
{
    Tree::new(id, TileId(root), tiles)
}

/// `Tree::set_visible`: the source takes the id out of the invisible set when
/// `visible`, and puts it in otherwise, whether or not a tile holds it; the
/// tiles themselves and the root are not touched.
#[verifier::external_body]
pub(crate) fn set_document_tile_visible(tree: &mut Tree<WorkspaceDocument>, tile: u64, visible: bool)
    ensures
        document_tree_hidden(*final(tree)) == if visible {
            document_tree_hidden(*old(tree)).remove(tile)
        } else {
            document_tree_hidden(*old(tree)).insert(tile)
        },
        document_tree_tiles(*final(tree)) == document_tree_tiles(*old(tree)),
        document_tree_root(*final(tree)) == document_tree_root(*old(tree)),
{
    tree.set_visible(TileId(tile), visible)
}

/// `Tree::clone`, which the source derives: it clones the id, the root and
/// the tiles, each document by the derived `Clone` of `WorkspaceDocument`,
/// which copies every field; so the copy holds the same tiles, root and
/// invisible set.
#[verifier::external_body]
pub(crate) fn clone_document_tree(tree: &Tree<WorkspaceDocument>) -> (copy: Tree<WorkspaceDocument>)
    ensures
        document_tree_tiles(copy) == document_tree_tiles(*tree),
        document_tree_root(copy) == document_tree_root(*tree),
        document_tree_hidden(copy) == document_tree_hidden(*tree),
{
    tree.clone()
}

/// The tiles that a collection of dock pane tiles holds, by id.
pub uninterp spec fn dock_tiles(tiles: Tiles<DemoDockContent>) -> Map<u64, TileShape<PaneRecord>>;

/// The ids of the tiles that a collection holds.
pub open spec fn dock_tile_ids(tiles: Tiles<DemoDockContent>) -> Set<u64> {
    dock_tiles(tiles).dom()
}

/// The ids that a collection of dock pane tiles marks invisible.
pub uninterp spec fn dock_tiles_hidden(tiles: Tiles<DemoDockContent>) -> Set<u64>;

/// The ids that the tiles of a dock tree mark invisible.
pub uninterp spec fn dock_tree_hidden(tree: Tree<DemoDockContent>) -> Set<u64>;

/// The tiles of a dock tree, by id.
pub uninterp spec fn dock_tree_tiles(tree: Tree<DemoDockContent>) -> Map<u64, TileShape<PaneRecord>>;

/// The root tile of a dock tree, if it has one.
pub uninterp spec fn dock_tree_root(tree: Tree<DemoDockContent>) -> Option<u64>;

/// `Tiles::default`, as `new_document_tiles`.
#[verifier::external_body]
pub(crate) fn new_dock_tiles() -> (tiles: Tiles<DemoDockContent>)
    ensures
        dock_tiles(tiles).dom() == Set::<u64>::empty(),
        dock_tiles_hidden(tiles) == Set::<u64>::empty(),
{
    Tiles::default()
}

/// `Tiles::insert_pane`, as `insert_document_pane`.
#[verifier::external_body]
pub(crate) fn insert_dock_pane(tiles: &mut Tiles<DemoDockContent>, pane: DemoDockContent) -> (id: u64)
    ensures
        !dock_tiles(*old(tiles)).dom().contains(id),
        dock_tiles(*final(tiles)) == dock_tiles(*old(tiles)).insert(id, TileShape::Pane(pane@)),
        dock_tiles_hidden(*final(tiles)) == dock_tiles_hidden(*old(tiles)),
{
    tiles.insert_pane(pane).0
}

/// `Tiles::insert_tab_tile`, as `insert_document_tabs`.
#[verifier::external_body]
pub(crate) fn insert_dock_tabs(tiles: &mut Tiles<DemoDockContent>, children: Vec<u64>) -> (id: u64)
    ensures
        !dock_tiles(*old(tiles)).dom().contains(id),
        dock_tiles(*final(tiles)) == dock_tiles(*old(tiles)).insert(id, TileShape::Tabs(children@)),
        dock_tiles_hidden(*final(tiles)) == dock_tiles_hidden(*old(tiles)),
{
    tiles.insert_tab_tile(children.into_iter().map(TileId).collect())
        .0
}

/// `Tiles::insert_horizontal_tile`, as `insert_document_row`.
#[verifier::external_body]
pub(crate) fn insert_dock_row(tiles: &mut Tiles<DemoDockContent>, children: Vec<u64>) -> (id: u64)
    ensures
        !dock_tiles(*old(tiles)).dom().contains(id),
        dock_tiles(*final(tiles)) == dock_tiles(*old(tiles)).insert(id, TileShape::Horizontal(children@)),
        dock_tiles_hidden(*final(tiles)) == dock_tiles_hidden(*old(tiles)),
{
    tiles.insert_horizontal_tile(children.into_iter().map(TileId).collect())
        .0
}

/// `Tiles::insert_vertical_tile`, as `insert_document_column`.
#[verifier::external_body]
pub(crate) fn insert_dock_column(tiles: &mut Tiles<DemoDockContent>, children: Vec<u64>) -> (id: u64)
    ensures
        !dock_tiles(*old(tiles)).dom().contains(id),
        dock_tiles(*final(tiles)) == dock_tiles(*old(tiles)).insert(id, TileShape::Vertical(children@)),
        dock_tiles_hidden(*final(tiles)) == dock_tiles_hidden(*old(tiles)),
{
    tiles.insert_vertical_tile(children.into_iter().map(TileId).collect())
        .0
}

/// `Tree::new`, as `new_document_tree`.
#[verifier::external_body]
pub(crate) fn new_dock_tree(id: &'static str, root: u64, tiles: Tiles<DemoDockContent>) -> (tree: Tree<DemoDockContent>)
    ensures
        dock_tree_tiles(tree) == dock_tiles(tiles),
        dock_tree_root(tree) == Some(root),
        dock_tree_hidden(tree) == dock_tiles_hidden(tiles),
{
    Tree::new(id, TileId(root), tiles)
}

/// `Tree::set_visible`, as `set_document_tile_visible`.
#[verifier::external_body]
pub(crate) fn set_dock_tile_visible(tree: &mut Tree<DemoDockContent>, tile: u64, visible: bool)
    ensures
        dock_tree_hidden(*final(tree)) == if visible {
            dock_tree_hidden(*old(tree)).remove(tile)
        } else {
            dock_tree_hidden(*old(tree)).insert(tile)
        },
        dock_tree_tiles(*final(tree)) == dock_tree_tiles(*old(tree)),
        dock_tree_root(*final(tree)) == dock_tree_root(*old(tree)),
{
    tree.set_visible(TileId(tile), visible)
}

/// `Tree::clone`, as `clone_document_tree`, each pane by the derived
/// `Clone` of `DemoDockContent`.
#[verifier::external_body]
pub(crate) fn clone_dock_tree(tree: &Tree<DemoDockContent>) -> (copy: Tree<DemoDockContent>)
    ensures
        dock_tree_tiles(copy) == dock_tree_tiles(*tree),
        dock_tree_root(copy) == dock_tree_root(*tree),
        dock_tree_hidden(copy) == dock_tree_hidden(*tree),
{
    tree.clone()
}

} // verus!
