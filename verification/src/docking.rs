//! The four dock hosts around the central workspace. Each lays its panes out
//! as an `egui_tiles` tree; panes can be closed and restored, and moved from
//! one dock host to another.

use vstd::prelude::*;
use vstd::string::StringExecFns;
use egui_tiles::{Tiles, Tree};
use crate::color::AccentColor;
use crate::text::{
    texts, no_repeats, first_index, without, lemma_first_index, lemma_first_index_is, lemma_push_contains,
    lemma_without, owned, same_text, contains_text, remove_every,
};
use crate::tiles::{
    TileShape, dock_tiles, dock_tree_tiles, dock_tree_root, dock_tiles_hidden, dock_tree_hidden, new_dock_tiles,
    insert_dock_pane, insert_dock_tabs, insert_dock_row, insert_dock_column, new_dock_tree, set_dock_tile_visible,
    clone_dock_tree,
};

verus! {

/// How the header of a dock pane is drawn.
#[derive(Clone, Copy, Debug, PartialEq, Eq, Structural)]
pub enum PaneHeaderStyle {
    Tabbed,
    Standalone,
}

/// One of the four dock hosts.
#[derive(Clone, Copy, Debug, PartialEq, Eq, Structural)]
pub enum DemoDockArea {
    Top,
    Left,
    Right,
    Bottom,
}

/// The mathematical value of a dock pane.
pub struct PaneRecord {
    pub title: Seq<char>,
    pub badge: Seq<char>,
    pub summary: Seq<char>,
    pub lines: Seq<Seq<char>>,
    pub accent: AccentColor,
    pub header_style: PaneHeaderStyle,
    pub pinned: bool,
    pub closable: bool,
}

/// The content of a dock pane; its title identifies it within the dock hosts.
#[derive(Clone, Debug)]
pub struct DemoDockContent {
    pub title: String,
    pub badge: String,
    pub summary: String,
    pub lines: Vec<String>,
    pub accent: AccentColor,
    pub header_style: PaneHeaderStyle,
    pub pinned: bool,
    pub closable: bool,
}

impl View for DemoDockContent {
    type V = PaneRecord;

    open spec fn view(&self) -> PaneRecord {
        PaneRecord {
            title: self.title@,
            badge: self.badge@,
            summary: self.summary@,
            lines: texts(self.lines@),
            accent: self.accent,
            header_style: self.header_style,
            pinned: self.pinned,
            closable: self.closable,
        }
    }
}

/// The values of a list of panes.
pub open spec fn pane_records(panes: Seq<DemoDockContent>) -> Seq<PaneRecord> {
    Seq::new(panes.len(), |i: int| panes[i]@)
}

/// The titles of a list of pane values, in order.
pub open spec fn pane_titles(panes: Seq<PaneRecord>) -> Seq<Seq<char>> {
    Seq::new(panes.len(), |i: int| panes[i].title)
}

impl DemoDockContent {
    /// A pinned, closable pane with a standalone header.
    pub fn new(title: &str, badge: &str, summary: &str, lines: Vec<String>, accent: AccentColor) -> (p: Self)
        ensures
            p@ == (PaneRecord {
                title: title@,
                badge: badge@,
                summary: summary@,
                lines: texts(lines@),
                accent,
                header_style: PaneHeaderStyle::Standalone,
                pinned: true,
                closable: true,
            }),
    {
        DemoDockContent {
            title: owned(title),
            badge: owned(badge),
            summary: owned(summary),
            lines,
            accent,
            header_style: PaneHeaderStyle::Standalone,
            pinned: true,
            closable: true,
        }
    }

    pub fn tabbed(self) -> (p: Self)
        ensures
            p@ == (PaneRecord { header_style: PaneHeaderStyle::Tabbed, ..self@ }),
    {
        DemoDockContent { header_style: PaneHeaderStyle::Tabbed, ..self }
    }

    pub fn standalone(self) -> (p: Self)
        ensures
            p@ == (PaneRecord { header_style: PaneHeaderStyle::Standalone, ..self@ }),
    {
        DemoDockContent { header_style: PaneHeaderStyle::Standalone, ..self }
    }

    pub fn pinned(self, pinned: bool) -> (p: Self)
        ensures
            p@ == (PaneRecord { pinned, ..self@ }),
    {
        DemoDockContent { pinned, ..self }
    }

    pub fn closable(self, closable: bool) -> (p: Self)
        ensures
            p@ == (PaneRecord { closable, ..self@ }),
    {
        DemoDockContent { closable, ..self }
    }

    /// Pins an unpinned pane, or unpins a pinned one.
    pub fn toggle_pin(&mut self)
        ensures
            final(self)@ == (PaneRecord { pinned: !old(self).pinned, ..old(self)@ }),
    {
        self.pinned = !self.pinned;
    }

    /// A copy with the same value.
    pub fn duplicate(&self) -> (p: Self)
        ensures
            p@ == self@,
    {
        let lines = self.lines.clone();
        assert(texts(lines@) =~= texts(self.lines@));
        DemoDockContent {
            title: self.title.clone(),
            badge: self.badge.clone(),
            summary: self.summary.clone(),
            lines,
            accent: self.accent,
            header_style: self.header_style,
            pinned: self.pinned,
            closable: self.closable,
        }
    }

    /// The text that names the pane in its header and tab: badge, a space,
    /// and title.
    pub fn header_title(&self) -> (s: String)
        ensures
            s@ == self.badge@ + " "@ + self.title@,
    {
        let mut s = self.badge.clone();
        s.append(" ");
        s.append(self.title.as_str());
        s
    }
}

/// Whether the closed and moved-away titles of a host whose catalog has the
/// titles `titles` are catalog titles, none listed twice, and none both
/// closed and moved away.
pub open spec fn lists_ok(titles: Seq<Seq<char>>, closed: Seq<Seq<char>>, transferred: Seq<Seq<char>>) -> bool {
    &&& no_repeats(closed)
    &&& no_repeats(transferred)
    &&& forall|t: Seq<char>| #[trigger] closed.contains(t) ==> titles.contains(t) && !transferred.contains(t)
    &&& forall|t: Seq<char>| #[trigger] transferred.contains(t) ==> titles.contains(t)
}

/// The titles of the panes that a dock host starts with, in catalog order.
pub open spec fn area_titles(area: DemoDockArea) -> Seq<Seq<char>> {
    match area {
        DemoDockArea::Top => seq!["Command Options"@, "Snaps"@],
        DemoDockArea::Left => seq!["Model"@, "Layers"@, "History"@, "Selection"@],
        DemoDockArea::Right => seq!["Properties"@, "Inspector"@, "Constraints"@],
        DemoDockArea::Bottom => seq!["Messages"@, "Tasks"@, "Diagnostics"@],
    }
}

/// The tile of the first catalog entry titled `t`.
pub open spec fn tile_for(titles: Seq<Seq<char>>, tiles: Seq<u64>, t: Seq<char>) -> Option<u64> {
    let i = first_index(titles, t);
    if 0 <= i < tiles.len() {
        Some(tiles[i])
    } else {
        None
    }
}

/// The hidden set after showing (`visible`) or hiding a tile, if there is one.
pub open spec fn with_visibility(hidden: Set<u64>, tile: Option<u64>, visible: bool) -> Set<u64> {
    match tile {
        Some(x) => if visible {
            hidden.remove(x)
        } else {
            hidden.insert(x)
        },
        None => hidden,
    }
}

/// The tiles of the first catalog entries titled by the titles in `ts`.
pub open spec fn tiles_for(titles: Seq<Seq<char>>, tiles: Seq<u64>, ts: Set<Seq<char>>) -> Set<u64> {
    Set::new(|x: u64| exists|t: Seq<char>| #[trigger] ts.contains(t) && tile_for(titles, tiles, t) == Some(x))
}

/// The catalog titles, in order, that are neither closed nor moved away.
pub open spec fn visible_titles(
    titles: Seq<Seq<char>>,
    closed: Seq<Seq<char>>,
    transferred: Seq<Seq<char>>,
) -> Seq<Seq<char>>
    decreases titles.len(),
{
    if titles.len() == 0 {
        titles
    } else {
        let earlier = visible_titles(titles.drop_last(), closed, transferred);
        let t = titles.last();
        if closed.contains(t) || transferred.contains(t) {
            earlier
        } else {
            earlier.push(t)
        }
    }
}

/// Whether the tiles are all different.
pub open spec fn distinct_tiles(tiles: Seq<u64>) -> bool {
    forall|i: int, j: int| 0 <= i < j < tiles.len() ==> tiles[i] != tiles[j]
}

/// The value of a dock pane with the given fields.
pub open spec fn pane_record(
    title: Seq<char>,
    badge: Seq<char>,
    summary: Seq<char>,
    lines: Seq<Seq<char>>,
    accent: AccentColor,
    header_style: PaneHeaderStyle,
    pinned: bool,
    closable: bool,
) -> PaneRecord {
    PaneRecord { title, badge, summary, lines, accent, header_style, pinned, closable }
}

/// The panes that a dock host starts with, in catalog order.
pub open spec fn area_panes(area: DemoDockArea) -> Seq<PaneRecord> {
    match area {
        DemoDockArea::Top => seq![
            pane_record(
                "Command Options"@,
                "CMD"@,
                "当前命令的即时参数和选择过滤器。"@,
                seq!["Operation: Sketch / Extrude / Measure"@, "Selection Filter: Bodies / Sketches / Datum"@],
                AccentColor { r: 93, g: 135, b: 195, a: 255 },
                PaneHeaderStyle::Standalone,
                true,
                false,
            ),
            pane_record(
                "Snaps"@,
                "AID"@,
                "草图辅助和捕捉开关。"@,
                seq!["Grid Snap: On"@, "Constraint Hints: Visible"@],
                AccentColor { r: 82, g: 161, b: 125, a: 255 },
                PaneHeaderStyle::Standalone,
                true,
                true,
            ),
        ],
        DemoDockArea::Left => seq![
            pane_record(
                "Model"@,
                "TAB"@,
                "装配结构和对象树。"@,
                seq!["Assembly"@, "Body-01"@, "Sketch-02"@],
                AccentColor { r: 85, g: 133, b: 184, a: 255 },
                PaneHeaderStyle::Tabbed,
                true,
                false,
            ),
            pane_record(
                "Layers"@,
                "TAB"@,
                "图层显隐和锁定控制。"@,
                seq!["Default"@, "Construction"@, "Dimensions"@],
                AccentColor { r: 131, g: 110, b: 182, a: 255 },
                PaneHeaderStyle::Tabbed,
                true,
                true,
            ),
            pane_record(
                "History"@,
                "TAB"@,
                "参数化特征历史。"@,
                seq!["Sketch-01"@, "Extrude-01"@, "Fillet-02"@],
                AccentColor { r: 189, g: 125, b: 67, a: 255 },
                PaneHeaderStyle::Tabbed,
                true,
                true,
            ),
            pane_record(
                "Selection"@,
                "PANE"@,
                "当前选择集摘要。"@,
                seq!["Faces: 2"@, "Edges: 6"@, "Vertices: 0"@],
                AccentColor { r: 82, g: 161, b: 125, a: 255 },
                PaneHeaderStyle::Standalone,
                true,
                true,
            ),
        ],
        DemoDockArea::Right => seq![
            pane_record(
                "Properties"@,
                "TAB"@,
                "对象属性与参数编辑。"@,
                seq!["Name: Body-01"@, "Length: 120 mm"@, "Material: Aluminum 6061"@],
                AccentColor { r: 74, g: 142, b: 169, a: 255 },
                PaneHeaderStyle::Tabbed,
                true,
                false,
            ),
            pane_record(
                "Inspector"@,
                "TAB"@,
                "几何检查与拓扑摘要。"@,
                seq!["Faces: 24"@, "Edges: 48"@, "Volume: 91.3 cm^3"@],
                AccentColor { r: 159, g: 99, b: 145, a: 255 },
                PaneHeaderStyle::Tabbed,
                true,
                true,
            ),
            pane_record(
                "Constraints"@,
                "PANE"@,
                "草图约束与状态列表。"@,
                seq!["Horizontal"@, "Coincident"@, "Equal"@],
                AccentColor { r: 191, g: 136, b: 71, a: 255 },
                PaneHeaderStyle::Standalone,
                false,
                true,
            ),
        ],
        DemoDockArea::Bottom => seq![
            pane_record(
                "Messages"@,
                "TAB"@,
                "命令反馈和日志输出。"@,
                seq!["Ready"@, "Opened 3 document tabs"@, "Active tool: Select"@],
                AccentColor { r: 75, g: 128, b: 189, a: 255 },
                PaneHeaderStyle::Tabbed,
                true,
                false,
            ),
            pane_record(
                "Tasks"@,
                "TAB"@,
                "后台任务和求解队列。"@,
                seq!["Meshing: Idle"@, "Analysis Queue: Empty"@],
                AccentColor { r: 82, g: 161, b: 125, a: 255 },
                PaneHeaderStyle::Tabbed,
                true,
                true,
            ),
            pane_record(
                "Diagnostics"@,
                "PANE"@,
                "验证与问题列表。"@,
                seq!["0 Errors"@, "1 Warning"@, "Unsaved changes in Chassis-3D"@],
                AccentColor { r: 187, g: 105, b: 86, a: 255 },
                PaneHeaderStyle::Standalone,
                false,
                true,
            ),
        ],
    }
}

/// A host's own panes carry its own titles, and no two of them share one.
pub proof fn lemma_area_titles(area: DemoDockArea)
    ensures
        pane_titles(area_panes(area)) == area_titles(area),
        no_repeats(area_titles(area)),
{
    assert(pane_titles(area_panes(area)) =~= area_titles(area));
    reveal_strlit("Command Options");
    reveal_strlit("Snaps");
    reveal_strlit("Model");
    reveal_strlit("Layers");
    reveal_strlit("History");
    reveal_strlit("Selection");
    reveal_strlit("Properties");
    reveal_strlit("Inspector");
    reveal_strlit("Constraints");
    reveal_strlit("Messages");
    reveal_strlit("Tasks");
    reveal_strlit("Diagnostics");
    let ts = area_titles(area);
    assert forall|i: int, j: int| 0 <= i < j < ts.len() implies ts[i] != ts[j] by {
        assert(ts[i].len() != ts[j].len());
    }
}

/// The container that received panes share with a host's own layout, over
/// `children`: a row for the top and bottom hosts, a column for the others.
pub open spec fn beside(area: DemoDockArea, children: Seq<u64>) -> TileShape<PaneRecord> {
    match area {
        DemoDockArea::Top => TileShape::Horizontal(children),
        DemoDockArea::Bottom => TileShape::Horizontal(children),
        DemoDockArea::Left => TileShape::Vertical(children),
        DemoDockArea::Right => TileShape::Vertical(children),
    }
}

/// Whether tile `base` of `tiles` arranges a host's own panes, whose tiles
/// come first in `ct`, as the host does: the top host's two panes in a row;
/// the left host's first three in a tab group above the fourth; the right
/// host's first two in a tab group above the third; the bottom host's first
/// two in a tab group beside the third.
pub open spec fn arranges_own(
    area: DemoDockArea,
    tiles: Map<u64, TileShape<PaneRecord>>,
    base: u64,
    ct: Seq<u64>,
) -> bool {
    tiles.dom().contains(base) && match area {
        DemoDockArea::Top => tiles[base] == TileShape::<PaneRecord>::Horizontal(seq![ct[0], ct[1]]),
        DemoDockArea::Left => match tiles[base] {
            TileShape::Vertical(k) => k.len() == 2 && k[1] == ct[3] && tiles.dom().contains(k[0])
                && tiles[k[0]] == TileShape::<PaneRecord>::Tabs(seq![ct[0], ct[1], ct[2]]),
            _ => false,
        },
        DemoDockArea::Right => match tiles[base] {
            TileShape::Vertical(k) => k.len() == 2 && k[1] == ct[2] && tiles.dom().contains(k[0])
                && tiles[k[0]] == TileShape::<PaneRecord>::Tabs(seq![ct[0], ct[1]]),
            _ => false,
        },
        DemoDockArea::Bottom => match tiles[base] {
            TileShape::Horizontal(k) => k.len() == 2 && k[1] == ct[2] && tiles.dom().contains(k[0])
                && tiles[k[0]] == TileShape::<PaneRecord>::Tabs(seq![ct[0], ct[1]]),
            _ => false,
        },
    }
}

/// Whether tile `root` of `tiles` lays out a dock host whose catalog has the
/// tiles `ct` and the panes `cp`: each catalog tile is a pane that holds its
/// catalog pane; the host's own panes are arranged as `arranges_own` says, at
/// the root when no pane was received, and otherwise in the first child of a
/// root `beside` container whose other children are the received panes'
/// tiles, in order.
pub open spec fn dock_lays_out(
    area: DemoDockArea,
    tiles: Map<u64, TileShape<PaneRecord>>,
    root: u64,
    ct: Seq<u64>,
    cp: Seq<PaneRecord>,
) -> bool {
    let n = area_titles(area).len() as int;
    &&& ct.len() == cp.len()
    &&& n <= ct.len()
    &&& forall|i: int| 0 <= i < ct.len() ==> tiles.dom().contains(#[trigger] ct[i])
        && tiles[ct[i]] == TileShape::<PaneRecord>::Pane(cp[i])
    &&& if ct.len() == n {
        arranges_own(area, tiles, root, ct)
    } else {
        &&& tiles.dom().contains(root)
        &&& exists|base: u64| #[trigger] arranges_own(area, tiles, base, ct)
            && tiles[root] == beside(area, seq![base] + ct.skip(n))
    }
}

/// One entry of a dock host's catalog: a pane, its title and its tile.
#[derive(Clone, Debug)]
struct DockPaneRecord {
    tile_id: u64,
    title: String,
    content: DemoDockContent,
}

/// The titles of catalog entries, in order.
spec fn record_titles(records: Seq<DockPaneRecord>) -> Seq<Seq<char>> {
    Seq::new(records.len(), |i: int| records[i].title@)
}

/// The tiles of catalog entries, in order.
spec fn record_tiles(records: Seq<DockPaneRecord>) -> Seq<u64> {
    Seq::new(records.len(), |i: int| records[i].tile_id)
}

/// The panes of catalog entries, in order.
spec fn record_panes(records: Seq<DockPaneRecord>) -> Seq<PaneRecord> {
    Seq::new(records.len(), |i: int| records[i].content@)
}

/// Whether a catalog gives each entry its pane's title and a tile of its
/// own, a pane tile of `tiles` that holds the entry's pane.
spec fn dock_catalog_ok(records: Seq<DockPaneRecord>, tiles: Map<u64, TileShape<PaneRecord>>) -> bool {
    &&& distinct_tiles(record_tiles(records))
    &&& forall|i: int| 0 <= i < records.len() ==> tiles.dom().contains(#[trigger] records[i].tile_id)
        && tiles[records[i].tile_id] == TileShape::<PaneRecord>::Pane(records[i].content@)
    &&& forall|i: int| 0 <= i < records.len() ==> #[trigger] records[i].content@.title == records[i].title@
}

/// A sound catalog stays sound in a larger collection of tiles.
proof fn lemma_catalog_grows(
    records: Seq<DockPaneRecord>,
    tiles: Map<u64, TileShape<PaneRecord>>,
    more: Map<u64, TileShape<PaneRecord>>,
)
    requires
        dock_catalog_ok(records, tiles),
        tiles.submap_of(more),
    ensures
        dock_catalog_ok(records, more),
{
    assert forall|i: int| 0 <= i < records.len() implies more.dom().contains(#[trigger] records[i].tile_id)
        && more[records[i].tile_id] == TileShape::<PaneRecord>::Pane(records[i].content@) by {
        assert(tiles.dom().contains(records[i].tile_id));
        assert(more.dom().contains(records[i].tile_id));
        assert(tiles[records[i].tile_id] == more[records[i].tile_id]);
    }
}

/// A host's own arrangement stays in a larger collection of tiles.
proof fn lemma_arranges_grows(
    area: DemoDockArea,
    tiles: Map<u64, TileShape<PaneRecord>>,
    more: Map<u64, TileShape<PaneRecord>>,
    base: u64,
    ct: Seq<u64>,
)
    requires
        arranges_own(area, tiles, base, ct),
        tiles.submap_of(more),
    ensures
        arranges_own(area, more, base, ct),
{
    assert(tiles.dom().contains(base));
    assert(more.dom().contains(base));
    assert(more[base] == tiles[base]);
    match tiles[base] {
        TileShape::Vertical(k) => {
            if k.len() == 2 && tiles.dom().contains(k[0]) {
                assert(more.dom().contains(k[0]));
                assert(more[k[0]] == tiles[k[0]]);
            }
        },
        TileShape::Horizontal(k) => {
            if k.len() == 2 && tiles.dom().contains(k[0]) {
                assert(more.dom().contains(k[0]));
                assert(more[k[0]] == tiles[k[0]]);
            }
        },
        _ => {},
    }
}

/// A map is a submap of itself with a key added that it did not have.
proof fn lemma_insert_fresh(m: Map<u64, TileShape<PaneRecord>>, k: u64, v: TileShape<PaneRecord>)
    requires
        !m.dom().contains(k),
    ensures
        m.submap_of(m.insert(k, v)),
{
    assert forall|x: u64| #[trigger] m.dom().contains(x) implies m.insert(k, v).dom().contains(x)
        && m[x] == m.insert(k, v)[x] by {
        assert(x != k);
    }
}

/// Stores a pane in a new tile and adds it to the catalog.
fn add_pane(tiles: &mut Tiles<DemoDockContent>, catalog: &mut Vec<DockPaneRecord>, content: DemoDockContent) -> (tile: u64)
    requires
        dock_catalog_ok(old(catalog)@, dock_tiles(*old(tiles))),
    ensures
        dock_catalog_ok(final(catalog)@, dock_tiles(*final(tiles))),
        final(catalog)@.len() == old(catalog)@.len() + 1,
        final(catalog)@.drop_last() == old(catalog)@,
        final(catalog)@.last().content@ == content@,
        final(catalog)@.last().title@ == content@.title,
        final(catalog)@.last().tile_id == tile,
        dock_tiles_hidden(*final(tiles)) == dock_tiles_hidden(*old(tiles)),
        dock_tiles(*old(tiles)).submap_of(dock_tiles(*final(tiles))),
        !dock_tiles(*old(tiles)).dom().contains(tile),
{
    let pane = content.duplicate();
    let ghost before_map = dock_tiles(*tiles);
    let tile = insert_dock_pane(tiles, pane);
    proof {
        lemma_insert_fresh(before_map, tile, TileShape::Pane(content@));
    }
    let title = content.title.clone();
    let ghost content_title = content@.title;
    let ghost content_view = content@;
    assert(title@ == content_title);
    let ghost before = catalog@;
    catalog.push(DockPaneRecord { tile_id: tile, title, content });
    assert(catalog@.drop_last() == before);
    proof {
        let m = dock_tiles(*tiles);
        assert forall|i: int, j: int| 0 <= i < j < catalog@.len()
            implies record_tiles(catalog@)[i] != record_tiles(catalog@)[j] by {
            if j == before.len() {
                assert(before_map.dom().contains(before[i].tile_id));
            } else {
                assert(record_tiles(before)[i] == record_tiles(catalog@)[i]);
                assert(record_tiles(before)[j] == record_tiles(catalog@)[j]);
            }
        }
        assert forall|i: int| 0 <= i < catalog@.len() implies m.dom().contains(#[trigger] catalog@[i].tile_id)
            && m[catalog@[i].tile_id] == TileShape::<PaneRecord>::Pane(catalog@[i].content@) by {
            if i < before.len() {
                assert(catalog@[i] == before[i]);
                assert(before_map.dom().contains(before[i].tile_id));
                assert(m.dom().contains(before[i].tile_id));
                assert(before_map[before[i].tile_id] == m[before[i].tile_id]);
            } else {
                assert(catalog@[i] == catalog@.last());
                assert(catalog@.last().content@ == content_view);
            }
        }
        assert forall|i: int| 0 <= i < catalog@.len() implies #[trigger] catalog@[i].content@.title == catalog@[i].title@ by {
            if i < before.len() {
                assert(catalog@[i] == before[i]);
                assert(before[i].content@.title == before[i].title@);
            } else {
                assert(catalog@[i] == catalog@.last());
                assert(catalog@.last().title@ == content_title);
                assert(catalog@.last().content@.title == content_title);
            }
        }
        assert(distinct_tiles(record_tiles(catalog@)));
    }
    tile
}

} // verus!

verus! {

/// Adds the imported panes to the catalog, each in a new tile, and puts them
/// beside the base layout in a row (top and bottom hosts) or a column (left
/// and right hosts). Returns the root tile.
fn attach_imported_panes(
    area: DemoDockArea,
    tiles: &mut Tiles<DemoDockContent>,
    base_root: u64,
    imported_panes: &Vec<DemoDockContent>,
    pane_catalog: &mut Vec<DockPaneRecord>,
) -> (root: u64)
    requires
        dock_catalog_ok(old(pane_catalog)@, dock_tiles(*old(tiles))),
    ensures
        dock_catalog_ok(final(pane_catalog)@, dock_tiles(*final(tiles))),
        final(pane_catalog)@.len() == old(pane_catalog)@.len() + imported_panes@.len(),
        final(pane_catalog)@.take(old(pane_catalog)@.len() as int) == old(pane_catalog)@,
        record_titles(final(pane_catalog)@)
            == record_titles(old(pane_catalog)@) + pane_titles(pane_records(imported_panes@)),
        record_panes(final(pane_catalog)@) == record_panes(old(pane_catalog)@) + pane_records(imported_panes@),
        dock_tiles_hidden(*final(tiles)) == dock_tiles_hidden(*old(tiles)),
        dock_tiles(*old(tiles)).submap_of(dock_tiles(*final(tiles))),
        imported_panes@.len() == 0 ==> root == base_root,
        imported_panes@.len() > 0 ==> dock_tiles(*final(tiles)).dom().contains(root)
            && dock_tiles(*final(tiles))[root] == beside(
                area,
                seq![base_root] + record_tiles(final(pane_catalog)@).skip(old(pane_catalog)@.len() as int),
            ),
{
    let ghost start = pane_catalog@;
    let ghost map0 = dock_tiles(*tiles);
    if imported_panes.len() == 0 {
        assert(pane_titles(pane_records(imported_panes@)) =~= Seq::<Seq<char>>::empty());
        assert(record_titles(pane_catalog@) =~= record_titles(start) + Seq::<Seq<char>>::empty());
        assert(record_panes(pane_catalog@) =~= record_panes(start) + pane_records(imported_panes@));
        assert(pane_catalog@.take(start.len() as int) =~= start);
        assert(map0.submap_of(map0));
        return base_root;
    }
    let mut children: Vec<u64> = Vec::new();
    children.push(base_root);
    let ghost hidden0 = dock_tiles_hidden(*tiles);
    let mut i: usize = 0;
    assert(pane_catalog@.take(start.len() as int) =~= start);
    assert(record_tiles(pane_catalog@).skip(start.len() as int) =~= Seq::<u64>::empty());
    assert(children@ =~= seq![base_root] + record_tiles(pane_catalog@).skip(start.len() as int));
    assert(map0.submap_of(map0));
    while i < imported_panes.len()
        invariant
            i <= imported_panes.len(),
            dock_catalog_ok(pane_catalog@, dock_tiles(*tiles)),
            pane_catalog@.len() == start.len() + i,
            pane_catalog@.take(start.len() as int) == start,
            record_titles(pane_catalog@)
                == record_titles(start) + pane_titles(pane_records(imported_panes@.take(i as int))),
            record_panes(pane_catalog@) == record_panes(start) + pane_records(imported_panes@.take(i as int)),
            dock_tiles_hidden(*tiles) == hidden0,
            map0.submap_of(dock_tiles(*tiles)),
            children@ == seq![base_root] + record_tiles(pane_catalog@).skip(start.len() as int),
        decreases imported_panes.len() - i,
    {
        let ghost before = pane_catalog@;
        let ghost map_before = dock_tiles(*tiles);
        let ghost kids_before = children@;
        let tile = add_pane(tiles, pane_catalog, imported_panes[i].duplicate());
        children.push(tile);
        proof {
            vstd::map_lib::lemma_submap_of_trans(map0, map_before, dock_tiles(*tiles));
            let taken = imported_panes@.take(i + 1);
            assert(pane_records(taken) =~= pane_records(imported_panes@.take(i as int)).push(imported_panes@[i as int]@));
            assert(pane_catalog@ == before.push(pane_catalog@.last()));
            assert(pane_catalog@.take(start.len() as int) =~= before.take(start.len() as int));
            assert(record_titles(pane_catalog@) =~= record_titles(before).push(imported_panes@[i as int]@.title));
            assert(pane_titles(pane_records(taken))
                =~= pane_titles(pane_records(imported_panes@.take(i as int))).push(imported_panes@[i as int]@.title));
            assert(record_titles(pane_catalog@)
                =~= record_titles(start) + pane_titles(pane_records(taken)));
            assert(record_panes(pane_catalog@) =~= record_panes(before).push(imported_panes@[i as int]@));
            assert(record_panes(pane_catalog@) =~= record_panes(start) + pane_records(taken));
            assert(record_tiles(pane_catalog@) =~= record_tiles(before).push(tile));
            assert(record_tiles(pane_catalog@).skip(start.len() as int)
                =~= record_tiles(before).skip(start.len() as int).push(tile));
            assert(children@ =~= seq![base_root] + record_tiles(pane_catalog@).skip(start.len() as int));
        }
        i = i + 1;
    }
    assert(imported_panes@.take(imported_panes@.len() as int) == imported_panes@);
    let ghost kids = children@;
    let ghost map1 = dock_tiles(*tiles);
    let root = match area {
        DemoDockArea::Top | DemoDockArea::Bottom => insert_dock_row(tiles, children),
        DemoDockArea::Left | DemoDockArea::Right => insert_dock_column(tiles, children),
    };
    proof {
        lemma_insert_fresh(map1, root, dock_tiles(*tiles)[root]);
        vstd::map_lib::lemma_submap_of_trans(map0, map1, dock_tiles(*tiles));
        lemma_catalog_grows(pane_catalog@, map1, dock_tiles(*tiles));
    }
    root
}

/// What building a dock host's tree promises: its catalog lists the host's
/// own panes and then the imported ones, each in a tile of its own, the tree
/// lays them out, and no tile is hidden.
spec fn built_for(
    area: DemoDockArea,
    imported: Seq<DemoDockContent>,
    tree: Tree<DemoDockContent>,
    catalog: Seq<DockPaneRecord>,
) -> bool {
    &&& record_titles(catalog) == area_titles(area) + pane_titles(pane_records(imported))
    &&& record_panes(catalog) == area_panes(area) + pane_records(imported)
    &&& distinct_tiles(record_tiles(catalog))
    &&& forall|i: int| 0 <= i < catalog.len() ==> #[trigger] catalog[i].content@.title == catalog[i].title@
    &&& dock_tree_hidden(tree) == Set::<u64>::empty()
    &&& dock_tree_root(tree) matches Some(root)
        && dock_lays_out(area, dock_tree_tiles(tree), root, record_tiles(catalog), record_panes(catalog))
}

/// The rest of a host's tree once its own panes are in the catalog and
/// arranged under `base_root`: the imported panes, and the tree itself.
fn finish_tree(
    area: DemoDockArea,
    name: &'static str,
    mut tiles: Tiles<DemoDockContent>,
    base_root: u64,
    imported_panes: &Vec<DemoDockContent>,
    mut pane_catalog: Vec<DockPaneRecord>,
) -> (r: (Tree<DemoDockContent>, Vec<DockPaneRecord>))
    requires
        dock_catalog_ok(pane_catalog@, dock_tiles(tiles)),
        record_titles(pane_catalog@) == area_titles(area),
        record_panes(pane_catalog@) == area_panes(area),
        arranges_own(area, dock_tiles(tiles), base_root, record_tiles(pane_catalog@)),
        dock_tiles_hidden(tiles) == Set::<u64>::empty(),
    ensures
        built_for(area, imported_panes@, r.0, r.1@),
{
    let ghost base = pane_catalog@;
    let ghost map0 = dock_tiles(tiles);
    let root = attach_imported_panes(area, &mut tiles, base_root, imported_panes, &mut pane_catalog);
    proof {
        let n = area_titles(area).len() as int;
        let cat = pane_catalog@;
        let m = dock_tiles(tiles);
        assert(record_titles(base).len() == n);
        assert(base.len() == n);
        let ct = record_tiles(cat);
        let cp = record_panes(cat);
        assert(record_panes(cat) =~= area_panes(area) + pane_records(imported_panes@));
        assert forall|i: int| 0 <= i < n implies #[trigger] ct[i] == record_tiles(base)[i] by {
            assert(cat.take(n)[i] == base[i]);
        }
        lemma_arranges_grows(area, map0, m, base_root, record_tiles(base));
        assert(arranges_own(area, m, base_root, ct));
        assert forall|i: int| 0 <= i < ct.len() implies m.dom().contains(#[trigger] ct[i])
            && m[ct[i]] == TileShape::<PaneRecord>::Pane(cp[i]) by {
            assert(ct[i] == cat[i].tile_id);
            assert(cp[i] == cat[i].content@);
        }
        if imported_panes@.len() > 0 {
            assert(arranges_own(area, m, base_root, ct));
            assert(m[root] == beside(area, seq![base_root] + ct.skip(n)));
        }
    }
    (new_dock_tree(name, root, tiles), pane_catalog)
}

} // verus!

verus! {

/// The catalog titles after adding panes titled `ts`, in order, to an empty catalog.
proof fn lemma_titles_after(catalog: Seq<DockPaneRecord>, ts: Seq<Seq<char>>)
    requires
        catalog.len() == ts.len(),
        forall|i: int| 0 <= i < catalog.len() ==> #[trigger] catalog[i].title@ == ts[i],
    ensures
        record_titles(catalog) == ts,
{
    assert(record_titles(catalog) =~= ts);
}

/// The catalog panes after adding the panes `ps`, in order, to an empty catalog.
proof fn lemma_panes_after(catalog: Seq<DockPaneRecord>, ps: Seq<PaneRecord>)
    requires
        catalog.len() == ps.len(),
        forall|i: int| 0 <= i < catalog.len() ==> #[trigger] catalog[i].content@ == ps[i],
    ensures
        record_panes(catalog) == ps,
{
    assert(record_panes(catalog) =~= ps);
}

fn build_top_tree(imported_panes: &Vec<DemoDockContent>) -> (r: (Tree<DemoDockContent>, Vec<DockPaneRecord>))
    ensures
        built_for(DemoDockArea::Top, imported_panes@, r.0, r.1@),
{
    let ghost own = area_panes(DemoDockArea::Top);
    let mut tiles = new_dock_tiles();
    let mut catalog: Vec<DockPaneRecord> = Vec::new();
    let lines = vec![owned("Operation: Sketch / Extrude / Measure"), owned("Selection Filter: Bodies / Sketches / Datum")];
    assert(texts(lines@) =~= own[0].lines);
    let command = add_pane(
        &mut tiles,
        &mut catalog,
        DemoDockContent::new(
            "Command Options",
            "CMD",
            "当前命令的即时参数和选择过滤器。",
            lines,
            AccentColor::from_rgb(93, 135, 195),
        ).standalone().closable(false),
    );
    let ghost c1 = catalog@;
    let lines = vec![owned("Grid Snap: On"), owned("Constraint Hints: Visible")];
    assert(texts(lines@) =~= own[1].lines);
    let snaps = add_pane(
        &mut tiles,
        &mut catalog,
        DemoDockContent::new(
            "Snaps",
            "AID",
            "草图辅助和捕捉开关。",
            lines,
            AccentColor::from_rgb(82, 161, 125),
        ).standalone(),
    );
    let ghost c2 = catalog@;
    proof {
        assert(c1.last().content@ == own[0]);
        assert(c2.last().content@ == own[1]);
        assert(catalog@[0] == c1[0]);
        lemma_titles_after(catalog@, area_titles(DemoDockArea::Top));
        lemma_panes_after(catalog@, own);
    }
    let ghost map2 = dock_tiles(tiles);
    let base_root = insert_dock_row(&mut tiles, vec![command, snaps]);
    proof {
        lemma_insert_fresh(map2, base_root, dock_tiles(tiles)[base_root]);
        lemma_catalog_grows(catalog@, map2, dock_tiles(tiles));
        assert(record_tiles(catalog@)[0] == command);
        assert(record_tiles(catalog@)[1] == snaps);
    }
    finish_tree(DemoDockArea::Top, "dock_top_tree", tiles, base_root, imported_panes, catalog)
}

fn build_left_tree(imported_panes: &Vec<DemoDockContent>) -> (r: (Tree<DemoDockContent>, Vec<DockPaneRecord>))
    ensures
        built_for(DemoDockArea::Left, imported_panes@, r.0, r.1@),
{
    let ghost own = area_panes(DemoDockArea::Left);
    let mut tiles = new_dock_tiles();
    let mut catalog: Vec<DockPaneRecord> = Vec::new();
    let lines = vec![owned("Assembly"), owned("Body-01"), owned("Sketch-02")];
    assert(texts(lines@) =~= own[0].lines);
    let model = add_pane(
        &mut tiles,
        &mut catalog,
        DemoDockContent::new(
            "Model",
            "TAB",
            "装配结构和对象树。",
            lines,
            AccentColor::from_rgb(85, 133, 184),
        ).tabbed().closable(false),
    );
    let ghost c1 = catalog@;
    let lines = vec![owned("Default"), owned("Construction"), owned("Dimensions")];
    assert(texts(lines@) =~= own[1].lines);
    let layers = add_pane(
        &mut tiles,
        &mut catalog,
        DemoDockContent::new(
            "Layers",
            "TAB",
            "图层显隐和锁定控制。",
            lines,
            AccentColor::from_rgb(131, 110, 182),
        ).tabbed(),
    );
    let ghost c2 = catalog@;
    let lines = vec![owned("Sketch-01"), owned("Extrude-01"), owned("Fillet-02")];
    assert(texts(lines@) =~= own[2].lines);
    let history = add_pane(
        &mut tiles,
        &mut catalog,
        DemoDockContent::new(
            "History",
            "TAB",
            "参数化特征历史。",
            lines,
            AccentColor::from_rgb(189, 125, 67),
        ).tabbed(),
    );
    let ghost c3 = catalog@;
    let lines = vec![owned("Faces: 2"), owned("Edges: 6"), owned("Vertices: 0")];
    assert(texts(lines@) =~= own[3].lines);
    let selection = add_pane(
        &mut tiles,
        &mut catalog,
        DemoDockContent::new(
            "Selection",
            "PANE",
            "当前选择集摘要。",
            lines,
            AccentColor::from_rgb(82, 161, 125),
        ).standalone(),
    );
    let ghost c4 = catalog@;
    proof {
        assert(c1.last().content@ == own[0]);
        assert(c2.last().content@ == own[1]);
        assert(c3.last().content@ == own[2]);
        assert(c4.last().content@ == own[3]);
        assert(catalog@[0] == c1[0]);
        assert(catalog@[1] == c2[1]);
        assert(catalog@[2] == c3[2]);
        lemma_titles_after(catalog@, area_titles(DemoDockArea::Left));
        lemma_panes_after(catalog@, own);
    }
    let ghost map4 = dock_tiles(tiles);
    let tab_group = insert_dock_tabs(&mut tiles, vec![model, layers, history]);
    let ghost map5 = dock_tiles(tiles);
    let base_root = insert_dock_column(&mut tiles, vec![tab_group, selection]);
    proof {
        lemma_insert_fresh(map4, tab_group, map5[tab_group]);
        lemma_insert_fresh(map5, base_root, dock_tiles(tiles)[base_root]);
        vstd::map_lib::lemma_submap_of_trans(map4, map5, dock_tiles(tiles));
        lemma_catalog_grows(catalog@, map4, dock_tiles(tiles));
        assert(record_tiles(catalog@)[0] == model);
        assert(record_tiles(catalog@)[1] == layers);
        assert(record_tiles(catalog@)[2] == history);
        assert(record_tiles(catalog@)[3] == selection);
        assert(dock_tiles(tiles).dom().contains(tab_group));
        assert(dock_tiles(tiles)[tab_group] == map5[tab_group]);
    }
    finish_tree(DemoDockArea::Left, "dock_left_tree", tiles, base_root, imported_panes, catalog)
}

fn build_right_tree(imported_panes: &Vec<DemoDockContent>) -> (r: (Tree<DemoDockContent>, Vec<DockPaneRecord>))
    ensures
        built_for(DemoDockArea::Right, imported_panes@, r.0, r.1@),
{
    let ghost own = area_panes(DemoDockArea::Right);
    let mut tiles = new_dock_tiles();
    let mut catalog: Vec<DockPaneRecord> = Vec::new();
    let lines = vec![owned("Name: Body-01"), owned("Length: 120 mm"), owned("Material: Aluminum 6061")];
    assert(texts(lines@) =~= own[0].lines);
    let properties = add_pane(
        &mut tiles,
        &mut catalog,
        DemoDockContent::new(
            "Properties",
            "TAB",
            "对象属性与参数编辑。",
            lines,
            AccentColor::from_rgb(74, 142, 169),
        ).tabbed().closable(false),
    );
    let ghost c1 = catalog@;
    let lines = vec![owned("Faces: 24"), owned("Edges: 48"), owned("Volume: 91.3 cm^3")];
    assert(texts(lines@) =~= own[1].lines);
    let inspector = add_pane(
        &mut tiles,
        &mut catalog,
        DemoDockContent::new(
            "Inspector",
            "TAB",
            "几何检查与拓扑摘要。",
            lines,
            AccentColor::from_rgb(159, 99, 145),
        ).tabbed(),
    );
    let ghost c2 = catalog@;
    let lines = vec![owned("Horizontal"), owned("Coincident"), owned("Equal")];
    assert(texts(lines@) =~= own[2].lines);
    let constraints = add_pane(
        &mut tiles,
        &mut catalog,
        DemoDockContent::new(
            "Constraints",
            "PANE",
            "草图约束与状态列表。",
            lines,
            AccentColor::from_rgb(191, 136, 71),
        ).standalone().pinned(false),
    );
    let ghost c3 = catalog@;
    proof {
        assert(c1.last().content@ == own[0]);
        assert(c2.last().content@ == own[1]);
        assert(c3.last().content@ == own[2]);
        assert(catalog@[0] == c1[0]);
        assert(catalog@[1] == c2[1]);
        lemma_titles_after(catalog@, area_titles(DemoDockArea::Right));
        lemma_panes_after(catalog@, own);
    }
    let ghost map3 = dock_tiles(tiles);
    let top_tabs = insert_dock_tabs(&mut tiles, vec![properties, inspector]);
    let ghost map4 = dock_tiles(tiles);
    let base_root = insert_dock_column(&mut tiles, vec![top_tabs, constraints]);
    proof {
        lemma_insert_fresh(map3, top_tabs, map4[top_tabs]);
        lemma_insert_fresh(map4, base_root, dock_tiles(tiles)[base_root]);
        vstd::map_lib::lemma_submap_of_trans(map3, map4, dock_tiles(tiles));
        lemma_catalog_grows(catalog@, map3, dock_tiles(tiles));
        assert(record_tiles(catalog@)[0] == properties);
        assert(record_tiles(catalog@)[1] == inspector);
        assert(record_tiles(catalog@)[2] == constraints);
        assert(dock_tiles(tiles).dom().contains(top_tabs));
        assert(dock_tiles(tiles)[top_tabs] == map4[top_tabs]);
    }
    finish_tree(DemoDockArea::Right, "dock_right_tree", tiles, base_root, imported_panes, catalog)
}

fn build_bottom_tree(imported_panes: &Vec<DemoDockContent>) -> (r: (Tree<DemoDockContent>, Vec<DockPaneRecord>))
    ensures
        built_for(DemoDockArea::Bottom, imported_panes@, r.0, r.1@),
{
    let ghost own = area_panes(DemoDockArea::Bottom);
    let mut tiles = new_dock_tiles();
    let mut catalog: Vec<DockPaneRecord> = Vec::new();
    let lines = vec![owned("Ready"), owned("Opened 3 document tabs"), owned("Active tool: Select")];
    assert(texts(lines@) =~= own[0].lines);
    let messages = add_pane(
        &mut tiles,
        &mut catalog,
        DemoDockContent::new(
            "Messages",
            "TAB",
            "命令反馈和日志输出。",
            lines,
            AccentColor::from_rgb(75, 128, 189),
        ).tabbed().closable(false),
    );
    let ghost c1 = catalog@;
    let lines = vec![owned("Meshing: Idle"), owned("Analysis Queue: Empty")];
    assert(texts(lines@) =~= own[1].lines);
    let tasks = add_pane(
        &mut tiles,
        &mut catalog,
        DemoDockContent::new(
            "Tasks",
            "TAB",
            "后台任务和求解队列。",
            lines,
            AccentColor::from_rgb(82, 161, 125),
        ).tabbed(),
    );
    let ghost c2 = catalog@;
    let lines = vec![owned("0 Errors"), owned("1 Warning"), owned("Unsaved changes in Chassis-3D")];
    assert(texts(lines@) =~= own[2].lines);
    let diagnostics = add_pane(
        &mut tiles,
        &mut catalog,
        DemoDockContent::new(
            "Diagnostics",
            "PANE",
            "验证与问题列表。",
            lines,
            AccentColor::from_rgb(187, 105, 86),
        ).standalone().pinned(false),
    );
    let ghost c3 = catalog@;
    proof {
        assert(c1.last().content@ == own[0]);
        assert(c2.last().content@ == own[1]);
        assert(c3.last().content@ == own[2]);
        assert(catalog@[0] == c1[0]);
        assert(catalog@[1] == c2[1]);
        lemma_titles_after(catalog@, area_titles(DemoDockArea::Bottom));
        lemma_panes_after(catalog@, own);
    }
    let ghost map3 = dock_tiles(tiles);
    let left_tabs = insert_dock_tabs(&mut tiles, vec![messages, tasks]);
    let ghost map4 = dock_tiles(tiles);
    let base_root = insert_dock_row(&mut tiles, vec![left_tabs, diagnostics]);
    proof {
        lemma_insert_fresh(map3, left_tabs, map4[left_tabs]);
        lemma_insert_fresh(map4, base_root, dock_tiles(tiles)[base_root]);
        vstd::map_lib::lemma_submap_of_trans(map3, map4, dock_tiles(tiles));
        lemma_catalog_grows(catalog@, map3, dock_tiles(tiles));
        assert(record_tiles(catalog@)[0] == messages);
        assert(record_tiles(catalog@)[1] == tasks);
        assert(record_tiles(catalog@)[2] == diagnostics);
        assert(dock_tiles(tiles).dom().contains(left_tabs));
        assert(dock_tiles(tiles)[left_tabs] == map4[left_tabs]);
    }
    finish_tree(DemoDockArea::Bottom, "dock_bottom_tree", tiles, base_root, imported_panes, catalog)
}

/// The tree and catalog of a dock host: its own panes and then the imported ones.
fn build_tree_for_area(area: DemoDockArea, imported_panes: &Vec<DemoDockContent>) -> (r: (
    Tree<DemoDockContent>,
    Vec<DockPaneRecord>,
))
    ensures
        built_for(area, imported_panes@, r.0, r.1@),
{
    match area {
        DemoDockArea::Top => build_top_tree(imported_panes),
        DemoDockArea::Left => build_left_tree(imported_panes),
        DemoDockArea::Right => build_right_tree(imported_panes),
        DemoDockArea::Bottom => build_bottom_tree(imported_panes),
    }
}

} // verus!

verus! {

/// The set holding the tile, if there is one.
pub open spec fn opt_set(tile: Option<u64>) -> Set<u64> {
    match tile {
        Some(x) => set![x],
        None => Set::empty(),
    }
}

/// Whether a request to close `t` closes a pane of the catalog (`titles`,
/// `panes`): one that is closable, and neither closed nor moved away.
pub open spec fn closes_pane(
    titles: Seq<Seq<char>>,
    panes: Seq<PaneRecord>,
    transferred: Seq<Seq<char>>,
    closed: Seq<Seq<char>>,
    t: Seq<char>,
) -> bool {
    &&& titles.contains(t)
    &&& !closed.contains(t)
    &&& !transferred.contains(t)
    &&& panes[first_index(titles, t)].closable
}

/// The closed list after a request to close `t`: it joins the end when the
/// request closes a pane, and the request is passed over otherwise.
pub open spec fn dock_close(
    titles: Seq<Seq<char>>,
    panes: Seq<PaneRecord>,
    transferred: Seq<Seq<char>>,
    closed: Seq<Seq<char>>,
    t: Seq<char>,
) -> Seq<Seq<char>> {
    if closes_pane(titles, panes, transferred, closed, t) {
        closed.push(t)
    } else {
        closed
    }
}

/// The closed list after requests to close each of `ts`, in order.
pub open spec fn dock_closes(
    titles: Seq<Seq<char>>,
    panes: Seq<PaneRecord>,
    transferred: Seq<Seq<char>>,
    closed: Seq<Seq<char>>,
    ts: Seq<Seq<char>>,
) -> Seq<Seq<char>>
    decreases ts.len(),
{
    if ts.len() == 0 {
        closed
    } else {
        dock_close(titles, panes, transferred, dock_closes(titles, panes, transferred, closed, ts.drop_last()), ts.last())
    }
}

/// `tiles_for` grows by the tile of each title added.
pub proof fn lemma_tiles_for_insert(titles: Seq<Seq<char>>, tiles: Seq<u64>, ts: Set<Seq<char>>, t: Seq<char>)
    ensures
        tiles_for(titles, tiles, ts.insert(t)) == tiles_for(titles, tiles, ts).union(opt_set(tile_for(titles, tiles, t))),
{
    let lhs = tiles_for(titles, tiles, ts.insert(t));
    let rhs = tiles_for(titles, tiles, ts).union(opt_set(tile_for(titles, tiles, t)));
    assert forall|x: u64| lhs.contains(x) <==> rhs.contains(x) by {
        if lhs.contains(x) {
            let u = choose|u: Seq<char>| #[trigger] ts.insert(t).contains(u) && tile_for(titles, tiles, u) == Some(x);
            if u != t {
                assert(ts.contains(u));
            }
        }
        if tiles_for(titles, tiles, ts).contains(x) {
            let u = choose|u: Seq<char>| #[trigger] ts.contains(u) && tile_for(titles, tiles, u) == Some(x);
            assert(ts.insert(t).contains(u));
        }
        if opt_set(tile_for(titles, tiles, t)).contains(x) {
            assert(ts.insert(t).contains(t));
        }
    }
    assert(lhs =~= rhs);
}

/// `with_visibility` adds or takes out the tile's singleton.
pub proof fn lemma_with_visibility(hidden: Set<u64>, tile: Option<u64>)
    ensures
        with_visibility(hidden, tile, false) == hidden.union(opt_set(tile)),
        with_visibility(hidden, tile, true) == hidden.difference(opt_set(tile)),
{
    assert(with_visibility(hidden, tile, false) =~= hidden.union(opt_set(tile)));
    assert(with_visibility(hidden, tile, true) =~= hidden.difference(opt_set(tile)));
}

/// `tiles_for` of a union is the union of the `tiles_for` of its parts.
pub proof fn lemma_tiles_for_union(titles: Seq<Seq<char>>, tiles: Seq<u64>, a: Set<Seq<char>>, b: Set<Seq<char>>)
    ensures
        tiles_for(titles, tiles, a.union(b)) == tiles_for(titles, tiles, a).union(tiles_for(titles, tiles, b)),
{
    let lhs = tiles_for(titles, tiles, a.union(b));
    let rhs = tiles_for(titles, tiles, a).union(tiles_for(titles, tiles, b));
    assert forall|x: u64| lhs.contains(x) <==> rhs.contains(x) by {
        if lhs.contains(x) {
            let u = choose|u: Seq<char>| #[trigger] a.union(b).contains(u) && tile_for(titles, tiles, u) == Some(x);
            if a.contains(u) {
                assert(tiles_for(titles, tiles, a).contains(x));
            } else {
                assert(tiles_for(titles, tiles, b).contains(x));
            }
        }
        if tiles_for(titles, tiles, a).contains(x) {
            let u = choose|u: Seq<char>| #[trigger] a.contains(u) && tile_for(titles, tiles, u) == Some(x);
            assert(a.union(b).contains(u));
        }
        if tiles_for(titles, tiles, b).contains(x) {
            let u = choose|u: Seq<char>| #[trigger] b.contains(u) && tile_for(titles, tiles, u) == Some(x);
            assert(a.union(b).contains(u));
        }
    }
    assert(lhs =~= rhs);
}

/// In a catalog whose tiles are all different, different titles that have a
/// tile have different tiles.
proof fn lemma_tile_for_injective(titles: Seq<Seq<char>>, tiles: Seq<u64>, u: Seq<char>, t: Seq<char>)
    requires
        titles.len() == tiles.len(),
        distinct_tiles(tiles),
        u != t,
        tile_for(titles, tiles, u) is Some,
    ensures
        tile_for(titles, tiles, u) != tile_for(titles, tiles, t),
{
    lemma_first_index(titles, u);
    lemma_first_index(titles, t);
    let i = first_index(titles, u);
    let j = first_index(titles, t);
    if 0 <= j < tiles.len() {
        assert(titles[i] != titles[j]);
        if i < j {
            assert(tiles[i] != tiles[j]);
        } else {
            assert(tiles[j] != tiles[i]);
        }
    }
}

/// Taking a title out of a set takes its tile out of `tiles_for`, when the
/// catalog's tiles are all different.
proof fn lemma_tiles_for_remove(titles: Seq<Seq<char>>, tiles: Seq<u64>, s: Set<Seq<char>>, t: Seq<char>)
    requires
        titles.len() == tiles.len(),
        distinct_tiles(tiles),
    ensures
        tiles_for(titles, tiles, s.remove(t)) == tiles_for(titles, tiles, s).difference(opt_set(tile_for(titles, tiles, t))),
{
    let lhs = tiles_for(titles, tiles, s.remove(t));
    let rhs = tiles_for(titles, tiles, s).difference(opt_set(tile_for(titles, tiles, t)));
    assert forall|x: u64| lhs.contains(x) <==> rhs.contains(x) by {
        if lhs.contains(x) {
            let u = choose|u: Seq<char>| #[trigger] s.remove(t).contains(u) && tile_for(titles, tiles, u) == Some(x);
            assert(s.contains(u));
            lemma_tile_for_injective(titles, tiles, u, t);
        }
        if rhs.contains(x) {
            let u = choose|u: Seq<char>| #[trigger] s.contains(u) && tile_for(titles, tiles, u) == Some(x);
            if u == t {
                assert(opt_set(tile_for(titles, tiles, t)).contains(x));
            }
            assert(s.remove(t).contains(u));
        }
    }
    assert(lhs =~= rhs);
}

/// When no title of `c` is in `m`, the tiles of `m` are those of `c` and `m`
/// together less those of `c`, for a catalog whose tiles are all different.
proof fn lemma_tiles_for_disjoint(titles: Seq<Seq<char>>, tiles: Seq<u64>, c: Set<Seq<char>>, m: Set<Seq<char>>)
    requires
        titles.len() == tiles.len(),
        distinct_tiles(tiles),
        c.disjoint(m),
    ensures
        tiles_for(titles, tiles, m) == tiles_for(titles, tiles, c.union(m)).difference(tiles_for(titles, tiles, c)),
{
    lemma_tiles_for_union(titles, tiles, c, m);
    let lhs = tiles_for(titles, tiles, m);
    let rhs = tiles_for(titles, tiles, c.union(m)).difference(tiles_for(titles, tiles, c));
    assert forall|x: u64| lhs.contains(x) <==> rhs.contains(x) by {
        if lhs.contains(x) {
            let u = choose|u: Seq<char>| #[trigger] m.contains(u) && tile_for(titles, tiles, u) == Some(x);
            if tiles_for(titles, tiles, c).contains(x) {
                let w = choose|w: Seq<char>| #[trigger] c.contains(w) && tile_for(titles, tiles, w) == Some(x);
                if w != u {
                    lemma_tile_for_injective(titles, tiles, w, u);
                }
                assert(!m.contains(w));
            }
        }
    }
    assert(lhs =~= rhs);
}

/// Closing in turn keeps the closed list as a prefix and never lists a
/// title twice; each title it adds was requested, is a closable pane of the
/// catalog, and is not moved away.
pub proof fn lemma_dock_closes(
    titles: Seq<Seq<char>>,
    panes: Seq<PaneRecord>,
    transferred: Seq<Seq<char>>,
    closed: Seq<Seq<char>>,
    ts: Seq<Seq<char>>,
)
    ensures
        dock_closes(titles, panes, transferred, closed, ts).len() >= closed.len(),
        dock_closes(titles, panes, transferred, closed, ts).subrange(0, closed.len() as int) == closed,
        forall|k: int| #![trigger dock_closes(titles, panes, transferred, closed, ts)[k]]
            closed.len() <= k < dock_closes(titles, panes, transferred, closed, ts).len() ==> {
                let t = dock_closes(titles, panes, transferred, closed, ts)[k];
                &&& titles.contains(t)
                &&& !transferred.contains(t)
                &&& panes[first_index(titles, t)].closable
                &&& ts.contains(t)
            },
        no_repeats(closed) ==> no_repeats(dock_closes(titles, panes, transferred, closed, ts)),
    decreases ts.len(),
{
    let r = dock_closes(titles, panes, transferred, closed, ts);
    if ts.len() == 0 {
        assert(r.subrange(0, closed.len() as int) =~= closed);
    } else {
        let init = ts.drop_last();
        let t = ts.last();
        lemma_dock_closes(titles, panes, transferred, closed, init);
        let before = dock_closes(titles, panes, transferred, closed, init);
        assert(ts == init.push(t));
        assert forall|x: Seq<char>| init.contains(x) implies ts.contains(x) by {
            lemma_push_contains(init, t, x);
        }
        assert(ts.contains(t)) by {
            lemma_push_contains(init, t, t);
        }
        if closes_pane(titles, panes, transferred, before, t) {
            assert(r == before.push(t));
            assert(r.subrange(0, closed.len() as int) =~= before.subrange(0, closed.len() as int));
            assert forall|k: int| closed.len() <= k < r.len() implies {
                let u = #[trigger] r[k];
                &&& titles.contains(u)
                &&& !transferred.contains(u)
                &&& panes[first_index(titles, u)].closable
                &&& ts.contains(u)
            } by {
                if k < before.len() {
                    assert(r[k] == before[k]);
                }
            }
            if no_repeats(before) {
                assert forall|i: int, j: int| 0 <= i < j < r.len() implies r[i] != r[j] by {
                    if j == before.len() {
                        assert(before.contains(before[i]));
                    }
                }
            }
        }
    }
}

/// The catalog has as many tiles as titles.
proof fn lemma_catalog_lengths(l: DemoDockLayout)
    ensures
        l.catalog_titles().len() == l.catalog_tiles().len(),
{
}

/// The titles of a host's own panes, in catalog order.
fn own_titles(area: DemoDockArea) -> (titles: Vec<String>)
    ensures
        texts(titles@) == area_titles(area),
{
    let titles = match area {
        DemoDockArea::Top => vec![owned("Command Options"), owned("Snaps")],
        DemoDockArea::Left => vec![owned("Model"), owned("Layers"), owned("History"), owned("Selection")],
        DemoDockArea::Right => vec![owned("Properties"), owned("Inspector"), owned("Constraints")],
        DemoDockArea::Bottom => vec![owned("Messages"), owned("Tasks"), owned("Diagnostics")],
    };
    assert(texts(titles@) =~= area_titles(area));
    titles
}

/// The index of the first catalog entry titled `title`.
fn find_record(catalog: &Vec<DockPaneRecord>, title: &str) -> (r: Option<usize>)
    ensures
        match r {
            Some(i) => i == first_index(record_titles(catalog@), title@),
            None => first_index(record_titles(catalog@), title@) == -1,
        },
{
    let ghost ts = record_titles(catalog@);
    let mut i: usize = 0;
    while i < catalog.len()
        invariant
            i <= catalog.len(),
            ts == record_titles(catalog@),
            forall|j: int| 0 <= j < i ==> ts[j] != title@,
        decreases catalog.len() - i,
    {
        if same_text(&catalog[i].title, title) {
            proof {
                lemma_first_index_is(ts, title@, i as int);
            }
            return Some(i);
        }
        i = i + 1;
    }
    proof {
        lemma_first_index(ts, title@);
        if ts.contains(title@) {
            let k = choose|k: int| 0 <= k < ts.len() && ts[k] == title@;
            assert(ts[k] != title@);
        }
    }
    None
}

/// The layout of one dock host: an `egui_tiles` tree of its panes, a catalog
/// of them by title, the panes received from other hosts, and the titles of
/// the panes closed here and of those moved to other hosts (both hidden).
pub struct DemoDockLayout {
    area: DemoDockArea,
    tree: Tree<DemoDockContent>,
    pane_catalog: Vec<DockPaneRecord>,
    imported_panes: Vec<DemoDockContent>,
    closed_titles: Vec<String>,
    transferred_titles: Vec<String>,
}

/// The bit pattern of the `f32` 24.0: the height of a dock host's tab bars.
pub const DOCK_TAB_BAR_HEIGHT_BITS: u32 = 0x41c0_0000u32;

/// The bit pattern of the `f32` 2.0: the width of the gaps between dock panes.
pub const DOCK_GAP_WIDTH_BITS: u32 = 0x4000_0000u32;

impl DemoDockLayout {
    pub closed spec fn area(&self) -> DemoDockArea {
        self.area
    }

    /// The titles of the catalog entries, in order.
    pub closed spec fn catalog_titles(&self) -> Seq<Seq<char>> {
        record_titles(self.pane_catalog@)
    }

    /// The tiles of the catalog entries, in order.
    pub closed spec fn catalog_tiles(&self) -> Seq<u64> {
        record_tiles(self.pane_catalog@)
    }

    /// The panes of the catalog entries, in order.
    pub closed spec fn catalog_panes(&self) -> Seq<PaneRecord> {
        record_panes(self.pane_catalog@)
    }

    /// The panes received from other hosts, in order.
    pub closed spec fn imported(&self) -> Seq<PaneRecord> {
        pane_records(self.imported_panes@)
    }

    /// The titles of the panes closed here, in the order they were closed.
    pub closed spec fn closed(&self) -> Seq<Seq<char>> {
        texts(self.closed_titles@)
    }

    /// The titles of the panes moved to other hosts.
    pub closed spec fn transferred(&self) -> Seq<Seq<char>> {
        texts(self.transferred_titles@)
    }

    pub closed spec fn tree(&self) -> Tree<DemoDockContent> {
        self.tree
    }

    /// The tiles that the tree marks invisible.
    pub open spec fn hidden(&self) -> Set<u64> {
        dock_tree_hidden(self.tree())
    }

    /// The tiles of the tree, by id.
    pub open spec fn tree_tiles(&self) -> Map<u64, TileShape<PaneRecord>> {
        dock_tree_tiles(self.tree())
    }

    /// The root tile of the tree.
    pub open spec fn tree_root(&self) -> Option<u64> {
        dock_tree_root(self.tree())
    }

    /// Whether the hidden tiles are exactly those of the closed and the
    /// moved-away panes.
    pub open spec fn consistent(&self) -> bool {
        self.hidden() == tiles_for(
            self.catalog_titles(),
            self.catalog_tiles(),
            self.closed().to_set().union(self.transferred().to_set()),
        )
    }

    /// Whether the tree lays out the catalog as `dock_lays_out` says.
    pub open spec fn follows_catalog(&self) -> bool {
        self.tree_root() matches Some(root)
            && dock_lays_out(self.area(), self.tree_tiles(), root, self.catalog_tiles(), self.catalog_panes())
    }

    /// The tile of the first catalog entry titled `t`.
    pub open spec fn tile_of(&self, t: Seq<char>) -> Option<u64> {
        tile_for(self.catalog_titles(), self.catalog_tiles(), t)
    }

    /// The structure the operations keep: the catalog lists the host's own
    /// panes and then the received ones, each under its own title and in a
    /// tile of its own; the closed and moved-away titles are as `lists_ok`
    /// says.
    pub open spec fn wf(&self) -> bool {
        &&& self.catalog_titles() == area_titles(self.area()) + pane_titles(self.imported())
        &&& self.catalog_panes() == area_panes(self.area()) + self.imported()
        &&& pane_titles(self.catalog_panes()) == self.catalog_titles()
        &&& self.catalog_tiles().len() == self.catalog_titles().len()
        &&& distinct_tiles(self.catalog_tiles())
        &&& no_repeats(self.catalog_titles())
        &&& lists_ok(self.catalog_titles(), self.closed(), self.transferred())
    }

    /// The layout a dock host starts with: its own panes, none hidden.
    pub fn for_area(area: DemoDockArea) -> (l: Self)
        ensures
            l.wf(),
            l.area() == area,
            l.catalog_titles() == area_titles(area),
            l.catalog_panes() == area_panes(area),
            l.imported() == Seq::<PaneRecord>::empty(),
            l.closed() == Seq::<Seq<char>>::empty(),
            l.transferred() == Seq::<Seq<char>>::empty(),
            l.hidden() == Set::<u64>::empty(),
            l.follows_catalog(),
            l.consistent(),
    {
        let imported: Vec<DemoDockContent> = Vec::new();
        let (tree, pane_catalog) = build_tree_for_area(area, &imported);
        let l = DemoDockLayout {
            area,
            tree,
            pane_catalog,
            imported_panes: imported,
            closed_titles: Vec::new(),
            transferred_titles: Vec::new(),
        };
        assert(l.imported() =~= Seq::<PaneRecord>::empty());
        assert(pane_titles(l.imported()) =~= Seq::<Seq<char>>::empty());
        assert(l.catalog_titles() =~= area_titles(area));
        assert(l.catalog_panes() =~= area_panes(area));
        proof {
            lemma_area_titles(area);
            lemma_catalog_lengths(l);
        }
        assert(l.closed() =~= Seq::<Seq<char>>::empty());
        assert(l.transferred() =~= Seq::<Seq<char>>::empty());
        assert(l.closed().to_set().union(l.transferred().to_set()) =~= Set::<Seq<char>>::empty());
        assert(tiles_for(l.catalog_titles(), l.catalog_tiles(), Set::<Seq<char>>::empty()) =~= Set::<u64>::empty());
        l
    }

    /// The titles of the closed panes, in the order they were closed.
    pub fn closed_panes(&self) -> (titles: Vec<String>)
        ensures
            texts(titles@) == self.closed(),
    {
        let titles = self.closed_titles.clone();
        assert(texts(titles@) =~= self.closed());
        titles
    }

    /// The catalog titles, in order, of the panes neither closed nor moved away.
    pub fn visible_panes(&self) -> (titles: Vec<String>)
        ensures
            texts(titles@) == visible_titles(self.catalog_titles(), self.closed(), self.transferred()),
    {
        let ghost all = self.catalog_titles();
        let mut titles: Vec<String> = Vec::new();
        let mut i: usize = 0;
        assert(texts(titles@) =~= Seq::<Seq<char>>::empty());
        while i < self.pane_catalog.len()
            invariant
                i <= self.pane_catalog@.len(),
                all == record_titles(self.pane_catalog@),
                texts(titles@) == visible_titles(all.take(i as int), self.closed(), self.transferred()),
            decreases self.pane_catalog@.len() - i,
        {
            let ghost earlier = titles@;
            assert(all.take(i + 1).drop_last() == all.take(i as int));
            assert(all.take(i + 1).last() == self.pane_catalog@[i as int].title@);
            let record = &self.pane_catalog[i];
            if !contains_text(&self.closed_titles, record.title.as_str())
                && !contains_text(&self.transferred_titles, record.title.as_str()) {
                titles.push(record.title.clone());
                assert(texts(titles@) =~= texts(earlier).push(record.title@));
            }
            i = i + 1;
        }
        assert(all.take(all.len() as int) == all);
        titles
    }

    /// Shows or hides the tile of the first catalog entry titled `title`.
    fn set_title_visible(&mut self, title: &str, visible: bool)
        ensures
            final(self).hidden() == with_visibility(old(self).hidden(), old(self).tile_of(title@), visible),
            final(self).tree_tiles() == old(self).tree_tiles(),
            final(self).tree_root() == old(self).tree_root(),
            final(self).area() == old(self).area(),
            final(self).catalog_titles() == old(self).catalog_titles(),
            final(self).catalog_tiles() == old(self).catalog_tiles(),
            final(self).catalog_panes() == old(self).catalog_panes(),
            final(self).imported() == old(self).imported(),
            final(self).closed() == old(self).closed(),
            final(self).transferred() == old(self).transferred(),
            final(self).wf() == old(self).wf(),
    {
        proof {
            lemma_first_index(self.catalog_titles(), title@);
        }
        match find_record(&self.pane_catalog, title) {
            Some(i) => {
                let tile = self.pane_catalog[i].tile_id;
                set_dock_tile_visible(&mut self.tree, tile, visible);
            },
            None => {},
        }
    }
}

} // verus!

verus! {

impl DemoDockLayout {
    /// Hides the tiles of the first catalog entries titled by `titles`.
    fn hide_titles(&mut self, titles: &Vec<String>)
        ensures
            final(self).hidden() == old(self).hidden().union(
                tiles_for(old(self).catalog_titles(), old(self).catalog_tiles(), texts(titles@).to_set()),
            ),
            final(self).tree_tiles() == old(self).tree_tiles(),
            final(self).tree_root() == old(self).tree_root(),
            final(self).area() == old(self).area(),
            final(self).catalog_titles() == old(self).catalog_titles(),
            final(self).catalog_tiles() == old(self).catalog_tiles(),
            final(self).catalog_panes() == old(self).catalog_panes(),
            final(self).imported() == old(self).imported(),
            final(self).closed() == old(self).closed(),
            final(self).transferred() == old(self).transferred(),
            final(self).wf() == old(self).wf(),
    {
        let ghost start = *self;
        let ghost ts = texts(titles@);
        let mut i: usize = 0;
        assert(ts.take(0).to_set() =~= Set::<Seq<char>>::empty());
        assert(tiles_for(start.catalog_titles(), start.catalog_tiles(), Set::<Seq<char>>::empty()) =~= Set::<u64>::empty());
        assert(start.hidden().union(Set::<u64>::empty()) =~= start.hidden());
        while i < titles.len()
            invariant
                i <= titles.len(),
                ts == texts(titles@),
                self.hidden() == start.hidden().union(
                    tiles_for(start.catalog_titles(), start.catalog_tiles(), ts.take(i as int).to_set()),
                ),
                self.area() == start.area(),
                self.tree_tiles() == start.tree_tiles(),
                self.tree_root() == start.tree_root(),
                self.catalog_titles() == start.catalog_titles(),
                self.catalog_tiles() == start.catalog_tiles(),
                self.catalog_panes() == start.catalog_panes(),
                self.imported() == start.imported(),
                self.closed() == start.closed(),
                self.transferred() == start.transferred(),
                self.wf() == start.wf(),
            decreases titles.len() - i,
        {
            self.set_title_visible(titles[i].as_str(), false);
            proof {
                let t = ts[i as int];
                assert(ts.take(i + 1) == ts.take(i as int).push(t));
                assert forall|x: Seq<char>| #[trigger] ts.take(i + 1).to_set().contains(x)
                    <==> ts.take(i as int).to_set().insert(t).contains(x) by {
                    lemma_push_contains(ts.take(i as int), t, x);
                }
                assert(ts.take(i + 1).to_set() =~= ts.take(i as int).to_set().insert(t));
                lemma_tiles_for_insert(start.catalog_titles(), start.catalog_tiles(), ts.take(i as int).to_set(), t);
                lemma_with_visibility(start.hidden().union(
                    tiles_for(start.catalog_titles(), start.catalog_tiles(), ts.take(i as int).to_set()),
                ), start.tile_of(t));
                assert(self.hidden() =~= start.hidden().union(
                    tiles_for(start.catalog_titles(), start.catalog_tiles(), ts.take(i + 1).to_set()),
                ));
            }
            i = i + 1;
        }
        assert(ts.take(ts.len() as int) == ts);
    }

    /// Closes each requested pane in turn, as a frame of the host reports
    /// them: a frame only asks to close closable panes that are shown, so a
    /// request is passed over unless it names a closable catalog pane that
    /// is neither closed nor moved away; such a pane's tile is hidden and its
    /// title joins the closed list.
    pub fn apply_close_requests(&mut self, requests: Vec<String>)
        requires
            old(self).wf(),
        ensures
            final(self).closed() == dock_closes(
                old(self).catalog_titles(),
                old(self).catalog_panes(),
                old(self).transferred(),
                old(self).closed(),
                texts(requests@),
            ),
            final(self).hidden() == old(self).hidden().union(
                tiles_for(
                    old(self).catalog_titles(),
                    old(self).catalog_tiles(),
                    final(self).closed().to_set().difference(old(self).closed().to_set()),
                ),
            ),
            final(self).tree_tiles() == old(self).tree_tiles(),
            final(self).tree_root() == old(self).tree_root(),
            final(self).area() == old(self).area(),
            final(self).catalog_titles() == old(self).catalog_titles(),
            final(self).catalog_tiles() == old(self).catalog_tiles(),
            final(self).catalog_panes() == old(self).catalog_panes(),
            final(self).imported() == old(self).imported(),
            final(self).transferred() == old(self).transferred(),
            final(self).wf(),
            old(self).consistent() ==> final(self).consistent(),
    {
        let ghost start = *self;
        let ghost ts = texts(requests@);
        let ghost titles = start.catalog_titles();
        let ghost panes = start.catalog_panes();
        let mut i: usize = 0;
        assert(start.closed().to_set().difference(start.closed().to_set()) =~= Set::<Seq<char>>::empty());
        assert(tiles_for(titles, start.catalog_tiles(), Set::<Seq<char>>::empty()) =~= Set::<u64>::empty());
        assert(start.hidden().union(Set::<u64>::empty()) =~= start.hidden());
        assert(ts.take(0) =~= Seq::<Seq<char>>::empty());
        while i < requests.len()
            invariant
                i <= requests.len(),
                ts == texts(requests@),
                titles == start.catalog_titles(),
                panes == start.catalog_panes(),
                start.wf(),
                self.closed() == dock_closes(titles, panes, start.transferred(), start.closed(), ts.take(i as int)),
                forall|x: Seq<char>| #[trigger] start.closed().contains(x) ==> self.closed().contains(x),
                self.hidden() == start.hidden().union(
                    tiles_for(titles, start.catalog_tiles(), self.closed().to_set().difference(start.closed().to_set())),
                ),
                self.area() == start.area(),
                self.tree_tiles() == start.tree_tiles(),
                self.tree_root() == start.tree_root(),
                self.catalog_titles() == titles,
                self.catalog_tiles() == start.catalog_tiles(),
                self.catalog_panes() == panes,
                self.imported() == start.imported(),
                self.transferred() == start.transferred(),
            decreases requests.len() - i,
        {
            let ghost before = *self;
            let title = requests[i].as_str();
            let ghost t = ts[i as int];
            proof {
                lemma_first_index(titles, t);
                assert(ts.take(i + 1) == ts.take(i as int).push(t));
                assert(ts.take(i + 1).drop_last() == ts.take(i as int));
            }
            let mut closes = false;
            if !contains_text(&self.closed_titles, title) && !contains_text(&self.transferred_titles, title) {
                match find_record(&self.pane_catalog, title) {
                    Some(k) => {
                        proof {
                            assert(panes[k as int] == self.pane_catalog@[k as int].content@);
                        }
                        closes = self.pane_catalog[k].content.closable;
                    },
                    None => {},
                }
            }
            assert(closes == closes_pane(titles, panes, start.transferred(), before.closed(), t));
            if closes {
                self.set_title_visible(title, false);
                self.closed_titles.push(owned(title));
                proof {
                    assert(self.closed() =~= before.closed().push(t));
                    let c0 = start.closed().to_set();
                    assert forall|x: Seq<char>| #[trigger] self.closed().to_set().difference(c0).contains(x)
                        <==> before.closed().to_set().difference(c0).insert(t).contains(x) by {
                        lemma_push_contains(before.closed(), t, x);
                    }
                    assert(self.closed().to_set().difference(c0) =~= before.closed().to_set().difference(c0).insert(t));
                    lemma_tiles_for_insert(titles, start.catalog_tiles(), before.closed().to_set().difference(c0), t);
                    lemma_with_visibility(before.hidden(), start.tile_of(t));
                    assert(self.hidden() =~= start.hidden().union(
                        tiles_for(titles, start.catalog_tiles(), self.closed().to_set().difference(c0)),
                    ));
                    assert forall|x: Seq<char>| #[trigger] start.closed().contains(x) implies self.closed().contains(x) by {
                        lemma_push_contains(before.closed(), t, x);
                    }
                }
            }
            i = i + 1;
        }
        assert(ts.take(ts.len() as int) == ts);
        proof {
            lemma_dock_closes(titles, panes, start.transferred(), start.closed(), ts);
            let c = self.closed();
            let n = start.closed().len();
            assert forall|x: Seq<char>| #[trigger] c.contains(x) implies titles.contains(x)
                && !start.transferred().contains(x) by {
                let k = choose|k: int| 0 <= k < c.len() && c[k] == x;
                if k < n {
                    assert(c.subrange(0, n as int)[k] == x);
                    assert(start.closed()[k] == x);
                    assert(start.closed().contains(x));
                } else {
                    assert(c[k] == x);
                }
            }
            let c0 = start.closed().to_set();
            let tr = start.transferred().to_set();
            assert(c.to_set().union(tr) =~= c0.union(tr).union(c.to_set().difference(c0)));
            lemma_tiles_for_union(titles, start.catalog_tiles(), c0.union(tr), c.to_set().difference(c0));
        }
    }

    /// Reopens the pane closed last: its title leaves the closed list and its
    /// tile is shown. Returns the title, or nothing when no pane is closed.
    pub fn restore_last_closed(&mut self) -> (title: Option<String>)
        requires
            old(self).wf(),
        ensures
            old(self).closed().len() == 0 ==> {
                &&& title is None
                &&& final(self).closed() == old(self).closed()
                &&& final(self).hidden() == old(self).hidden()
            },
            old(self).closed().len() > 0 ==> {
                &&& title is Some
                &&& title->0@ == old(self).closed().last()
                &&& final(self).closed() == old(self).closed().drop_last()
                &&& final(self).hidden() == with_visibility(
                    old(self).hidden(),
                    old(self).tile_of(old(self).closed().last()),
                    true,
                )
            },
            final(self).tree_tiles() == old(self).tree_tiles(),
            final(self).tree_root() == old(self).tree_root(),
            final(self).area() == old(self).area(),
            final(self).catalog_titles() == old(self).catalog_titles(),
            final(self).catalog_tiles() == old(self).catalog_tiles(),
            final(self).catalog_panes() == old(self).catalog_panes(),
            final(self).imported() == old(self).imported(),
            final(self).transferred() == old(self).transferred(),
            final(self).wf(),
            title matches Some(t) ==> visible_titles(final(self).catalog_titles(), final(self).closed(), final(self).transferred())
                .contains(t@),
            old(self).consistent() ==> final(self).consistent(),
    {
        let ghost before = self.closed_titles@;
        match self.closed_titles.pop() {
            None => None,
            Some(title) => {
                assert(texts(self.closed_titles@) =~= texts(before).drop_last());
                let ghost mid = *self;
                self.set_title_visible(title.as_str(), true);
                proof {
                    let c = texts(before);
                    let t = title@;
                    assert(c.last() == t);
                    assert(c == c.drop_last().push(t));
                    assert forall|x: Seq<char>| #[trigger] c.drop_last().contains(x) implies c.contains(x) by {
                        lemma_push_contains(c.drop_last(), t, x);
                    }
                    assert(no_repeats(c.drop_last())) by {
                        assert forall|a: int, b: int| 0 <= a < b < c.drop_last().len()
                            implies c.drop_last()[a] != c.drop_last()[b] by {
                            assert(c[a] != c[b]);
                        }
                    }
                    if no_repeats(c) {
                        assert(!c.drop_last().contains(t)) by {
                            if c.drop_last().contains(t) {
                                let k = choose|k: int| 0 <= k < c.drop_last().len() && c.drop_last()[k] == t;
                                assert(c[k] == c[c.len() - 1]);
                            }
                        }
                    }
                    assert(c.contains(t)) by {
                        lemma_push_contains(c.drop_last(), t, t);
                    }
                    assert(old(self).closed().contains(t));
                    lemma_visible_titles(self.catalog_titles(), self.closed(), self.transferred(), t);
                    if old(self).consistent() {
                        let tr = old(self).transferred().to_set();
                        assert forall|x: Seq<char>| #[trigger] c.drop_last().to_set().union(tr).contains(x)
                            <==> c.to_set().union(tr).remove(t).contains(x) by {
                            lemma_push_contains(c.drop_last(), t, x);
                        }
                        assert(c.drop_last().to_set().union(tr) =~= c.to_set().union(tr).remove(t));
                        lemma_catalog_lengths(*old(self));
                        lemma_tiles_for_remove(old(self).catalog_titles(), old(self).catalog_tiles(), c.to_set().union(tr), t);
                        lemma_with_visibility(old(self).hidden(), old(self).tile_of(t));
                    }
                }
                Some(title)
            },
        }
    }

    /// Reopens every closed pane.
    pub fn restore_all_closed(&mut self)
        requires
            old(self).wf(),
        ensures
            final(self).closed() == Seq::<Seq<char>>::empty(),
            final(self).hidden() == old(self).hidden().difference(
                tiles_for(old(self).catalog_titles(), old(self).catalog_tiles(), old(self).closed().to_set()),
            ),
            final(self).tree_tiles() == old(self).tree_tiles(),
            final(self).tree_root() == old(self).tree_root(),
            final(self).area() == old(self).area(),
            final(self).catalog_titles() == old(self).catalog_titles(),
            final(self).catalog_tiles() == old(self).catalog_tiles(),
            final(self).catalog_panes() == old(self).catalog_panes(),
            final(self).imported() == old(self).imported(),
            final(self).transferred() == old(self).transferred(),
            final(self).wf(),
            forall|x: Seq<char>| #[trigger] visible_titles(final(self).catalog_titles(), final(self).closed(), final(self).transferred())
                .contains(x) <==> (visible_titles(old(self).catalog_titles(), old(self).closed(), old(self).transferred())
                .contains(x) || old(self).closed().contains(x)),
            old(self).consistent() ==> final(self).consistent(),
    {
        let titles = self.closed_titles.clone();
        self.closed_titles.clear();
        let ghost start = *self;
        let ghost ts = texts(titles@);
        assert(ts == old(self).closed());
        assert(self.closed() =~= Seq::<Seq<char>>::empty());
        let mut i: usize = 0;
        assert(ts.take(0).to_set() =~= Set::<Seq<char>>::empty());
        assert(tiles_for(start.catalog_titles(), start.catalog_tiles(), Set::<Seq<char>>::empty()) =~= Set::<u64>::empty());
        assert(start.hidden().difference(Set::<u64>::empty()) =~= start.hidden());
        while i < titles.len()
            invariant
                i <= titles.len(),
                ts == texts(titles@),
                self.hidden() == start.hidden().difference(
                    tiles_for(start.catalog_titles(), start.catalog_tiles(), ts.take(i as int).to_set()),
                ),
                self.area() == start.area(),
                self.tree_tiles() == start.tree_tiles(),
                self.tree_root() == start.tree_root(),
                self.catalog_titles() == start.catalog_titles(),
                self.catalog_tiles() == start.catalog_tiles(),
                self.catalog_panes() == start.catalog_panes(),
                self.imported() == start.imported(),
                self.closed() == start.closed(),
                self.transferred() == start.transferred(),
                self.wf() == start.wf(),
            decreases titles.len() - i,
        {
            let ghost before = *self;
            self.set_title_visible(titles[i].as_str(), true);
            proof {
                let t = ts[i as int];
                assert(ts.take(i + 1) == ts.take(i as int).push(t));
                assert forall|x: Seq<char>| #[trigger] ts.take(i + 1).to_set().contains(x)
                    <==> ts.take(i as int).to_set().insert(t).contains(x) by {
                    lemma_push_contains(ts.take(i as int), t, x);
                }
                assert(ts.take(i + 1).to_set() =~= ts.take(i as int).to_set().insert(t));
                lemma_tiles_for_insert(start.catalog_titles(), start.catalog_tiles(), ts.take(i as int).to_set(), t);
                lemma_with_visibility(before.hidden(), start.tile_of(t));
                assert(self.hidden() =~= start.hidden().difference(
                    tiles_for(start.catalog_titles(), start.catalog_tiles(), ts.take(i + 1).to_set()),
                ));
            }
            i = i + 1;
        }
        assert(ts.take(ts.len() as int) == ts);
        proof {
            let c = old(self).closed().to_set();
            let tr = old(self).transferred().to_set();
            assert forall|x: Seq<char>| #[trigger] visible_titles(self.catalog_titles(), self.closed(), self.transferred())
                .contains(x) <==> (visible_titles(old(self).catalog_titles(), old(self).closed(), old(self).transferred())
                .contains(x) || old(self).closed().contains(x)) by {
                lemma_visible_titles(self.catalog_titles(), self.closed(), self.transferred(), x);
                lemma_visible_titles(old(self).catalog_titles(), old(self).closed(), old(self).transferred(), x);
            }
            assert(c.disjoint(tr)) by {
                assert forall|x: Seq<char>| c.contains(x) implies !tr.contains(x) by {
                    assert(old(self).closed().contains(x));
                }
            }
            if old(self).consistent() {
                lemma_catalog_lengths(*old(self));
                lemma_tiles_for_disjoint(old(self).catalog_titles(), old(self).catalog_tiles(), c, tr);
                assert(self.closed().to_set().union(self.transferred().to_set()) =~= tr);
                assert(self.hidden() =~= old(self).hidden().difference(
                    tiles_for(old(self).catalog_titles(), old(self).catalog_tiles(), c),
                ));
            }
        }
    }
}

} // verus!

verus! {

/// Whether some pane in `panes` has the title `t`.
fn has_pane_titled(panes: &Vec<DemoDockContent>, t: &str) -> (found: bool)
    ensures
        found == pane_titles(pane_records(panes@)).contains(t@),
{
    let ghost ts = pane_titles(pane_records(panes@));
    let mut i: usize = 0;
    while i < panes.len()
        invariant
            i <= panes.len(),
            ts == pane_titles(pane_records(panes@)),
            forall|j: int| 0 <= j < i ==> ts[j] != t@,
        decreases panes.len() - i,
    {
        if same_text(&panes[i].title, t) {
            assert(ts[i as int] == t@);
            return true;
        }
        i = i + 1;
    }
    proof {
        if ts.contains(t@) {
            let k = choose|k: int| 0 <= k < ts.len() && ts[k] == t@;
            assert(ts[k] != t@);
        }
    }
    false
}

/// What a saved dock host holds: its area, the panes it received, and the
/// titles of the panes closed there and of those moved to other hosts.
#[derive(Clone, Debug)]
pub struct DemoDockSnapshot {
    pub area: DemoDockArea,
    pub imported_panes: Vec<DemoDockContent>,
    pub closed_titles: Vec<String>,
    pub transferred_titles: Vec<String>,
}

/// Whether `s` records the state of the host `l`.
pub open spec fn snapshot_of(s: DemoDockSnapshot, l: DemoDockLayout) -> bool {
    &&& s.area == l.area()
    &&& pane_records(s.imported_panes@) == l.imported()
    &&& texts(s.closed_titles@) == l.closed()
    &&& texts(s.transferred_titles@) == l.transferred()
}

/// The panes of `panes`, in order, without each one whose title is in
/// `taken` or is that of a pane kept before it.
pub open spec fn fresh_panes(taken: Seq<Seq<char>>, panes: Seq<PaneRecord>) -> Seq<PaneRecord>
    decreases panes.len(),
{
    if panes.len() == 0 {
        Seq::empty()
    } else {
        let kept = fresh_panes(taken, panes.drop_last());
        if (taken + pane_titles(kept)).contains(panes.last().title) {
            kept
        } else {
            kept.push(panes.last())
        }
    }
}

/// The titles of `ts`, in order, without each one that is not in `allowed`,
/// is in `avoid`, or was kept before.
pub open spec fn kept_titles(allowed: Seq<Seq<char>>, avoid: Seq<Seq<char>>, ts: Seq<Seq<char>>) -> Seq<Seq<char>>
    decreases ts.len(),
{
    if ts.len() == 0 {
        Seq::empty()
    } else {
        let kept = kept_titles(allowed, avoid, ts.drop_last());
        let t = ts.last();
        if allowed.contains(t) && !avoid.contains(t) && !kept.contains(t) {
            kept.push(t)
        } else {
            kept
        }
    }
}

/// The panes that a host restored from `s` receives: the snapshot's
/// received panes without those whose title the host already has.
pub open spec fn restored_imports(s: DemoDockSnapshot) -> Seq<PaneRecord> {
    fresh_panes(area_titles(s.area), pane_records(s.imported_panes@))
}

/// The catalog titles of a host restored from `s`.
pub open spec fn restored_titles(s: DemoDockSnapshot) -> Seq<Seq<char>> {
    area_titles(s.area) + pane_titles(restored_imports(s))
}

/// The moved-away titles of a host restored from `s`: the snapshot's, kept
/// when they are catalog titles, once each.
pub open spec fn restored_transferred(s: DemoDockSnapshot) -> Seq<Seq<char>> {
    kept_titles(restored_titles(s), Seq::empty(), texts(s.transferred_titles@))
}

/// The closed titles of a host restored from `s`: the snapshot's, kept when
/// they are catalog titles and not moved away, once each.
pub open spec fn restored_closed(s: DemoDockSnapshot) -> Seq<Seq<char>> {
    kept_titles(restored_titles(s), restored_transferred(s), texts(s.closed_titles@))
}

/// Whether `l` is the host that `s` describes: the snapshot's area, and its
/// received panes, moved-away and closed titles as far as they fit the host
/// (see `restored_imports`, `restored_transferred`, `restored_closed`); the
/// catalog built from the area's own panes and the received ones, laid out
/// by the tree; and exactly the tiles of the closed and moved-away panes
/// hidden.
pub open spec fn restored_from(l: DemoDockLayout, s: DemoDockSnapshot) -> bool {
    &&& l.area() == s.area
    &&& l.imported() == restored_imports(s)
    &&& l.transferred() == restored_transferred(s)
    &&& l.closed() == restored_closed(s)
    &&& l.wf()
    &&& l.follows_catalog()
    &&& l.catalog_titles() == restored_titles(s)
    &&& l.consistent()
}

/// `fresh_panes` keeps the titles apart from `taken` and from each other,
/// and keeps every pane when they already are.
pub proof fn lemma_fresh_panes(taken: Seq<Seq<char>>, panes: Seq<PaneRecord>)
    ensures
        no_repeats(taken) ==> no_repeats(taken + pane_titles(fresh_panes(taken, panes))),
        no_repeats(taken + pane_titles(panes)) ==> fresh_panes(taken, panes) == panes,
    decreases panes.len(),
{
    if panes.len() > 0 {
        let init = panes.drop_last();
        let p = panes.last();
        lemma_fresh_panes(taken, init);
        let kept = fresh_panes(taken, init);
        let base = taken + pane_titles(kept);
        if !base.contains(p.title) {
            assert(taken + pane_titles(kept.push(p)) =~= base.push(p.title));
            if no_repeats(base) {
                assert forall|a: int, b: int| 0 <= a < b < base.push(p.title).len()
                    implies base.push(p.title)[a] != base.push(p.title)[b] by {
                    if b == base.len() {
                        assert(base.contains(base[a]));
                    }
                }
            }
        }
        let all = taken + pane_titles(panes);
        if no_repeats(all) {
            let front = taken + pane_titles(init);
            assert(all =~= front.push(p.title));
            assert(no_repeats(front)) by {
                assert forall|a: int, b: int| 0 <= a < b < front.len() implies front[a] != front[b] by {
                    assert(all[a] != all[b]);
                }
            }
            assert(kept == init);
            assert(!front.contains(p.title)) by {
                if front.contains(p.title) {
                    let k = choose|k: int| 0 <= k < front.len() && front[k] == p.title;
                    assert(all[k] == all[all.len() - 1]);
                }
            }
            assert(panes == init.push(p));
        }
    }
}

/// `kept_titles` keeps titles of `allowed`, none of `avoid`, none twice, and
/// keeps all of `ts` when they already are so.
pub proof fn lemma_kept_titles(allowed: Seq<Seq<char>>, avoid: Seq<Seq<char>>, ts: Seq<Seq<char>>)
    ensures
        no_repeats(kept_titles(allowed, avoid, ts)),
        forall|t: Seq<char>| #[trigger] kept_titles(allowed, avoid, ts).contains(t)
            ==> allowed.contains(t) && !avoid.contains(t),
        (no_repeats(ts) && forall|t: Seq<char>| #[trigger] ts.contains(t) ==> allowed.contains(t) && !avoid.contains(t))
            ==> kept_titles(allowed, avoid, ts) == ts,
    decreases ts.len(),
{
    if ts.len() > 0 {
        let init = ts.drop_last();
        let t = ts.last();
        lemma_kept_titles(allowed, avoid, init);
        let kept = kept_titles(allowed, avoid, init);
        if allowed.contains(t) && !avoid.contains(t) && !kept.contains(t) {
            assert forall|a: int, b: int| 0 <= a < b < kept.push(t).len() implies kept.push(t)[a] != kept.push(t)[b] by {
                if b == kept.len() {
                    assert(kept.contains(kept[a]));
                }
            }
            assert forall|x: Seq<char>| #[trigger] kept.push(t).contains(x) implies allowed.contains(x) && !avoid.contains(x) by {
                lemma_push_contains(kept, t, x);
            }
        }
        if no_repeats(ts) && forall|x: Seq<char>| #[trigger] ts.contains(x) ==> allowed.contains(x) && !avoid.contains(x) {
            assert(ts == init.push(t));
            assert(no_repeats(init)) by {
                assert forall|a: int, b: int| 0 <= a < b < init.len() implies init[a] != init[b] by {
                    assert(ts[a] != ts[b]);
                }
            }
            assert forall|x: Seq<char>| #[trigger] init.contains(x) implies allowed.contains(x) && !avoid.contains(x) by {
                lemma_push_contains(init, t, x);
            }
            assert(kept == init);
            assert(ts.contains(t)) by {
                lemma_push_contains(init, t, t);
            }
            assert(!init.contains(t)) by {
                if init.contains(t) {
                    let k = choose|k: int| 0 <= k < init.len() && init[k] == t;
                    assert(ts[k] == ts[ts.len() - 1]);
                }
            }
        }
    }
}

/// Whether moving the pane titled `title` out of a host succeeds: it is in
/// the catalog, and neither closed nor moved away already.
pub open spec fn can_transfer(l: DemoDockLayout, title: Seq<char>) -> bool {
    !l.closed().contains(title) && !l.transferred().contains(title) && l.catalog_titles().contains(title)
}

/// The pane that moving `title` out of a host hands over: the first catalog
/// pane with that title.
pub open spec fn transferred_pane(l: DemoDockLayout, title: Seq<char>) -> PaneRecord {
    l.catalog_panes()[first_index(l.catalog_titles(), title)]
}

/// Whether `after` is the host `before` once the pane titled `title` was
/// moved out of it (`moved`) or the move was refused: a moved pane's title
/// joins the moved-away list and its tile is hidden; nothing else changes.
pub open spec fn after_transfer(before: DemoDockLayout, after: DemoDockLayout, title: Seq<char>, moved: bool) -> bool {
    &&& moved ==> after.transferred() == before.transferred().push(title)
        && after.hidden() == with_visibility(before.hidden(), before.tile_of(title), false)
    &&& !moved ==> after.transferred() == before.transferred() && after.hidden() == before.hidden()
    &&& after.tree_tiles() == before.tree_tiles()
    &&& after.tree_root() == before.tree_root()
    &&& after.area() == before.area()
    &&& after.catalog_titles() == before.catalog_titles()
    &&& after.catalog_tiles() == before.catalog_tiles()
    &&& after.catalog_panes() == before.catalog_panes()
    &&& after.imported() == before.imported()
    &&& after.closed() == before.closed()
    &&& after.wf()
    &&& before.consistent() ==> after.consistent()
}

/// Whether `after` is the host `before` once it took `pane` from another
/// host: a pane that was moved away from it comes back to its place; a pane
/// whose title it already has is refused; any other pane joins the received
/// ones. Unless the pane was refused, the tree is rebuilt from the catalog
/// and hides the tiles of the closed and moved-away panes.
pub open spec fn after_receive(before: DemoDockLayout, after: DemoDockLayout, pane: PaneRecord) -> bool {
    &&& after.closed() == before.closed()
    &&& after.area() == before.area()
    &&& before.transferred().contains(pane.title) ==> {
        &&& after.transferred() == without(before.transferred(), pane.title)
        &&& after.imported() == before.imported()
    }
    &&& !before.transferred().contains(pane.title) && (before.catalog_titles().contains(pane.title)
        || pane_titles(before.imported()).contains(pane.title)) ==> {
        &&& after.transferred() == before.transferred()
        &&& after.imported() == before.imported()
        &&& after.catalog_titles() == before.catalog_titles()
        &&& after.catalog_tiles() == before.catalog_tiles()
        &&& after.catalog_panes() == before.catalog_panes()
        &&& after.hidden() == before.hidden()
        &&& after.tree_tiles() == before.tree_tiles()
        &&& after.tree_root() == before.tree_root()
        &&& after.wf() == before.wf()
        &&& after.consistent() == before.consistent()
    }
    &&& !before.transferred().contains(pane.title) && !before.catalog_titles().contains(pane.title)
        && !pane_titles(before.imported()).contains(pane.title) ==> {
        &&& after.transferred() == before.transferred()
        &&& after.imported() == before.imported().push(pane)
    }
    &&& before.transferred().contains(pane.title) || (!before.catalog_titles().contains(pane.title)
        && !pane_titles(before.imported()).contains(pane.title)) ==> {
        &&& after.wf()
        &&& after.follows_catalog()
        &&& after.catalog_titles() == area_titles(after.area()) + pane_titles(after.imported())
        &&& after.consistent()
    }
}

impl DemoDockLayout {
    /// Moves a pane out of this host: unless it is closed, already moved
    /// away or not in the catalog, its title joins the moved list, its tile is
    /// hidden, and a copy of its catalog pane is returned for another host.
    pub fn transfer_pane(&mut self, title: &str) -> (pane: Option<DemoDockContent>)
        requires
            old(self).wf(),
        ensures
            pane is Some <==> can_transfer(*old(self), title@),
            pane is Some ==> pane->0@ == transferred_pane(*old(self), title@),
            pane is Some ==> pane->0@.title == title@,
            after_transfer(*old(self), *final(self), title@, pane is Some),
    {
        if contains_text(&self.closed_titles, title) || contains_text(&self.transferred_titles, title) {
            return None;
        }
        proof {
            lemma_first_index(self.catalog_titles(), title@);
        }
        let index = match find_record(&self.pane_catalog, title) {
            Some(i) => i,
            None => {
                return None;
            },
        };
        let content = self.pane_catalog[index].content.duplicate();
        let record_title = self.pane_catalog[index].title.clone();
        let ghost before = *self;
        self.transferred_titles.push(record_title);
        assert(self.transferred() =~= before.transferred().push(title@));
        self.set_title_visible(title, false);
        proof {
            let c = before.closed().to_set();
            let tr = before.transferred();
            assert forall|x: Seq<char>| #[trigger] c.union(tr.push(title@).to_set()).contains(x)
                <==> c.union(tr.to_set()).insert(title@).contains(x) by {
                lemma_push_contains(tr, title@, x);
            }
            assert(c.union(self.transferred().to_set()) =~= c.union(tr.to_set()).insert(title@));
            lemma_tiles_for_insert(before.catalog_titles(), before.catalog_tiles(), c.union(tr.to_set()), title@);
            lemma_with_visibility(before.hidden(), before.tile_of(title@));
            lemma_catalog_pane_titles(before);
            assert(before.catalog_titles()[index as int] == title@);
            assert forall|x: Seq<char>| #[trigger] self.transferred().contains(x) implies self.catalog_titles().contains(x) by {
                lemma_push_contains(tr, title@, x);
            }
            assert forall|x: Seq<char>| #[trigger] self.closed().contains(x) implies !self.transferred().contains(x) by {
                lemma_push_contains(tr, title@, x);
            }
            assert(no_repeats(self.transferred())) by {
                assert forall|a: int, b: int| 0 <= a < b < self.transferred().len()
                    implies self.transferred()[a] != self.transferred()[b] by {
                    if b == tr.len() {
                        assert(tr.contains(tr[a]));
                    }
                }
            }
        }
        Some(content)
    }

    /// The tree and catalog rebuilt from the host's own panes and the
    /// received ones, with the closed and moved-away panes hidden again.
    fn rebuild(&mut self)
        requires
            no_repeats(area_titles(old(self).area()) + pane_titles(old(self).imported())),
            lists_ok(area_titles(old(self).area()) + pane_titles(old(self).imported()), old(self).closed(), old(self).transferred()),
        ensures
            final(self).wf(),
            final(self).catalog_titles() == area_titles(old(self).area()) + pane_titles(old(self).imported()),
            final(self).hidden() == tiles_for(
                final(self).catalog_titles(),
                final(self).catalog_tiles(),
                old(self).closed().to_set().union(old(self).transferred().to_set()),
            ),
            final(self).area() == old(self).area(),
            final(self).imported() == old(self).imported(),
            final(self).closed() == old(self).closed(),
            final(self).transferred() == old(self).transferred(),
            final(self).follows_catalog(),
    {
        let (tree, pane_catalog) = build_tree_for_area(self.area, &self.imported_panes);
        self.tree = tree;
        self.pane_catalog = pane_catalog;
        proof {
            assert(pane_titles(self.catalog_panes()) =~= self.catalog_titles()) by {
                assert forall|i: int| 0 <= i < self.pane_catalog@.len() implies
                    #[trigger] pane_titles(self.catalog_panes())[i] == self.catalog_titles()[i] by {
                    assert(self.pane_catalog@[i].content@.title == self.pane_catalog@[i].title@);
                }
            }
            lemma_catalog_lengths(*self);
        }
        let mut hidden_titles = self.closed_titles.clone();
        let mut moved = self.transferred_titles.clone();
        hidden_titles.append(&mut moved);
        proof {
            let all = texts(hidden_titles@);
            assert(all =~= self.closed() + self.transferred());
            assert forall|x: Seq<char>| #[trigger] all.to_set().contains(x)
                <==> self.closed().to_set().union(self.transferred().to_set()).contains(x) by {
                if all.contains(x) {
                    let k = choose|k: int| 0 <= k < all.len() && all[k] == x;
                    if k < self.closed().len() {
                        assert(self.closed()[k] == x);
                    } else {
                        assert(self.transferred()[k - self.closed().len()] == x);
                    }
                }
                if self.closed().contains(x) {
                    let k = choose|k: int| 0 <= k < self.closed().len() && self.closed()[k] == x;
                    assert(all[k] == x);
                }
                if self.transferred().contains(x) {
                    let k = choose|k: int| 0 <= k < self.transferred().len() && self.transferred()[k] == x;
                    assert(all[k + self.closed().len()] == x);
                }
            }
            assert(all.to_set() =~= self.closed().to_set().union(self.transferred().to_set()));
            assert(Set::<u64>::empty().union(tiles_for(
                self.catalog_titles(),
                self.catalog_tiles(),
                all.to_set(),
            )) =~= tiles_for(self.catalog_titles(), self.catalog_tiles(), all.to_set()));
        }
        self.hide_titles(&hidden_titles);
    }

    /// Takes a pane from another host. A pane that was moved away from this
    /// host comes back to its place; a pane whose title this host already
    /// has is refused; any other pane is added to the received ones. The
    /// tree is rebuilt unless the pane was refused.
    pub fn receive_pane(&mut self, pane: DemoDockContent)
        requires
            old(self).wf(),
        ensures
            after_receive(*old(self), *final(self), pane@),
    {
        if contains_text(&self.transferred_titles, pane.title.as_str()) {
            let ghost before = self.transferred();
            remove_every(&mut self.transferred_titles, pane.title.as_str());
            proof {
                lemma_without(before, pane@.title);
                assert forall|x: Seq<char>| #[trigger] self.transferred().contains(x) implies before.contains(x) by {
                    if x == pane@.title {
                        assert(!self.transferred().contains(x));
                    }
                }
            }
            self.rebuild();
            return;
        }
        proof {
            lemma_first_index(self.catalog_titles(), pane@.title);
        }
        if find_record(&self.pane_catalog, pane.title.as_str()).is_some()
            || has_pane_titled(&self.imported_panes, pane.title.as_str()) {
            return;
        }
        let ghost before = self.imported();
        let ghost titles0 = self.catalog_titles();
        let ghost t = pane@.title;
        self.imported_panes.push(pane);
        assert(self.imported() =~= before.push(pane@));
        proof {
            let titles1 = area_titles(self.area()) + pane_titles(self.imported());
            assert(titles1 =~= titles0.push(t));
            assert(!titles0.contains(t));
            assert forall|x: Seq<char>| titles0.contains(x) implies #[trigger] titles1.contains(x) by {
                lemma_push_contains(titles0, t, x);
            }
            assert(no_repeats(titles1)) by {
                assert forall|a: int, b: int| 0 <= a < b < titles1.len() implies titles1[a] != titles1[b] by {
                    if b == titles0.len() {
                        assert(titles0.contains(titles0[a]));
                    }
                }
            }
        }
        self.rebuild();
    }

    /// A snapshot of the host: its area, the panes it received, and the
    /// titles of its closed and moved-away panes.
    pub fn snapshot(&self) -> (s: DemoDockSnapshot)
        ensures
            snapshot_of(s, *self),
    {
        let closed_titles = self.closed_titles.clone();
        let transferred_titles = self.transferred_titles.clone();
        let s = DemoDockSnapshot {
            area: self.area,
            imported_panes: duplicate_panes(&self.imported_panes),
            closed_titles,
            transferred_titles,
        };
        assert(texts(s.closed_titles@) =~= self.closed());
        assert(texts(s.transferred_titles@) =~= self.transferred());
        s
    }

    /// Makes the host the one a snapshot describes: its area, received
    /// panes, closed and moved-away titles are the snapshot's, and the tree
    /// is rebuilt with the closed and moved-away panes hidden.
    pub fn restore(&mut self, snapshot: DemoDockSnapshot)
        ensures
            restored_from(*final(self), snapshot),
    {
        let ghost s = snapshot;
        let DemoDockSnapshot { area, imported_panes, closed_titles, transferred_titles } = snapshot;
        let ghost own = area_titles(area);
        let ghost ps = pane_records(imported_panes@);
        proof {
            lemma_area_titles(area);
        }
        let mut seen = own_titles(area);
        let mut kept: Vec<DemoDockContent> = Vec::new();
        let mut i: usize = 0;
        assert(pane_records(kept@) =~= fresh_panes(own, ps.take(0)));
        assert(texts(seen@) =~= own + pane_titles(pane_records(kept@)));
        while i < imported_panes.len()
            invariant
                i <= imported_panes@.len(),
                ps == pane_records(imported_panes@),
                pane_records(kept@) == fresh_panes(own, ps.take(i as int)),
                texts(seen@) == own + pane_titles(pane_records(kept@)),
            decreases imported_panes@.len() - i,
        {
            let ghost kept0 = pane_records(kept@);
            let ghost seen0 = texts(seen@);
            assert(ps.take(i + 1).drop_last() == ps.take(i as int));
            assert(ps.take(i + 1).last() == imported_panes@[i as int]@);
            let pane = &imported_panes[i];
            if !contains_text(&seen, pane.title.as_str()) {
                seen.push(pane.title.clone());
                kept.push(pane.duplicate());
                assert(pane_records(kept@) =~= kept0.push(pane@));
                assert(texts(seen@) =~= seen0.push(pane@.title));
                assert(pane_titles(kept0.push(pane@)) =~= pane_titles(kept0).push(pane@.title));
                assert(texts(seen@) =~= own + pane_titles(pane_records(kept@)));
            }
            i = i + 1;
        }
        assert(ps.take(ps.len() as int) == ps);
        let ghost titles = texts(seen@);
        let ghost trs = texts(transferred_titles@);
        let mut moved: Vec<String> = Vec::new();
        let mut k: usize = 0;
        assert(texts(moved@) =~= kept_titles(titles, Seq::empty(), trs.take(0)));
        while k < transferred_titles.len()
            invariant
                k <= transferred_titles@.len(),
                titles == texts(seen@),
                trs == texts(transferred_titles@),
                texts(moved@) == kept_titles(titles, Seq::empty(), trs.take(k as int)),
            decreases transferred_titles@.len() - k,
        {
            let ghost m0 = texts(moved@);
            assert(trs.take(k + 1).drop_last() == trs.take(k as int));
            assert(trs.take(k + 1).last() == trs[k as int]);
            let t = transferred_titles[k].as_str();
            if contains_text(&seen, t) && !contains_text(&moved, t) {
                moved.push(owned(t));
                assert(texts(moved@) =~= m0.push(trs[k as int]));
            }
            k = k + 1;
        }
        assert(trs.take(trs.len() as int) == trs);
        let ghost mv = texts(moved@);
        let ghost cls = texts(closed_titles@);
        let mut closed: Vec<String> = Vec::new();
        let mut k: usize = 0;
        assert(texts(closed@) =~= kept_titles(titles, mv, cls.take(0)));
        while k < closed_titles.len()
            invariant
                k <= closed_titles@.len(),
                titles == texts(seen@),
                mv == texts(moved@),
                cls == texts(closed_titles@),
                texts(closed@) == kept_titles(titles, mv, cls.take(k as int)),
            decreases closed_titles@.len() - k,
        {
            let ghost c0 = texts(closed@);
            assert(cls.take(k + 1).drop_last() == cls.take(k as int));
            assert(cls.take(k + 1).last() == cls[k as int]);
            let t = closed_titles[k].as_str();
            if contains_text(&seen, t) && !contains_text(&moved, t) && !contains_text(&closed, t) {
                closed.push(owned(t));
                assert(texts(closed@) =~= c0.push(cls[k as int]));
            }
            k = k + 1;
        }
        assert(cls.take(cls.len() as int) == cls);
        proof {
            lemma_fresh_panes(own, ps);
            lemma_kept_titles(titles, Seq::empty(), trs);
            lemma_kept_titles(titles, mv, cls);
        }
        self.area = area;
        self.imported_panes = kept;
        self.closed_titles = closed;
        self.transferred_titles = moved;
        self.rebuild();
    }

    /// The tree of tiles, for drawing it. Only the tree can change through
    /// the reference.
    pub fn tree_mut(&mut self) -> (tree: &mut Tree<DemoDockContent>)
        ensures
            *tree == old(self).tree(),
            final(self).tree() == *final(tree),
            final(self).area() == old(self).area(),
            final(self).catalog_titles() == old(self).catalog_titles(),
            final(self).catalog_tiles() == old(self).catalog_tiles(),
            final(self).catalog_panes() == old(self).catalog_panes(),
            final(self).imported() == old(self).imported(),
            final(self).closed() == old(self).closed(),
            final(self).transferred() == old(self).transferred(),
            final(self).wf() == old(self).wf(),
    {
        &mut self.tree
    }

    /// The height of the host's tab bars, as the bit pattern of an `f32`.
    pub fn tab_bar_height_bits(&self) -> (h: u32)
        ensures
            h == DOCK_TAB_BAR_HEIGHT_BITS,
    {
        DOCK_TAB_BAR_HEIGHT_BITS
    }

    /// The width of the gaps between the host's panes, as the bit pattern of an `f32`.
    pub fn gap_width_bits(&self) -> (w: u32)
        ensures
            w == DOCK_GAP_WIDTH_BITS,
    {
        DOCK_GAP_WIDTH_BITS
    }
}

} // verus!

verus! {

/// Copies of catalog entries, with the same tiles, titles and panes.
fn duplicate_catalog(records: &Vec<DockPaneRecord>) -> (r: Vec<DockPaneRecord>)
    ensures
        r@.len() == records@.len(),
        forall|i: int| 0 <= i < records@.len() ==> #[trigger] r@[i].tile_id == records@[i].tile_id,
        forall|i: int| 0 <= i < records@.len() ==> #[trigger] r@[i].title@ == records@[i].title@,
        forall|i: int| 0 <= i < records@.len() ==> #[trigger] r@[i].content@ == records@[i].content@,
{
    let mut out: Vec<DockPaneRecord> = Vec::new();
    let mut i: usize = 0;
    while i < records.len()
        invariant
            i <= records@.len(),
            out@.len() == i,
            forall|j: int| 0 <= j < i ==> #[trigger] out@[j].tile_id == records@[j].tile_id,
            forall|j: int| 0 <= j < i ==> #[trigger] out@[j].title@ == records@[j].title@,
            forall|j: int| 0 <= j < i ==> #[trigger] out@[j].content@ == records@[j].content@,
        decreases records@.len() - i,
    {
        let record = &records[i];
        out.push(DockPaneRecord {
            tile_id: record.tile_id,
            title: record.title.clone(),
            content: record.content.duplicate(),
        });
        i = i + 1;
    }
    out
}

/// Copies of panes, with the same values.
fn duplicate_panes(panes: &Vec<DemoDockContent>) -> (r: Vec<DemoDockContent>)
    ensures
        pane_records(r@) == pane_records(panes@),
{
    let mut out: Vec<DemoDockContent> = Vec::new();
    let mut i: usize = 0;
    while i < panes.len()
        invariant
            i <= panes@.len(),
            out@.len() == i,
            forall|j: int| 0 <= j < i ==> #[trigger] out@[j]@ == panes@[j]@,
        decreases panes@.len() - i,
    {
        out.push(panes[i].duplicate());
        i = i + 1;
    }
    assert(pane_records(out@) =~= pane_records(panes@));
    out
}

impl Clone for DemoDockLayout {
    /// A copy of the layout: the same catalog, received panes, closed and
    /// moved-away titles, and a copy of the tree with the same tiles.
    fn clone(&self) -> (l: Self)
        ensures
            l.area() == self.area(),
            l.catalog_titles() == self.catalog_titles(),
            l.catalog_tiles() == self.catalog_tiles(),
            l.catalog_panes() == self.catalog_panes(),
            l.imported() == self.imported(),
            l.closed() == self.closed(),
            l.transferred() == self.transferred(),
            l.tree_tiles() == self.tree_tiles(),
            l.tree_root() == self.tree_root(),
            l.hidden() == self.hidden(),
            l.wf() == self.wf(),
    {
        let closed_titles = self.closed_titles.clone();
        let transferred_titles = self.transferred_titles.clone();
        let l = DemoDockLayout {
            area: self.area,
            tree: clone_dock_tree(&self.tree),
            pane_catalog: duplicate_catalog(&self.pane_catalog),
            imported_panes: duplicate_panes(&self.imported_panes),
            closed_titles,
            transferred_titles,
        };
        assert(l.catalog_titles() =~= self.catalog_titles());
        assert(l.catalog_tiles() =~= self.catalog_tiles());
        assert(l.catalog_panes() =~= self.catalog_panes());
        assert(l.closed() =~= self.closed());
        assert(l.transferred() =~= self.transferred());
        l
    }
}

/// Moves the pane titled `title` from one dock host to another: the source
/// hands it over as `transfer_pane` does, and the target takes it as
/// `receive_pane` does. Says whether the pane moved; when it did not, the
/// target is left as it was.
pub fn transfer_dock_pane(source: &mut DemoDockLayout, target: &mut DemoDockLayout, title: &str) -> (moved: bool)
    requires
        old(source).wf(),
        old(target).wf(),
    ensures
        moved == can_transfer(*old(source), title@),
        after_transfer(*old(source), *final(source), title@, moved),
        moved ==> after_receive(*old(target), *final(target), transferred_pane(*old(source), title@)),
        !moved ==> *final(target) == *old(target),
{
    match source.transfer_pane(title) {
        Some(pane) => {
            target.receive_pane(pane);
            true
        },
        None => false,
    }
}

/// Law: a pane moved out of a host and then received back by it leaves the
/// host as it was: the same received panes, closed and moved-away titles and
/// catalog, with the tiles of exactly its closed and moved-away panes hidden.
pub proof fn lemma_move_out_and_back(
    a0: DemoDockLayout,
    a1: DemoDockLayout,
    a2: DemoDockLayout,
    title: Seq<char>,
    pane: PaneRecord,
)
    requires
        a0.wf(),
        can_transfer(a0, title),
        after_transfer(a0, a1, title, true),
        pane.title == title,
        after_receive(a1, a2, pane),
    ensures
        a2.area() == a0.area(),
        a2.imported() == a0.imported(),
        a2.closed() == a0.closed(),
        a2.transferred() == a0.transferred(),
        a2.catalog_titles() == a0.catalog_titles(),
        a2.catalog_panes() == a0.catalog_panes(),
        a2.wf(),
        a2.follows_catalog(),
        a2.consistent(),
{
    assert(a1.transferred().contains(title)) by {
        assert(a1.transferred()[a1.transferred().len() - 1] == title);
    }
    lemma_transfer_and_return(a0.transferred(), title);
}

/// In a well-formed host, each catalog pane carries its entry's title.
proof fn lemma_catalog_pane_titles(l: DemoDockLayout)
    requires
        l.wf(),
    ensures
        l.catalog_panes().len() == l.catalog_titles().len(),
        forall|i: int| 0 <= i < l.catalog_titles().len() ==> #[trigger] l.catalog_panes()[i].title == l.catalog_titles()[i],
{
    assert forall|i: int| 0 <= i < l.catalog_titles().len() implies #[trigger] l.catalog_panes()[i].title
        == l.catalog_titles()[i] by {
        assert(pane_titles(l.catalog_panes())[i] == l.catalog_panes()[i].title);
    }
}

/// Law: once a pane moves from one host to another that has no pane of that
/// title, the source no longer lists it as visible, and
/// the target does, with the moved pane among its received ones.
pub proof fn lemma_moved_pane_visibility(
    s0: DemoDockLayout,
    s1: DemoDockLayout,
    t0: DemoDockLayout,
    t1: DemoDockLayout,
    title: Seq<char>,
)
    requires
        s0.wf(),
        t0.wf(),
        can_transfer(s0, title),
        after_transfer(s0, s1, title, true),
        after_receive(t0, t1, transferred_pane(s0, title)),
        !t0.catalog_titles().contains(title),
    ensures
        !visible_titles(s1.catalog_titles(), s1.closed(), s1.transferred()).contains(title),
        visible_titles(t1.catalog_titles(), t1.closed(), t1.transferred()).contains(title),
        t1.imported() == t0.imported().push(transferred_pane(s0, title)),
{
    let pane = transferred_pane(s0, title);
    lemma_catalog_pane_titles(s0);
    lemma_first_index(s0.catalog_titles(), title);
    assert(pane.title == title);
    assert(s1.transferred()[s1.transferred().len() - 1] == title);
    lemma_visible_titles(s1.catalog_titles(), s1.closed(), s1.transferred(), title);
    let base = area_titles(t0.area());
    assert(!pane_titles(t0.imported()).contains(title)) by {
        if pane_titles(t0.imported()).contains(title) {
            let k = choose|k: int| 0 <= k < pane_titles(t0.imported()).len() && pane_titles(t0.imported())[k] == title;
            assert(t0.catalog_titles()[base.len() + k] == title);
        }
    }
    let titles = t1.catalog_titles();
    assert(pane_titles(t1.imported()) == pane_titles(t0.imported()).push(title)) by {
        assert(pane_titles(t1.imported()) =~= pane_titles(t0.imported()).push(title));
    }
    assert(titles[titles.len() - 1] == title);
    lemma_visible_titles(titles, t1.closed(), t1.transferred(), title);
}

/// Law: restoring a dock host from its own snapshot gives back its area,
/// received panes, closed and moved-away titles, and catalog.
pub proof fn lemma_dock_restore_own_snapshot(l: DemoDockLayout, s: DemoDockSnapshot, r: DemoDockLayout)
    requires
        l.wf(),
        snapshot_of(s, l),
        restored_from(r, s),
    ensures
        r.area() == l.area(),
        r.imported() == l.imported(),
        r.closed() == l.closed(),
        r.transferred() == l.transferred(),
        r.catalog_titles() == l.catalog_titles(),
        r.catalog_panes() == l.catalog_panes(),
        r.consistent(),
{
    lemma_fresh_panes(area_titles(l.area()), l.imported());
    let titles = l.catalog_titles();
    lemma_kept_titles(titles, Seq::empty(), l.transferred());
    lemma_kept_titles(titles, l.transferred(), l.closed());
}

/// Law: a pane that is closed by itself (a closable catalog pane that was
/// open) is the one that "restore last" reopens, and reopening it gives back
/// the closed list as it was.
pub proof fn lemma_close_then_restore_last(
    titles: Seq<Seq<char>>,
    panes: Seq<PaneRecord>,
    transferred: Seq<Seq<char>>,
    closed: Seq<Seq<char>>,
    t: Seq<char>,
)
    requires
        closes_pane(titles, panes, transferred, closed, t),
    ensures
        dock_closes(titles, panes, transferred, closed, seq![t]).len() > 0,
        dock_closes(titles, panes, transferred, closed, seq![t]).last() == t,
        dock_closes(titles, panes, transferred, closed, seq![t]).drop_last() == closed,
{
    let ts = seq![t];
    assert(ts.drop_last() =~= Seq::<Seq<char>>::empty());
    assert(ts.last() == t);
    assert(dock_closes(titles, panes, transferred, closed, ts.drop_last()) == closed);
    assert(closed.push(t).drop_last() == closed);
}

/// Law: a pane moved away and then received back leaves the list of
/// moved-away titles as it was before the move.
pub proof fn lemma_transfer_and_return(transferred: Seq<Seq<char>>, t: Seq<char>)
    requires
        !transferred.contains(t),
    ensures
        without(transferred.push(t), t) == transferred,
{
    assert(transferred.push(t).drop_last() == transferred);
    assert(transferred.push(t).last() == t);
    lemma_without(transferred, t);
}

/// Law: in a host that has just received a pane under a new title, that
/// title's first catalog entry is the received pane, so moving it on hands
/// the same pane over.
pub proof fn lemma_received_pane_is_handed_on(l: DemoDockLayout, pane: PaneRecord)
    requires
        l.wf(),
        l.imported().len() > 0,
        l.imported().last() == pane,
        !area_titles(l.area()).contains(pane.title),
        !pane_titles(l.imported().drop_last()).contains(pane.title),
    ensures
        l.catalog_titles().contains(pane.title),
        l.catalog_panes()[first_index(l.catalog_titles(), pane.title)] == pane,
{
    let base = area_titles(l.area());
    let imp = l.imported();
    let n = base.len() + imp.len() - 1;
    let titles = l.catalog_titles();
    assert(titles == base + pane_titles(imp));
    assert(titles[n] == pane.title);
    assert forall|j: int| 0 <= j < n implies titles[j] != pane.title by {
        if j < base.len() {
            assert(titles[j] == base[j]);
            if base[j] == pane.title {
                assert(base.contains(pane.title));
            }
        } else {
            assert(titles[j] == imp[j - base.len()].title);
            assert(pane_titles(imp.drop_last())[j - base.len()] == imp[j - base.len()].title);
            if imp[j - base.len()].title == pane.title {
                assert(pane_titles(imp.drop_last()).contains(pane.title));
            }
        }
    }
    lemma_first_index_is(titles, pane.title, n);
    assert(titles.contains(pane.title));
    assert(l.catalog_panes().skip(base.len() as int)[imp.len() - 1] == pane);
}

/// Law: a title is listed as visible exactly when it is in the catalog and
/// neither closed nor moved away, and no title is listed twice when the
/// catalog has none twice (which `wf` keeps).
pub proof fn lemma_visible_titles(
    titles: Seq<Seq<char>>,
    closed: Seq<Seq<char>>,
    transferred: Seq<Seq<char>>,
    x: Seq<char>,
)
    ensures
        visible_titles(titles, closed, transferred).contains(x)
            <==> (titles.contains(x) && !closed.contains(x) && !transferred.contains(x)),
        no_repeats(titles) ==> no_repeats(visible_titles(titles, closed, transferred)),
    decreases titles.len(),
{
    if titles.len() > 0 {
        let init = titles.drop_last();
        let t = titles.last();
        lemma_visible_titles(init, closed, transferred, x);
        lemma_visible_titles(init, closed, transferred, t);
        assert(titles == init.push(t));
        lemma_push_contains(init, t, x);
        let v = visible_titles(init, closed, transferred);
        lemma_push_contains(v, t, x);
        if no_repeats(titles) {
            assert(no_repeats(init)) by {
                assert forall|a: int, b: int| 0 <= a < b < init.len() implies init[a] != init[b] by {
                    assert(titles[a] != titles[b]);
                }
            }
            assert(!init.contains(t)) by {
                if init.contains(t) {
                    let k = choose|k: int| 0 <= k < init.len() && init[k] == t;
                    assert(titles[k] == titles[titles.len() - 1]);
                }
            }
            if !closed.contains(t) && !transferred.contains(t) {
                assert forall|a: int, b: int| 0 <= a < b < v.push(t).len() implies v.push(t)[a] != v.push(t)[b] by {
                    if b == v.len() {
                        assert(v.contains(v[a]));
                    }
                }
            }
        }
    }
}

} // verus!
