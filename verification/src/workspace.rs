//! The central document workspace: document tabs, the layout spec of the
//! document pane tree, its builder, and the layout that closes and restores
//! documents and saves and restores snapshots.

use vstd::prelude::*;
use vstd::string::StringExecFns;
use egui_tiles::{Tiles, Tree};
use crate::color::AccentColor;
use crate::tiles::{
    TileShape, document_tiles, document_tree_tiles, document_tree_root,
    document_tile_ids, document_tiles_hidden, document_tree_hidden, new_document_tiles,
    insert_document_pane, insert_document_tabs, insert_document_row, insert_document_column,
    new_document_tree, set_document_tile_visible, clone_document_tree,
};
use crate::text::{
    texts, opt_text, no_repeats, first_index, lemma_first_index, lemma_first_index_is, lemma_push_contains,
    owned, same_text, contains_text, find_text,
};

verus! {

/// The kind of a document, which decides the badge shown before its title.
#[derive(Clone, Copy, Debug, PartialEq, Eq, Structural)]
pub enum DocumentKind {
    Model3d,
    Plot2d,
    Table,
    Report,
}

impl DocumentKind {
    /// The badge text of the kind.
    pub open spec fn badge(self) -> Seq<char> {
        match self {
            DocumentKind::Model3d => "3D"@,
            DocumentKind::Plot2d => "2D"@,
            DocumentKind::Table => "TAB"@,
            DocumentKind::Report => "DOC"@,
        }
    }

    /// The short badge shown before a document's title.
    pub fn badge_text(self) -> (s: &'static str)
        ensures
            s@ == self.badge(),
    {
        match self {
            DocumentKind::Model3d => "3D",
            DocumentKind::Plot2d => "2D",
            DocumentKind::Table => "TAB",
            DocumentKind::Report => "DOC",
        }
    }
}

/// `badge`, a space and `title`: the text that names a document in a header.
pub open spec fn badge_and_title(kind: DocumentKind, title: Seq<char>) -> Seq<char> {
    kind.badge() + " "@ + title
}

/// `badge_and_title`, followed by " *" when the document has unsaved changes.
pub open spec fn tab_caption(kind: DocumentKind, title: Seq<char>, dirty: bool) -> Seq<char> {
    if dirty {
        badge_and_title(kind, title) + " *"@
    } else {
        badge_and_title(kind, title)
    }
}

/// Builds `badge_and_title`, and `tab_caption` when `mark_dirty`.
fn caption(kind: DocumentKind, title: &str, mark_dirty: bool) -> (s: String)
    ensures
        s@ == tab_caption(kind, title@, mark_dirty),
{
    let mut s = owned(kind.badge_text());
    s.append(" ");
    s.append(title);
    if mark_dirty {
        s.append(" *");
    }
    s
}

/// Which document tab of a plain tab strip is active.
#[derive(Clone, Debug)]
pub struct DocumentTabsState {
    pub active_id: String,
}

impl DocumentTabsState {
    pub fn new(active_id: &str) -> (s: Self)
        ensures
            s.active_id@ == active_id@,
    {
        DocumentTabsState { active_id: owned(active_id) }
    }

    pub fn activate(&mut self, id: &str)
        ensures
            final(self).active_id@ == id@,
    {
        self.active_id = owned(id);
    }

    pub fn is_active(&self, id: &str) -> (b: bool)
        ensures
            b == (self.active_id@ == id@),
    {
        same_text(&self.active_id, id)
    }
}

/// One tab of a plain document tab strip.
#[derive(Clone, Copy, Debug)]
pub struct DocumentTab<'a> {
    pub id: &'a str,
    pub title: &'a str,
    pub kind: DocumentKind,
    pub dirty: bool,
    pub closable: bool,
}

impl<'a> DocumentTab<'a> {
    /// A clean, closable tab.
    pub fn new(id: &'a str, title: &'a str, kind: DocumentKind) -> (t: Self)
        ensures
            t.id == id,
            t.title == title,
            t.kind == kind,
            !t.dirty,
            t.closable,
    {
        DocumentTab { id, title, kind, dirty: false, closable: true }
    }

    pub fn dirty(self, dirty: bool) -> (t: Self)
        ensures
            t == (DocumentTab { dirty, ..self }),
    {
        DocumentTab { dirty, ..self }
    }

    pub fn closable(self, closable: bool) -> (t: Self)
        ensures
            t == (DocumentTab { closable, ..self }),
    {
        DocumentTab { closable, ..self }
    }

    /// The text of the tab's button: badge, title, and " *" when dirty.
    pub fn button_text(&self) -> (s: String)
        ensures
            s@ == tab_caption(self.kind, self.title@, self.dirty),
    {
        caption(self.kind, self.title, self.dirty)
    }
}

/// What a frame of the tab strip asked for.
#[derive(Debug)]
pub struct DocumentTabsResponse {
    pub activated: Option<String>,
    pub close_requested: Option<String>,
}

impl Default for DocumentTabsResponse {
    fn default() -> (r: Self)
        ensures
            r.activated is None,
            r.close_requested is None,
    {
        DocumentTabsResponse { activated: None, close_requested: None }
    }
}

/// A plain strip of document tabs.
pub struct DocumentTabs<'a> {
    id_source: &'a str,
    tabs: &'a [DocumentTab<'a>],
}

impl<'a> DocumentTabs<'a> {
    pub fn new(id_source: &'a str, tabs: &'a [DocumentTab<'a>]) -> (s: Self)
        ensures
            s.id_source() == id_source,
            s.tabs() == tabs,
    {
        DocumentTabs { id_source, tabs }
    }

    pub closed spec fn id_source(&self) -> &'a str {
        self.id_source
    }

    pub closed spec fn tabs(&self) -> &'a [DocumentTab<'a>] {
        self.tabs
    }

    /// The id that keeps the strip's widgets apart from others.
    pub fn source_id(&self) -> (s: &'a str)
        ensures
            s == self.id_source(),
    {
        self.id_source
    }

    /// The tabs, in the order they are drawn.
    pub fn tab_list(&self) -> (t: &'a [DocumentTab<'a>])
        ensures
            t == self.tabs(),
    {
        self.tabs
    }

    /// What a click on a tab's button and on its close button do: the first
    /// activates the tab and reports it, the second, on a closable tab,
    /// reports a close request.
    pub fn handle_tab_input(
        tab: &DocumentTab,
        tab_clicked: bool,
        close_clicked: bool,
        state: &mut DocumentTabsState,
        response: &mut DocumentTabsResponse,
    )
        ensures
            final(state).active_id@ == (if tab_clicked { tab.id@ } else { old(state).active_id@ }),
            opt_text(final(response).activated) == (if tab_clicked {
                Some(tab.id@)
            } else {
                opt_text(old(response).activated)
            }),
            opt_text(final(response).close_requested) == (if tab.closable && close_clicked {
                Some(tab.id@)
            } else {
                opt_text(old(response).close_requested)
            }),
    {
        if tab_clicked {
            state.activate(tab.id);
            response.activated = Some(owned(tab.id));
        }
        if tab.closable && close_clicked {
            response.close_requested = Some(owned(tab.id));
        }
    }
}

} // verus!

verus! {

/// How the header of a document pane is drawn.
#[derive(Clone, Copy, Debug, PartialEq, Eq, Structural)]
pub enum DocumentPaneHeaderStyle {
    Tabbed,
    Standalone,
}

/// The direction in which a split lays out its children.
#[derive(Clone, Copy, Debug, PartialEq, Eq, Structural)]
pub enum WorkspaceSplitAxis {
    Horizontal,
    Vertical,
}

/// A node of the layout spec of the document pane tree: a document (by id),
/// a tab group, or a split.
#[derive(Debug)]
pub enum DocumentWorkspaceNode {
    Document(String),
    Tabs(Vec<DocumentWorkspaceNode>),
    Split { axis: WorkspaceSplitAxis, children: Vec<DocumentWorkspaceNode> },
}

/// The mathematical value of a layout spec node.
pub enum LayoutNode {
    Document(Seq<char>),
    Tabs(Seq<LayoutNode>),
    Split(WorkspaceSplitAxis, Seq<LayoutNode>),
}

/// The value of a layout spec node.
pub open spec fn node_view(node: DocumentWorkspaceNode) -> LayoutNode
    decreases node, 0nat,
{
    match node {
        DocumentWorkspaceNode::Document(id) => LayoutNode::Document(id@),
        DocumentWorkspaceNode::Tabs(children) => LayoutNode::Tabs(nodes_view(children@)),
        DocumentWorkspaceNode::Split { axis, children } => LayoutNode::Split(axis, nodes_view(children@)),
    }
}

/// The values of a sequence of layout spec nodes.
pub open spec fn nodes_view(nodes: Seq<DocumentWorkspaceNode>) -> Seq<LayoutNode>
    decreases nodes, nodes.len(),
{
    if nodes.len() == 0 {
        Seq::empty()
    } else {
        nodes_view(nodes.drop_last()).push(node_view(nodes.last()))
    }
}

/// The ids of the documents that a layout spec places.
pub open spec fn placed_documents(node: LayoutNode) -> Set<Seq<char>>
    decreases node, 0nat,
{
    match node {
        LayoutNode::Document(id) => set![id],
        LayoutNode::Tabs(children) => placed_in_all(children),
        LayoutNode::Split(_, children) => placed_in_all(children),
    }
}

/// The ids of the documents that a sequence of layout specs places.
pub open spec fn placed_in_all(nodes: Seq<LayoutNode>) -> Set<Seq<char>>
    decreases nodes, nodes.len(),
{
    if nodes.len() == 0 {
        Set::empty()
    } else {
        placed_in_all(nodes.drop_last()).union(placed_documents(nodes.last()))
    }
}

/// `nodes_view` maps each node by `node_view`.
pub proof fn lemma_nodes_view(nodes: Seq<DocumentWorkspaceNode>)
    ensures
        nodes_view(nodes).len() == nodes.len(),
        forall|i: int| 0 <= i < nodes.len() ==> #[trigger] nodes_view(nodes)[i] == node_view(nodes[i]),
    decreases nodes.len(),
{
    if nodes.len() > 0 {
        lemma_nodes_view(nodes.drop_last());
    }
}

impl DocumentWorkspaceNode {
    /// A single document, not inside a tab group.
    pub fn document(id: &str) -> (n: Self)
        ensures
            node_view(n) == LayoutNode::Document(id@),
    {
        DocumentWorkspaceNode::Document(owned(id))
    }

    /// A tab group that holds one document.
    pub fn single_tab(id: &str) -> (n: Self)
        ensures
            node_view(n) == LayoutNode::Tabs(seq![LayoutNode::Document(id@)]),
    {
        let mut children: Vec<DocumentWorkspaceNode> = Vec::new();
        children.push(DocumentWorkspaceNode::Document(owned(id)));
        proof {
            lemma_nodes_view(children@);
            assert(nodes_view(children@) =~= seq![LayoutNode::Document(id@)]);
        }
        DocumentWorkspaceNode::Tabs(children)
    }

    pub fn tabs(children: Vec<DocumentWorkspaceNode>) -> (n: Self)
        ensures
            node_view(n) == LayoutNode::Tabs(nodes_view(children@)),
    {
        DocumentWorkspaceNode::Tabs(children)
    }

    pub fn horizontal(children: Vec<DocumentWorkspaceNode>) -> (n: Self)
        ensures
            node_view(n) == LayoutNode::Split(WorkspaceSplitAxis::Horizontal, nodes_view(children@)),
    {
        DocumentWorkspaceNode::Split { axis: WorkspaceSplitAxis::Horizontal, children }
    }

    pub fn vertical(children: Vec<DocumentWorkspaceNode>) -> (n: Self)
        ensures
            node_view(n) == LayoutNode::Split(WorkspaceSplitAxis::Vertical, nodes_view(children@)),
    {
        DocumentWorkspaceNode::Split { axis: WorkspaceSplitAxis::Vertical, children }
    }

    /// A copy with the same value.
    pub fn duplicate(&self) -> (n: Self)
        ensures
            node_view(n) == node_view(*self),
        decreases self, 0nat,
    {
        match self {
            DocumentWorkspaceNode::Document(id) => DocumentWorkspaceNode::Document(id.clone()),
            DocumentWorkspaceNode::Tabs(children) => DocumentWorkspaceNode::Tabs(duplicate_nodes(children)),
            DocumentWorkspaceNode::Split { axis, children } => DocumentWorkspaceNode::Split {
                axis: *axis,
                children: duplicate_nodes(children),
            },
        }
    }
}

impl Clone for DocumentWorkspaceNode {
    fn clone(&self) -> (n: Self)
        ensures
            node_view(n) == node_view(*self),
    {
        self.duplicate()
    }
}

/// Copies of a list of layout spec nodes, with the same values.
fn duplicate_nodes(nodes: &Vec<DocumentWorkspaceNode>) -> (r: Vec<DocumentWorkspaceNode>)
    ensures
        nodes_view(r@) == nodes_view(nodes@),
    decreases nodes, 1nat,
{
    let mut out: Vec<DocumentWorkspaceNode> = Vec::new();
    let mut i: usize = 0;
    while i < nodes.len()
        invariant
            i <= nodes.len(),
            nodes_view(out@) == nodes_view(nodes@.take(i as int)),
        decreases nodes.len() - i,
    {
        let ghost before = out@;
        let c = nodes[i].duplicate();
        out.push(c);
        assert(nodes@.take(i + 1).drop_last() == nodes@.take(i as int));
        assert(out@.drop_last() == before);
        i = i + 1;
    }
    assert(nodes@.take(nodes@.len() as int) == nodes@);
    out
}

/// The mathematical value of a workspace document.
pub struct DocumentRecord {
    pub id: Seq<char>,
    pub title: Seq<char>,
    pub kind: DocumentKind,
    pub summary: Seq<char>,
    pub lines: Seq<Seq<char>>,
    pub accent: AccentColor,
    pub header_style: DocumentPaneHeaderStyle,
    pub dirty: bool,
    pub closable: bool,
}

/// A document that the workspace can place in its pane tree.
#[derive(Clone, Debug)]
pub struct WorkspaceDocument {
    pub id: String,
    pub title: String,
    pub kind: DocumentKind,
    pub summary: String,
    pub lines: Vec<String>,
    pub accent: AccentColor,
    pub header_style: DocumentPaneHeaderStyle,
    pub dirty: bool,
    pub closable: bool,
}

impl View for WorkspaceDocument {
    type V = DocumentRecord;

    open spec fn view(&self) -> DocumentRecord {
        DocumentRecord {
            id: self.id@,
            title: self.title@,
            kind: self.kind,
            summary: self.summary@,
            lines: texts(self.lines@),
            accent: self.accent,
            header_style: self.header_style,
            dirty: self.dirty,
            closable: self.closable,
        }
    }
}

/// The values of a list of documents.
pub open spec fn records(docs: Seq<WorkspaceDocument>) -> Seq<DocumentRecord> {
    Seq::new(docs.len(), |i: int| docs[i]@)
}

/// The ids of a list of documents, in order.
pub open spec fn record_ids(docs: Seq<DocumentRecord>) -> Seq<Seq<char>> {
    Seq::new(docs.len(), |i: int| docs[i].id)
}

impl WorkspaceDocument {
    /// A clean, closable document with a tabbed header.
    pub fn new(
        id: &str,
        title: &str,
        kind: DocumentKind,
        summary: &str,
        lines: Vec<String>,
        accent: AccentColor,
    ) -> (d: Self)
        ensures
            d@ == (DocumentRecord {
                id: id@,
                title: title@,
                kind,
                summary: summary@,
                lines: texts(lines@),
                accent,
                header_style: DocumentPaneHeaderStyle::Tabbed,
                dirty: false,
                closable: true,
            }),
    {
        WorkspaceDocument {
            id: owned(id),
            title: owned(title),
            kind,
            summary: owned(summary),
            lines,
            accent,
            header_style: DocumentPaneHeaderStyle::Tabbed,
            dirty: false,
            closable: true,
        }
    }

    pub fn standalone(self) -> (d: Self)
        ensures
            d@ == (DocumentRecord { header_style: DocumentPaneHeaderStyle::Standalone, ..self@ }),
    {
        WorkspaceDocument { header_style: DocumentPaneHeaderStyle::Standalone, ..self }
    }

    pub fn dirty(self, dirty: bool) -> (d: Self)
        ensures
            d@ == (DocumentRecord { dirty, ..self@ }),
    {
        WorkspaceDocument { dirty, ..self }
    }

    pub fn closable(self, closable: bool) -> (d: Self)
        ensures
            d@ == (DocumentRecord { closable, ..self@ }),
    {
        WorkspaceDocument { closable, ..self }
    }

    /// A copy with the same value.
    pub fn duplicate(&self) -> (d: Self)
        ensures
            d@ == self@,
    {
        let lines = self.lines.clone();
        proof {
            assert(texts(lines@) =~= texts(self.lines@));
        }
        WorkspaceDocument {
            id: self.id.clone(),
            title: self.title.clone(),
            kind: self.kind,
            summary: self.summary.clone(),
            lines,
            accent: self.accent,
            header_style: self.header_style,
            dirty: self.dirty,
            closable: self.closable,
        }
    }

    /// The text of the document's tab: badge, title, and " *" when dirty.
    pub fn tab_title(&self) -> (s: String)
        ensures
            s@ == tab_caption(self.kind, self.title@, self.dirty),
    {
        caption(self.kind, self.title.as_str(), self.dirty)
    }

    /// The text of the document's pane header: badge and title.
    pub fn header_title(&self) -> (s: String)
        ensures
            s@ == badge_and_title(self.kind, self.title@),
    {
        caption(self.kind, self.title.as_str(), false)
    }
}

/// Copies of a list of documents, with the same values.
fn duplicate_documents(docs: &Vec<WorkspaceDocument>) -> (r: Vec<WorkspaceDocument>)
    ensures
        records(r@) == records(docs@),
{
    let mut out: Vec<WorkspaceDocument> = Vec::new();
    let mut i: usize = 0;
    while i < docs.len()
        invariant
            i <= docs.len(),
            out@.len() == i,
            forall|j: int| 0 <= j < i ==> #[trigger] out@[j]@ == docs@[j]@,
        decreases docs.len() - i,
    {
        out.push(docs[i].duplicate());
        i = i + 1;
    }
    assert(records(out@) =~= records(docs@));
    out
}

/// The bit pattern of the `f32` 26.0: the default height of the tab bars.
pub const DEFAULT_TAB_BAR_HEIGHT_BITS: u32 = 0x41d0_0000u32;

/// The bit pattern of the `f32` 2.0: the default width of the gaps between panes.
pub const DEFAULT_GAP_WIDTH_BITS: u32 = 0x4000_0000u32;

/// The mathematical value of a workspace builder.
pub struct BuilderView {
    pub id_source: Seq<char>,
    pub documents: Seq<DocumentRecord>,
    pub root: LayoutNode,
    pub tab_bar_height: u32,
    pub gap_width: u32,
}

/// The initial description of a document workspace: the registry of its
/// documents and the layout spec of its pane tree. The tab bar height and gap
/// width are held as the bit patterns of the `f32` values that egui draws with.
#[derive(Clone, Debug)]
pub struct DocumentWorkspaceBuilder {
    id_source: String,
    documents: Vec<WorkspaceDocument>,
    root: DocumentWorkspaceNode,
    tab_bar_height: u32,
    gap_width: u32,
}

impl View for DocumentWorkspaceBuilder {
    type V = BuilderView;

    closed spec fn view(&self) -> BuilderView {
        BuilderView {
            id_source: self.id_source@,
            documents: records(self.documents@),
            root: node_view(self.root),
            tab_bar_height: self.tab_bar_height,
            gap_width: self.gap_width,
        }
    }
}

/// The ids whose first registered document is closable.
pub open spec fn closable_ids(docs: Seq<DocumentRecord>) -> Set<Seq<char>> {
    Set::new(|id: Seq<char>| record_ids(docs).contains(id) && docs[first_index(record_ids(docs), id)].closable)
}

/// Whether every document that the layout spec places is in the registry.
pub open spec fn places_registered(b: BuilderView) -> bool {
    forall|id: Seq<char>| #[trigger] placed_documents(b.root).contains(id) ==> record_ids(b.documents).contains(id)
}

impl DocumentWorkspaceBuilder {
    pub fn new(id_source: &str, root: DocumentWorkspaceNode) -> (b: Self)
        ensures
            b@ == (BuilderView {
                id_source: id_source@,
                documents: Seq::empty(),
                root: node_view(root),
                tab_bar_height: DEFAULT_TAB_BAR_HEIGHT_BITS,
                gap_width: DEFAULT_GAP_WIDTH_BITS,
            }),
    {
        let b = DocumentWorkspaceBuilder {
            id_source: owned(id_source),
            documents: Vec::new(),
            root,
            tab_bar_height: DEFAULT_TAB_BAR_HEIGHT_BITS,
            gap_width: DEFAULT_GAP_WIDTH_BITS,
        };
        assert(records(b.documents@) =~= Seq::empty());
        b
    }

    /// Registers one more document.
    pub fn document(self, document: WorkspaceDocument) -> (b: Self)
        ensures
            b@ == (BuilderView { documents: self@.documents.push(document@), ..self@ }),
    {
        let mut b = self;
        b.documents.push(document);
        assert(records(b.documents@) =~= records(self.documents@).push(document@));
        b
    }

    /// Registers documents, in order.
    pub fn documents(self, documents: Vec<WorkspaceDocument>) -> (b: Self)
        ensures
            b@ == (BuilderView { documents: self@.documents + records(documents@), ..self@ }),
    {
        let mut b = self;
        let mut more = documents;
        let ghost added = records(more@);
        b.documents.append(&mut more);
        assert(records(b.documents@) =~= records(self.documents@) + added);
        b
    }

    /// Sets the tab bar height, given as the bit pattern of an `f32`.
    pub fn tab_bar_height(self, tab_bar_height: u32) -> (b: Self)
        ensures
            b@ == (BuilderView { tab_bar_height, ..self@ }),
    {
        DocumentWorkspaceBuilder { tab_bar_height, ..self }
    }

    /// Sets the gap width, given as the bit pattern of an `f32`.
    pub fn gap_width(self, gap_width: u32) -> (b: Self)
        ensures
            b@ == (BuilderView { gap_width, ..self@ }),
    {
        DocumentWorkspaceBuilder { gap_width, ..self }
    }

    /// A copy with the same value.
    pub fn duplicate(&self) -> (b: Self)
        ensures
            b@ == self@,
    {
        DocumentWorkspaceBuilder {
            id_source: self.id_source.clone(),
            documents: duplicate_documents(&self.documents),
            root: self.root.duplicate(),
            tab_bar_height: self.tab_bar_height,
            gap_width: self.gap_width,
        }
    }
}

} // verus!

verus! {

/// The map that inserting `keys[i] -> tiles[i]` for each `i` in order leaves:
/// a later key wins over an earlier equal one.
pub open spec fn assoc(keys: Seq<Seq<char>>, tiles: Seq<u64>) -> Map<Seq<char>, u64>
    decreases keys.len(),
{
    if keys.len() == 0 {
        Map::empty()
    } else {
        assoc(keys.drop_last(), tiles.drop_last()).insert(keys.last(), tiles[keys.len() - 1])
    }
}

/// Whether distinct keys are mapped to distinct tiles.
pub open spec fn injective(m: Map<Seq<char>, u64>) -> bool {
    forall|a: Seq<char>, b: Seq<char>|
        #[trigger] m.dom().contains(a) && #[trigger] m.dom().contains(b) && a != b ==> m[a] != m[b]
}

/// The tiles that `m` gives the keys in `keys`.
pub open spec fn tiles_of(m: Map<Seq<char>, u64>, keys: Set<Seq<char>>) -> Set<u64> {
    keys.map(|k: Seq<char>| m[k])
}

/// The domain of `assoc` is the set of keys, and a key maps to the tile
/// paired with its last occurrence.
pub proof fn lemma_assoc(keys: Seq<Seq<char>>, tiles: Seq<u64>)
    requires
        keys.len() == tiles.len(),
    ensures
        forall|k: Seq<char>| #[trigger] assoc(keys, tiles).dom().contains(k) <==> keys.contains(k),
        forall|i: int| 0 <= i < keys.len()
            && (forall|j: int| i < j < keys.len() ==> keys[j] != keys[i])
            ==> #[trigger] assoc(keys, tiles)[keys[i]] == tiles[i],
    decreases keys.len(),
{
    if keys.len() > 0 {
        let n = keys.len() - 1;
        let init = keys.drop_last();
        let prev = assoc(init, tiles.drop_last());
        lemma_assoc(init, tiles.drop_last());
        assert(assoc(keys, tiles) == prev.insert(keys.last(), tiles[n]));
        assert(keys.last() == keys[n]);
        assert forall|k: Seq<char>| #[trigger] assoc(keys, tiles).dom().contains(k) <==> keys.contains(k) by {
            if k == keys.last() {
                assert(keys[n] == k);
            } else {
                if keys.contains(k) {
                    let j = choose|j: int| 0 <= j < keys.len() && keys[j] == k;
                    assert(j != n);
                    assert(init[j] == k);
                    assert(init.contains(k));
                }
                if init.contains(k) {
                    let j = choose|j: int| 0 <= j < init.len() && init[j] == k;
                    assert(keys[j] == k);
                }
            }
        }
        assert forall|i: int| 0 <= i < keys.len()
            && (forall|j: int| i < j < keys.len() ==> keys[j] != keys[i])
            implies #[trigger] assoc(keys, tiles)[keys[i]] == tiles[i] by {
            if i < n {
                assert(keys[n] != keys[i]);
                assert(init[i] == keys[i]);
                assert forall|j: int| i < j < init.len() implies init[j] != init[i] by {
                    assert(keys[j] != keys[i]);
                }
                assert(prev[init[i]] == tiles.drop_last()[i]);
                assert(tiles.drop_last()[i] == tiles[i]);
            }
        }
    }
}

/// The closed list after a request to close `id`: `id` joins the end unless
/// it is already closed or not placed in the layout.
pub open spec fn after_close(closed: Seq<Seq<char>>, placed: Set<Seq<char>>, id: Seq<char>) -> Seq<Seq<char>> {
    if closed.contains(id) || !placed.contains(id) {
        closed
    } else {
        closed.push(id)
    }
}

/// The closed list after requests to close each of `ids`, in order.
pub open spec fn after_closes(closed: Seq<Seq<char>>, placed: Set<Seq<char>>, ids: Seq<Seq<char>>) -> Seq<Seq<char>>
    decreases ids.len(),
{
    if ids.len() == 0 {
        closed
    } else {
        after_close(after_closes(closed, placed, ids.drop_last()), placed, ids.last())
    }
}

/// The closed list after a request to restore `id`: its first occurrence
/// leaves the list; nothing changes when it is not closed.
pub open spec fn after_restore(closed: Seq<Seq<char>>, id: Seq<char>) -> Seq<Seq<char>> {
    let i = first_index(closed, id);
    if i < 0 {
        closed
    } else {
        closed.remove(i)
    }
}

/// The value of the documents reopened from `closed`: for each closed id, in
/// order, the first registered document with that id, where there is one.
pub open spec fn closed_records(closed: Seq<Seq<char>>, docs: Seq<DocumentRecord>) -> Seq<DocumentRecord>
    decreases closed.len(),
{
    if closed.len() == 0 {
        Seq::empty()
    } else {
        let earlier = closed_records(closed.drop_last(), docs);
        let i = first_index(record_ids(docs), closed.last());
        if i >= 0 {
            earlier.push(docs[i])
        } else {
            earlier
        }
    }
}

/// When every closed id is registered, `closed_records` has one document
/// per closed id: the first registered document with that id.
pub proof fn lemma_closed_records_registered(closed: Seq<Seq<char>>, docs: Seq<DocumentRecord>)
    requires
        forall|k: Seq<char>| #[trigger] closed.contains(k) ==> record_ids(docs).contains(k),
    ensures
        closed_records(closed, docs).len() == closed.len(),
        forall|i: int| 0 <= i < closed.len() ==> #[trigger] closed_records(closed, docs)[i]
            == docs[first_index(record_ids(docs), closed[i])],
    decreases closed.len(),
{
    if closed.len() > 0 {
        let init = closed.drop_last();
        assert forall|k: Seq<char>| #[trigger] init.contains(k) implies record_ids(docs).contains(k) by {
            let j = choose|j: int| 0 <= j < init.len() && init[j] == k;
            assert(closed[j] == k);
            assert(closed.contains(k));
        }
        lemma_closed_records_registered(init, docs);
        assert(closed[closed.len() - 1] == closed.last());
        assert(closed.contains(closed.last()));
        assert(record_ids(docs).contains(closed.last()));
        lemma_first_index(record_ids(docs), closed.last());
        assert forall|i: int| 0 <= i < closed.len() implies #[trigger] closed_records(closed, docs)[i]
            == docs[first_index(record_ids(docs), closed[i])] by {
            if i < closed.len() - 1 {
                assert(init[i] == closed[i]);
            }
        }
    }
}

/// What a saved workspace holds: the builder (document registry and layout
/// spec) and the ids of the closed documents.
#[derive(Clone, Debug)]
pub struct DocumentWorkspaceSnapshot {
    pub builder: DocumentWorkspaceBuilder,
    pub closed_document_ids: Vec<String>,
}

/// A document workspace laid out as an `egui_tiles` tree, with the documents
/// that were closed (their tiles hidden) and can be restored.
pub struct DocumentWorkspaceLayout {
    builder: DocumentWorkspaceBuilder,
    tree: Tree<WorkspaceDocument>,
    tile_keys: Vec<String>,
    tile_ids: Vec<u64>,
    closed_document_ids: Vec<String>,
}

impl DocumentWorkspaceLayout {
    /// The builder's value.
    pub closed spec fn builder_view(&self) -> BuilderView {
        self.builder@
    }

    /// The ids of the documents that the layout spec places.
    pub closed spec fn placed(&self) -> Set<Seq<char>> {
        placed_documents(self.builder@.root)
    }

    /// The tile that each placed document has in the tree.
    pub closed spec fn tile_map(&self) -> Map<Seq<char>, u64> {
        assoc(texts(self.tile_keys@), self.tile_ids@)
    }

    /// The ids of the closed documents, in the order they were closed.
    pub closed spec fn closed_ids(&self) -> Seq<Seq<char>> {
        texts(self.closed_document_ids@)
    }

    /// The tree of tiles.
    pub closed spec fn tree(&self) -> Tree<WorkspaceDocument> {
        self.tree
    }

    /// The tiles that the tree marks invisible.
    pub open spec fn hidden(&self) -> Set<u64> {
        document_tree_hidden(self.tree())
    }

    /// The tiles of the tree, by id.
    pub open spec fn tree_tiles(&self) -> Map<u64, TileShape<DocumentRecord>> {
        document_tree_tiles(self.tree())
    }

    /// The root tile of the tree.
    pub open spec fn tree_root(&self) -> Option<u64> {
        document_tree_root(self.tree())
    }

    /// Whether the tree is the one that the builder describes: its root
    /// lays out the layout spec, and the tile of each placed document holds
    /// that document.
    pub open spec fn follows_builder(&self) -> bool {
        &&& self.tree_root() matches Some(root)
            && lays_out(self.tree_tiles(), self.builder_view().documents, root, self.builder_view().root)
        &&& holds_documents(self.tree_tiles(), self.builder_view().documents, self.tile_map())
    }

    /// The structure the operations keep: each placed document has its own
    /// tile, the closed ids are placed documents, none twice, and every placed
    /// document is registered.
    pub closed spec fn wf(&self) -> bool {
        &&& self.tile_keys@.len() == self.tile_ids@.len()
        &&& self.tile_map().dom() == self.placed()
        &&& injective(self.tile_map())
        &&& no_repeats(self.closed_ids())
        &&& forall|k: Seq<char>| #[trigger] self.closed_ids().contains(k) ==> self.placed().contains(k)
        &&& places_registered(self.builder_view())
    }

    /// The ids that a close request may close: the placed documents, and
    /// with `closable_only` only those whose registered document is closable.
    pub open spec fn may_close(&self, closable_only: bool) -> Set<Seq<char>> {
        if closable_only {
            self.placed().intersect(closable_ids(self.builder_view().documents))
        } else {
            self.placed()
        }
    }

    /// The tiles of exactly the closed documents are hidden, among the tiles
    /// of placed documents.
    pub open spec fn consistent(&self) -> bool {
        forall|k: Seq<char>| #[trigger] self.tile_map().dom().contains(k)
            ==> (self.hidden().contains(self.tile_map()[k]) <==> self.closed_ids().contains(k))
    }
}

/// The index of the first document in `docs` with the id `id`.
fn find_document_index(docs: &Vec<WorkspaceDocument>, id: &str) -> (r: Option<usize>)
    ensures
        match r {
            Some(i) => i == first_index(record_ids(records(docs@)), id@),
            None => first_index(record_ids(records(docs@)), id@) == -1,
        },
{
    let ghost ids = record_ids(records(docs@));
    let mut i: usize = 0;
    while i < docs.len()
        invariant
            i <= docs.len(),
            ids == record_ids(records(docs@)),
            forall|j: int| 0 <= j < i ==> ids[j] != id@,
        decreases docs.len() - i,
    {
        if same_text(&docs[i].id, id) {
            proof {
                lemma_first_index_is(ids, id@, i as int);
            }
            return Some(i);
        }
        i = i + 1;
    }
    proof {
        lemma_first_index(ids, id@);
        if ids.contains(id@) {
            let k = choose|k: int| 0 <= k < ids.len() && ids[k] == id@;
            assert(ids[k] != id@);
        }
    }
    None
}

} // verus!

verus! {

/// Whether a catalog (`keys[i]` placed in tile `ids[i]`) pairs each key with
/// a tile of its own, every one of them among `tiles`.
pub open spec fn catalog_ok(keys: Seq<Seq<char>>, ids: Seq<u64>, tiles: Set<u64>) -> bool {
    &&& keys.len() == ids.len()
    &&& injective(assoc(keys, ids))
    &&& forall|k: Seq<char>| #[trigger] assoc(keys, ids).dom().contains(k) ==> tiles.contains(assoc(keys, ids)[k])
}

/// Placing one more key in a tile that no other tile shares keeps a catalog sound.
proof fn lemma_catalog_push(keys: Seq<Seq<char>>, ids: Seq<u64>, tiles: Set<u64>, k: Seq<char>, t: u64)
    requires
        catalog_ok(keys, ids, tiles),
        !tiles.contains(t),
    ensures
        assoc(keys.push(k), ids.push(t)) == assoc(keys, ids).insert(k, t),
        catalog_ok(keys.push(k), ids.push(t), tiles.insert(t)),
{
    assert(keys.push(k).drop_last() == keys);
    assert(ids.push(t).drop_last() == ids);
    let m = assoc(keys, ids);
    let m2 = m.insert(k, t);
    assert(assoc(keys.push(k), ids.push(t)) == m2);
    assert forall|a: Seq<char>, b: Seq<char>|
        #[trigger] m2.dom().contains(a) && #[trigger] m2.dom().contains(b) && a != b implies m2[a] != m2[b] by {
        if a == k {
            assert(m.dom().contains(b));
            assert(tiles.contains(m[b]));
        } else if b == k {
            assert(m.dom().contains(a));
            assert(tiles.contains(m[a]));
        } else {
            assert(m.dom().contains(a) && m.dom().contains(b));
        }
    }
}

/// Where the documents of `nodes[i]` stand among those of `nodes`.
proof fn lemma_placed_in_all(nodes: Seq<LayoutNode>, i: int)
    requires
        0 <= i < nodes.len(),
    ensures
        placed_documents(nodes[i]).subset_of(placed_in_all(nodes)),
    decreases nodes.len(),
{
    if i < nodes.len() - 1 {
        lemma_placed_in_all(nodes.drop_last(), i);
        assert(nodes.drop_last()[i] == nodes[i]);
    }
}

/// Whether tile `t` of `tiles` lays out `node`: a document's tile is a pane
/// that holds the first registered document with the node's id; a tab
/// group's tile is a tabs container, and a split's a row (horizontal) or a
/// column (vertical), whose children lay out the node's children in order.
pub open spec fn lays_out(
    tiles: Map<u64, TileShape<DocumentRecord>>,
    docs: Seq<DocumentRecord>,
    t: u64,
    node: LayoutNode,
) -> bool
    decreases node, 0nat,
{
    tiles.dom().contains(t) && match node {
        LayoutNode::Document(id) => tiles[t] == TileShape::<DocumentRecord>::Pane(
            docs[first_index(record_ids(docs), id)],
        ),
        LayoutNode::Tabs(children) => match tiles[t] {
            TileShape::Tabs(ts) => lay_out_all(tiles, docs, ts, children),
            _ => false,
        },
        LayoutNode::Split(axis, children) => match tiles[t] {
            TileShape::Horizontal(ts) => axis == WorkspaceSplitAxis::Horizontal && lay_out_all(tiles, docs, ts, children),
            TileShape::Vertical(ts) => axis == WorkspaceSplitAxis::Vertical && lay_out_all(tiles, docs, ts, children),
            _ => false,
        },
    }
}

/// Whether the tiles `ts` of `tiles` lay out `nodes`, one for one.
pub open spec fn lay_out_all(
    tiles: Map<u64, TileShape<DocumentRecord>>,
    docs: Seq<DocumentRecord>,
    ts: Seq<u64>,
    nodes: Seq<LayoutNode>,
) -> bool
    decreases nodes, nodes.len(),
{
    ts.len() == nodes.len() && (nodes.len() == 0 || (lay_out_all(tiles, docs, ts.drop_last(), nodes.drop_last())
        && lays_out(tiles, docs, ts.last(), nodes.last())))
}

/// Whether the tile that `m` gives each document id is a pane that holds the
/// first registered document with that id.
pub open spec fn holds_documents(
    tiles: Map<u64, TileShape<DocumentRecord>>,
    docs: Seq<DocumentRecord>,
    m: Map<Seq<char>, u64>,
) -> bool {
    forall|k: Seq<char>| #[trigger] m.dom().contains(k) ==> tiles.dom().contains(m[k])
        && tiles[m[k]] == TileShape::<DocumentRecord>::Pane(docs[first_index(record_ids(docs), k)])
}

/// A tile that lays out a node still does in a larger collection.
proof fn lemma_lays_out_grows(
    tiles: Map<u64, TileShape<DocumentRecord>>,
    more: Map<u64, TileShape<DocumentRecord>>,
    docs: Seq<DocumentRecord>,
    t: u64,
    node: LayoutNode,
)
    requires
        lays_out(tiles, docs, t, node),
        tiles.submap_of(more),
    ensures
        lays_out(more, docs, t, node),
    decreases node, 0nat,
{
    assert(tiles.dom().contains(t));
    assert(more.dom().contains(t));
    assert(more[t] == tiles[t]);
    match node {
        LayoutNode::Document(_) => {},
        LayoutNode::Tabs(children) => {
            let ts = tiles[t]->Tabs_0;
            lemma_lay_out_all_grows(tiles, more, docs, ts, children);
        },
        LayoutNode::Split(_, children) => {
            match tiles[t] {
                TileShape::Horizontal(ts) => lemma_lay_out_all_grows(tiles, more, docs, ts, children),
                TileShape::Vertical(ts) => lemma_lay_out_all_grows(tiles, more, docs, ts, children),
                _ => {},
            }
        },
    }
}

/// Tiles that lay out nodes still do in a larger collection.
proof fn lemma_lay_out_all_grows(
    tiles: Map<u64, TileShape<DocumentRecord>>,
    more: Map<u64, TileShape<DocumentRecord>>,
    docs: Seq<DocumentRecord>,
    ts: Seq<u64>,
    nodes: Seq<LayoutNode>,
)
    requires
        lay_out_all(tiles, docs, ts, nodes),
        tiles.submap_of(more),
    ensures
        lay_out_all(more, docs, ts, nodes),
    decreases nodes, nodes.len(),
{
    if nodes.len() > 0 {
        lemma_lay_out_all_grows(tiles, more, docs, ts.drop_last(), nodes.drop_last());
        lemma_lays_out_grows(tiles, more, docs, ts.last(), nodes.last());
    }
}

/// A map is a submap of itself with a key added that it did not have.
proof fn lemma_insert_fresh(m: Map<u64, TileShape<DocumentRecord>>, k: u64, v: TileShape<DocumentRecord>)
    requires
        !m.dom().contains(k),
    ensures
        m.submap_of(m.insert(k, v)),
{
    assert forall|x: u64| #[trigger] m.dom().contains(x) implies m.insert(k, v).dom().contains(x)
        && m[x] == m.insert(k, v)[x] by {
        assert(x != k);
    }
}

/// Tiles that hold the documents still do in a larger collection.
proof fn lemma_holds_grows(
    tiles: Map<u64, TileShape<DocumentRecord>>,
    more: Map<u64, TileShape<DocumentRecord>>,
    docs: Seq<DocumentRecord>,
    m: Map<Seq<char>, u64>,
)
    requires
        holds_documents(tiles, docs, m),
        tiles.submap_of(more),
    ensures
        holds_documents(more, docs, m),
{
    assert forall|k: Seq<char>| #[trigger] m.dom().contains(k) implies more.dom().contains(m[k])
        && more[m[k]] == TileShape::<DocumentRecord>::Pane(docs[first_index(record_ids(docs), k)]) by {
        assert(tiles.dom().contains(m[k]));
        assert(more.dom().contains(m[k]));
        assert(tiles[m[k]] == more[m[k]]);
    }
}

/// The catalog and tile collection grown by one layout spec node: its
/// documents placed in new pane tiles, its groups in new container tiles.
/// Returns the node's tile.
fn build_node(
    tiles: &mut Tiles<WorkspaceDocument>,
    node: &DocumentWorkspaceNode,
    documents: &Vec<WorkspaceDocument>,
    keys: &mut Vec<String>,
    ids: &mut Vec<u64>,
) -> (tile: u64)
    requires
        forall|id: Seq<char>| #[trigger] placed_documents(node_view(*node)).contains(id)
            ==> record_ids(records(documents@)).contains(id),
        catalog_ok(texts(old(keys)@), old(ids)@, document_tile_ids(*old(tiles))),
        holds_documents(document_tiles(*old(tiles)), records(documents@), assoc(texts(old(keys)@), old(ids)@)),
    ensures
        catalog_ok(texts(final(keys)@), final(ids)@, document_tile_ids(*final(tiles))),
        holds_documents(document_tiles(*final(tiles)), records(documents@), assoc(texts(final(keys)@), final(ids)@)),
        assoc(texts(final(keys)@), final(ids)@).dom()
            == assoc(texts(old(keys)@), old(ids)@).dom().union(placed_documents(node_view(*node))),
        document_tiles_hidden(*final(tiles)) == document_tiles_hidden(*old(tiles)),
        document_tiles(*old(tiles)).submap_of(document_tiles(*final(tiles))),
        lays_out(document_tiles(*final(tiles)), records(documents@), tile, node_view(*node)),
    decreases node, 0nat,
{
    match node {
        DocumentWorkspaceNode::Document(id) => {
            let found = find_document_index(documents, id.as_str());
            proof {
                lemma_first_index(record_ids(records(documents@)), id@);
                assert(placed_documents(node_view(*node)).contains(id@));
            }
            let index = found.unwrap();
            let pane = documents[index].duplicate();
            let ghost before_ids = document_tile_ids(*tiles);
            let ghost before_map = document_tiles(*tiles);
            let ghost docs = records(documents@);
            let ghost old_assoc = assoc(texts(keys@), ids@);
            let tile = insert_document_pane(tiles, pane);
            proof {
                lemma_catalog_push(texts(keys@), ids@, before_ids, id@, tile);
                lemma_insert_fresh(before_map, tile, TileShape::Pane(pane@));
                assert(pane@ == docs[index as int]);
            }
            let ghost old_keys = texts(keys@);
            keys.push(id.clone());
            ids.push(tile);
            assert(texts(keys@) == old_keys.push(id@));
            assert(placed_documents(node_view(*node)) == set![id@]);
            assert(assoc(texts(keys@), ids@).dom() =~= assoc(old_keys, old(ids)@).dom().union(set![id@]));
            proof {
                let m = document_tiles(*tiles);
                let a = assoc(texts(keys@), ids@);
                assert(a == old_assoc.insert(id@, tile));
                assert forall|k: Seq<char>| #[trigger] a.dom().contains(k) implies m.dom().contains(a[k])
                    && m[a[k]] == TileShape::<DocumentRecord>::Pane(docs[first_index(record_ids(docs), k)]) by {
                    if k != id@ {
                        assert(old_assoc.dom().contains(k));
                        assert(before_map.dom().contains(old_assoc[k]));
                        assert(m.dom().contains(old_assoc[k]) && before_map[old_assoc[k]] == m[old_assoc[k]]);
                    }
                }
            }
            tile
        },
        DocumentWorkspaceNode::Tabs(children) => {
            assert(placed_documents(node_view(*node)) == placed_in_all(nodes_view(children@)));
            let child_tiles = build_children(tiles, children, documents, keys, ids);
            let ghost before_ids = document_tile_ids(*tiles);
            let ghost mid = document_tiles(*tiles);
            let ghost kids = child_tiles@;
            let tile = insert_document_tabs(tiles, child_tiles);
            assert(document_tile_ids(*tiles) == before_ids.insert(tile));
            proof {
                lemma_insert_fresh(mid, tile, TileShape::Tabs(kids));
                vstd::map_lib::lemma_submap_of_trans(document_tiles(*old(tiles)), mid, document_tiles(*tiles));
                lemma_lay_out_all_grows(mid, document_tiles(*tiles), records(documents@), kids, nodes_view(children@));
                lemma_holds_grows(mid, document_tiles(*tiles), records(documents@), assoc(texts(keys@), ids@));
            }
            tile
        },
        DocumentWorkspaceNode::Split { axis, children } => {
            assert(placed_documents(node_view(*node)) == placed_in_all(nodes_view(children@)));
            let child_tiles = build_children(tiles, children, documents, keys, ids);
            let ghost before_ids = document_tile_ids(*tiles);
            let ghost mid = document_tiles(*tiles);
            let ghost kids = child_tiles@;
            let tile = match axis {
                WorkspaceSplitAxis::Horizontal => insert_document_row(tiles, child_tiles),
                WorkspaceSplitAxis::Vertical => insert_document_column(tiles, child_tiles),
            };
            assert(document_tile_ids(*tiles) == before_ids.insert(tile));
            proof {
                lemma_insert_fresh(mid, tile, document_tiles(*tiles)[tile]);
                vstd::map_lib::lemma_submap_of_trans(document_tiles(*old(tiles)), mid, document_tiles(*tiles));
                lemma_lay_out_all_grows(mid, document_tiles(*tiles), records(documents@), kids, nodes_view(children@));
                lemma_holds_grows(mid, document_tiles(*tiles), records(documents@), assoc(texts(keys@), ids@));
            }
            tile
        },
    }
}

/// `build_node` for each of `children`, in order; returns their tiles.
fn build_children(
    tiles: &mut Tiles<WorkspaceDocument>,
    children: &Vec<DocumentWorkspaceNode>,
    documents: &Vec<WorkspaceDocument>,
    keys: &mut Vec<String>,
    ids: &mut Vec<u64>,
) -> (child_tiles: Vec<u64>)
    requires
        forall|id: Seq<char>| #[trigger] placed_in_all(nodes_view(children@)).contains(id)
            ==> record_ids(records(documents@)).contains(id),
        catalog_ok(texts(old(keys)@), old(ids)@, document_tile_ids(*old(tiles))),
        holds_documents(document_tiles(*old(tiles)), records(documents@), assoc(texts(old(keys)@), old(ids)@)),
    ensures
        catalog_ok(texts(final(keys)@), final(ids)@, document_tile_ids(*final(tiles))),
        holds_documents(document_tiles(*final(tiles)), records(documents@), assoc(texts(final(keys)@), final(ids)@)),
        assoc(texts(final(keys)@), final(ids)@).dom()
            == assoc(texts(old(keys)@), old(ids)@).dom().union(placed_in_all(nodes_view(children@))),
        document_tiles_hidden(*final(tiles)) == document_tiles_hidden(*old(tiles)),
        document_tiles(*old(tiles)).submap_of(document_tiles(*final(tiles))),
        lay_out_all(document_tiles(*final(tiles)), records(documents@), child_tiles@, nodes_view(children@)),
    decreases children, 1nat,
{
    let ghost dom0 = assoc(texts(keys@), ids@).dom();
    let ghost hidden0 = document_tiles_hidden(*tiles);
    let ghost map0 = document_tiles(*tiles);
    proof {
        lemma_nodes_view(children@);
        assert(map0.submap_of(map0));
        assert(nodes_view(children@).take(0) =~= Seq::<LayoutNode>::empty());
    }
    let mut child_tiles: Vec<u64> = Vec::new();
    let mut i: usize = 0;
    while i < children.len()
        invariant
            i <= children.len(),
            nodes_view(children@).len() == children@.len(),
            forall|j: int| 0 <= j < children@.len() ==> #[trigger] nodes_view(children@)[j] == node_view(children@[j]),
            forall|id: Seq<char>| #[trigger] placed_in_all(nodes_view(children@)).contains(id)
                ==> record_ids(records(documents@)).contains(id),
            catalog_ok(texts(keys@), ids@, document_tile_ids(*tiles)),
            holds_documents(document_tiles(*tiles), records(documents@), assoc(texts(keys@), ids@)),
            assoc(texts(keys@), ids@).dom() == dom0.union(placed_in_all(nodes_view(children@).take(i as int))),
            document_tiles_hidden(*tiles) == hidden0,
            map0.submap_of(document_tiles(*tiles)),
            lay_out_all(document_tiles(*tiles), records(documents@), child_tiles@, nodes_view(children@).take(i as int)),
        decreases children.len() - i,
    {
        proof {
            lemma_placed_in_all(nodes_view(children@), i as int);
        }
        let ghost dom_before = assoc(texts(keys@), ids@).dom();
        let ghost map_before = document_tiles(*tiles);
        let ghost kids_before = child_tiles@;
        let t = build_node(tiles, &children[i], documents, keys, ids);
        child_tiles.push(t);
        proof {
            let vs = nodes_view(children@);
            vstd::map_lib::lemma_submap_of_trans(map0, map_before, document_tiles(*tiles));
            lemma_lay_out_all_grows(map_before, document_tiles(*tiles), records(documents@), kids_before, vs.take(i as int));
            assert(child_tiles@.drop_last() == kids_before);
            assert(child_tiles@.last() == t);
            assert(vs.take(i + 1).drop_last() == vs.take(i as int));
            assert(vs.take(i + 1).last() == node_view(children@[i as int]));
            assert(placed_in_all(vs.take(i + 1))
                == placed_in_all(vs.take(i as int)).union(placed_documents(node_view(children@[i as int]))));
            assert(assoc(texts(keys@), ids@).dom() =~= dom0.union(placed_in_all(vs.take(i + 1))));
        }
        i = i + 1;
    }
    assert(nodes_view(children@).take(children@.len() as int) == nodes_view(children@));
    child_tiles
}

/// The tree, and its catalog of document tiles, that a builder describes.
fn build_tree(builder: &DocumentWorkspaceBuilder) -> (r: (Tree<WorkspaceDocument>, Vec<String>, Vec<u64>))
    requires
        places_registered(builder@),
    ensures
        document_tree_hidden(r.0) == Set::<u64>::empty(),
        r.1@.len() == r.2@.len(),
        injective(assoc(texts(r.1@), r.2@)),
        assoc(texts(r.1@), r.2@).dom() == placed_documents(builder@.root),
        document_tree_root(r.0) matches Some(root)
            && lays_out(document_tree_tiles(r.0), builder@.documents, root, builder@.root),
        holds_documents(document_tree_tiles(r.0), builder@.documents, assoc(texts(r.1@), r.2@)),
{
    let mut tiles = new_document_tiles();
    let mut keys: Vec<String> = Vec::new();
    let mut ids: Vec<u64> = Vec::new();
    assert(texts(keys@) =~= Seq::<Seq<char>>::empty());
    assert(assoc(texts(keys@), ids@).dom() =~= Set::<Seq<char>>::empty());
    assert(holds_documents(document_tiles(tiles), records(builder.documents@), assoc(texts(keys@), ids@)));
    let root = build_node(&mut tiles, &builder.root, &builder.documents, &mut keys, &mut ids);
    assert(assoc(texts(keys@), ids@).dom() =~= placed_documents(builder@.root));
    let tree = new_document_tree(builder.id_source.clone(), root, tiles);
    (tree, keys, ids)
}

} // verus!

verus! {

/// The sets that `tiles_of` gives grow by one tile per key.
proof fn lemma_tiles_of_insert(m: Map<Seq<char>, u64>, keys: Set<Seq<char>>, k: Seq<char>)
    ensures
        tiles_of(m, keys.insert(k)) == tiles_of(m, keys).insert(m[k]),
{
    assert(tiles_of(m, keys.insert(k)) =~= tiles_of(m, keys).insert(m[k])) by {
        assert forall|t: u64| tiles_of(m, keys.insert(k)).contains(t) implies tiles_of(m, keys).insert(m[k]).contains(t) by {
            let x = choose|x: Seq<char>| keys.insert(k).contains(x) && m[x] == t;
            if x != k {
                assert(keys.contains(x));
            }
        }
        assert forall|t: u64| tiles_of(m, keys).insert(m[k]).contains(t) implies tiles_of(m, keys.insert(k)).contains(t) by {
            if t == m[k] {
                assert(keys.insert(k).contains(k));
            } else {
                let x = choose|x: Seq<char>| keys.contains(x) && m[x] == t;
                assert(keys.insert(k).contains(x));
            }
        }
    }
}

impl DocumentWorkspaceLayout {
    /// The layout that a builder describes, with no document closed.
    pub fn from_builder(builder: DocumentWorkspaceBuilder) -> (l: Self)
        requires
            places_registered(builder@),
        ensures
            l.wf(),
            l.consistent(),
            l.builder_view() == builder@,
            l.placed() == placed_documents(builder@.root),
            l.tile_map().dom() == l.placed(),
            l.closed_ids() == Seq::<Seq<char>>::empty(),
            l.hidden() == Set::<u64>::empty(),
            l.follows_builder(),
    {
        let (tree, tile_keys, tile_ids) = build_tree(&builder);
        let l = DocumentWorkspaceLayout {
            builder,
            tree,
            tile_keys,
            tile_ids,
            closed_document_ids: Vec::new(),
        };
        assert(l.closed_ids() =~= Seq::<Seq<char>>::empty());
        l
    }

    /// The tile of a placed document.
    fn tile_of(&self, id: &str) -> (r: Option<u64>)
        requires
            self.tile_keys@.len() == self.tile_ids@.len(),
        ensures
            match r {
                Some(t) => self.tile_map().dom().contains(id@) && t == self.tile_map()[id@],
                None => !self.tile_map().dom().contains(id@),
            },
    {
        let ghost keys = texts(self.tile_keys@);
        proof {
            lemma_assoc(keys, self.tile_ids@);
        }
        let mut i: usize = self.tile_keys.len();
        while i > 0
            invariant
                i <= self.tile_keys@.len(),
                keys == texts(self.tile_keys@),
                self.tile_keys@.len() == self.tile_ids@.len(),
                forall|j: int| i <= j < keys.len() ==> keys[j] != id@,
            decreases i,
        {
            i = i - 1;
            if same_text(&self.tile_keys[i], id) {
                assert(forall|j: int| i < j < keys.len() ==> keys[j] != keys[i as int]);
                assert(keys[i as int] == id@);
                assert(keys.contains(id@));
                proof {
                    lemma_assoc(keys, self.tile_ids@);
                }
                assert(assoc(keys, self.tile_ids@)[keys[i as int]] == self.tile_ids@[i as int]);
                return Some(self.tile_ids[i]);
            }
        }
        proof {
            lemma_assoc(keys, self.tile_ids@);
            if keys.contains(id@) {
                let k = choose|k: int| 0 <= k < keys.len() && keys[k] == id@;
                assert(keys[k] != id@);
            }
        }
        None
    }

    /// Closes a document that may close (see `may_close`) and is not closed
    /// yet: hides its tile and records it as closed. Says whether it did.
    fn close_document(&mut self, id: &str, closable_only: bool) -> (closed: bool)
        requires
            old(self).wf(),
        ensures
            final(self).wf(),
            closed == (!old(self).closed_ids().contains(id@) && old(self).may_close(closable_only).contains(id@)),
            final(self).closed_ids() == after_close(old(self).closed_ids(), old(self).may_close(closable_only), id@),
            final(self).hidden() == if closed {
                old(self).hidden().insert(old(self).tile_map()[id@])
            } else {
                old(self).hidden()
            },
            final(self).tree_tiles() == old(self).tree_tiles(),
            final(self).tree_root() == old(self).tree_root(),
            final(self).builder_view() == old(self).builder_view(),
            final(self).tile_map() == old(self).tile_map(),
            final(self).placed() == old(self).placed(),
            old(self).consistent() ==> final(self).consistent(),
    {
        if contains_text(&self.closed_document_ids, id) {
            return false;
        }
        if closable_only {
            proof {
                lemma_first_index(record_ids(self.builder_view().documents), id@);
            }
            match find_document_index(&self.builder.documents, id) {
                Some(i) => {
                    if !self.builder.documents[i].closable {
                        return false;
                    }
                },
                None => {
                    return false;
                },
            }
        }
        match self.tile_of(id) {
            None => false,
            Some(tile) => {
                let ghost before = *self;
                set_document_tile_visible(&mut self.tree, tile, false);
                self.closed_document_ids.push(owned(id));
                proof {
                    assert(self.closed_ids() =~= before.closed_ids().push(id@));
                    let m = self.tile_map();
                    assert forall|k: Seq<char>| #[trigger] self.closed_ids().contains(k) implies self.placed().contains(k) by {
                        lemma_push_contains(before.closed_ids(), id@, k);
                    }
                    assert(no_repeats(self.closed_ids())) by {
                        assert forall|i: int, j: int| 0 <= i < j < self.closed_ids().len()
                            implies self.closed_ids()[i] != self.closed_ids()[j] by {
                            if j == before.closed_ids().len() {
                                assert(before.closed_ids().contains(before.closed_ids()[i]));
                            }
                        }
                    }
                    if before.consistent() {
                        assert forall|k: Seq<char>| #[trigger] m.dom().contains(k)
                            implies (self.hidden().contains(m[k]) <==> self.closed_ids().contains(k)) by {
                            lemma_push_contains(before.closed_ids(), id@, k);
                            if k != id@ {
                                assert(m[k] != m[id@]);
                            }
                        }
                    }
                }
                true
            },
        }
    }

    /// Closes each requested document in turn, as a frame of the workspace
    /// reports them: a frame only asks to close closable documents, so ids
    /// that are already closed, not placed, or whose document is not
    /// closable are passed over.
    pub fn apply_close_requests(&mut self, requests: Vec<String>)
        requires
            old(self).wf(),
        ensures
            final(self).wf(),
            final(self).closed_ids() == after_closes(old(self).closed_ids(), old(self).may_close(true), texts(requests@)),
            final(self).hidden() == old(self).hidden().union(tiles_of(
                old(self).tile_map(),
                final(self).closed_ids().to_set().difference(old(self).closed_ids().to_set()),
            )),
            final(self).tree_tiles() == old(self).tree_tiles(),
            final(self).tree_root() == old(self).tree_root(),
            final(self).builder_view() == old(self).builder_view(),
            final(self).tile_map() == old(self).tile_map(),
            final(self).placed() == old(self).placed(),
            old(self).consistent() ==> final(self).consistent(),
    {
        self.close_each(requests, true);
    }

    /// Closes each of `requests` in turn, as `close_document` does.
    fn close_each(&mut self, requests: Vec<String>, closable_only: bool)
        requires
            old(self).wf(),
        ensures
            final(self).wf(),
            final(self).closed_ids() == after_closes(
                old(self).closed_ids(),
                old(self).may_close(closable_only),
                texts(requests@),
            ),
            final(self).hidden() == old(self).hidden().union(tiles_of(
                old(self).tile_map(),
                final(self).closed_ids().to_set().difference(old(self).closed_ids().to_set()),
            )),
            final(self).tree_tiles() == old(self).tree_tiles(),
            final(self).tree_root() == old(self).tree_root(),
            final(self).builder_view() == old(self).builder_view(),
            final(self).tile_map() == old(self).tile_map(),
            final(self).placed() == old(self).placed(),
            old(self).consistent() ==> final(self).consistent(),
    {
        let ghost start = *self;
        let ghost reqs = texts(requests@);
        let mut i: usize = 0;
        assert(start.closed_ids().to_set().difference(start.closed_ids().to_set()) =~= Set::<Seq<char>>::empty());
        assert(tiles_of(start.tile_map(), Set::<Seq<char>>::empty()) =~= Set::<u64>::empty());
        assert(start.hidden().union(Set::<u64>::empty()) =~= start.hidden());
        while i < requests.len()
            invariant
                i <= requests.len(),
                reqs == texts(requests@),
                self.wf(),
                self.closed_ids() == after_closes(start.closed_ids(), start.may_close(closable_only), reqs.take(i as int)),
                self.tree_tiles() == start.tree_tiles(),
                self.tree_root() == start.tree_root(),
                self.hidden() == start.hidden().union(tiles_of(
                    start.tile_map(),
                    self.closed_ids().to_set().difference(start.closed_ids().to_set()),
                )),
                self.builder_view() == start.builder_view(),
                self.tile_map() == start.tile_map(),
                self.placed() == start.placed(),
                start.consistent() ==> self.consistent(),
                forall|k: Seq<char>| #[trigger] start.closed_ids().contains(k) ==> self.closed_ids().contains(k),
            decreases requests.len() - i,
        {
            let ghost before = *self;
            let accepted = self.close_document(requests[i].as_str(), closable_only);
            proof {
                assert(reqs.take(i + 1).drop_last() == reqs.take(i as int));
                assert(reqs.take(i + 1).last() == reqs[i as int]);
                let old_set = start.closed_ids().to_set();
                if accepted {
                    let id = reqs[i as int];
                    assert(self.closed_ids() == before.closed_ids().push(id));
                    assert forall|k: Seq<char>| #[trigger] self.closed_ids().to_set().contains(k)
                        <==> before.closed_ids().to_set().insert(id).contains(k) by {
                        lemma_push_contains(before.closed_ids(), id, k);
                    }
                    assert(self.closed_ids().to_set() =~= before.closed_ids().to_set().insert(id));
                    assert(!old_set.contains(id));
                    assert(self.closed_ids().to_set().difference(old_set)
                        =~= before.closed_ids().to_set().difference(old_set).insert(id));
                    lemma_tiles_of_insert(start.tile_map(), before.closed_ids().to_set().difference(old_set), id);
                    assert(self.hidden() =~= start.hidden().union(tiles_of(
                        start.tile_map(),
                        self.closed_ids().to_set().difference(old_set),
                    )));
                } else {
                    assert(self.closed_ids() == before.closed_ids());
                }
                assert forall|k: Seq<char>| #[trigger] start.closed_ids().contains(k) implies self.closed_ids().contains(k) by {
                    assert(before.closed_ids().contains(k));
                    if accepted {
                        lemma_push_contains(before.closed_ids(), reqs[i as int], k);
                    }
                }
            }
            i = i + 1;
        }
        assert(reqs.take(requests@.len() as int) == reqs);
    }
}

} // verus!

verus! {

impl DocumentWorkspaceLayout {
    /// Reopens a closed document: it leaves the closed list and its tile is
    /// shown again. Says whether the document was closed; nothing changes when
    /// it was not.
    pub fn restore_document(&mut self, document_id: &str) -> (restored: bool)
        requires
            old(self).wf(),
        ensures
            final(self).wf(),
            restored == old(self).closed_ids().contains(document_id@),
            final(self).closed_ids() == after_restore(old(self).closed_ids(), document_id@),
            final(self).hidden() == if restored {
                old(self).hidden().remove(old(self).tile_map()[document_id@])
            } else {
                old(self).hidden()
            },
            final(self).tree_tiles() == old(self).tree_tiles(),
            final(self).tree_root() == old(self).tree_root(),
            final(self).builder_view() == old(self).builder_view(),
            final(self).tile_map() == old(self).tile_map(),
            final(self).placed() == old(self).placed(),
            old(self).consistent() ==> final(self).consistent(),
    {
        let ghost before = *self;
        proof {
            lemma_first_index(before.closed_ids(), document_id@);
        }
        match find_text(&self.closed_document_ids, document_id) {
            Some(index) => {
                self.closed_document_ids.remove(index);
                let ghost c = before.closed_ids();
                assert(self.closed_ids() =~= c.remove(index as int));
                proof {
                    assert forall|k: Seq<char>| #[trigger] self.closed_ids().contains(k)
                        implies c.contains(k) && k != document_id@ by {
                        let j = choose|j: int| 0 <= j < self.closed_ids().len() && self.closed_ids()[j] == k;
                        if j < index {
                            assert(c[j] == k);
                        } else {
                            assert(c[j + 1] == k);
                        }
                    }
                    assert forall|k: Seq<char>| #[trigger] c.contains(k) && k != document_id@
                        implies self.closed_ids().contains(k) by {
                        let j = choose|j: int| 0 <= j < c.len() && c[j] == k;
                        if j < index {
                            assert(self.closed_ids()[j] == k);
                        } else {
                            assert(j != index);
                            assert(self.closed_ids()[j - 1] == k);
                        }
                    }
                    assert(no_repeats(self.closed_ids())) by {
                        assert forall|i: int, j: int| 0 <= i < j < self.closed_ids().len()
                            implies self.closed_ids()[i] != self.closed_ids()[j] by {
                            let ii = if i < index { i } else { i + 1 };
                            let jj = if j < index { j } else { j + 1 };
                            assert(self.closed_ids()[i] == c[ii]);
                            assert(self.closed_ids()[j] == c[jj]);
                        }
                    }
                }
                match self.tile_of(document_id) {
                    Some(tile) => {
                        set_document_tile_visible(&mut self.tree, tile, true);
                    },
                    None => {},
                }
                proof {
                    let m = before.tile_map();
                    if before.consistent() {
                        assert forall|k: Seq<char>| #[trigger] m.dom().contains(k)
                            implies (self.hidden().contains(m[k]) <==> self.closed_ids().contains(k)) by {
                            if k != document_id@ {
                                assert(m[k] != m[document_id@]);
                            }
                        }
                    }
                }
                true
            },
            None => false,
        }
    }

    /// Reopens every closed document.
    pub fn restore_all_documents(&mut self)
        requires
            old(self).wf(),
        ensures
            final(self).wf(),
            final(self).closed_ids() == Seq::<Seq<char>>::empty(),
            final(self).hidden() == old(self).hidden().difference(
                tiles_of(old(self).tile_map(), old(self).closed_ids().to_set()),
            ),
            final(self).tree_tiles() == old(self).tree_tiles(),
            final(self).tree_root() == old(self).tree_root(),
            final(self).builder_view() == old(self).builder_view(),
            final(self).tile_map() == old(self).tile_map(),
            final(self).placed() == old(self).placed(),
            old(self).consistent() ==> final(self).consistent(),
    {
        let ghost start = *self;
        let ghost all = start.closed_ids();
        let document_ids = self.closed_document_ids.clone();
        assert(texts(document_ids@) == all);
        let mut i: usize = 0;
        assert(all.skip(0) == all);
        assert(all.take(0).to_set() =~= Set::<Seq<char>>::empty());
        assert(tiles_of(start.tile_map(), Set::<Seq<char>>::empty()) =~= Set::<u64>::empty());
        assert(start.hidden().difference(Set::<u64>::empty()) =~= start.hidden());
        while i < document_ids.len()
            invariant
                i <= document_ids.len(),
                texts(document_ids@) == all,
                no_repeats(all),
                forall|k: Seq<char>| #[trigger] all.contains(k) ==> start.placed().contains(k),
                self.wf(),
                self.closed_ids() == all.skip(i as int),
                self.tree_tiles() == start.tree_tiles(),
                self.tree_root() == start.tree_root(),
                self.hidden() == start.hidden().difference(tiles_of(start.tile_map(), all.take(i as int).to_set())),
                self.builder_view() == start.builder_view(),
                self.tile_map() == start.tile_map(),
                self.placed() == start.placed(),
                start.consistent() ==> self.consistent(),
            decreases document_ids.len() - i,
        {
            let ghost before = *self;
            let ghost id = all[i as int];
            assert(before.closed_ids()[0] == id);
            proof {
                lemma_first_index_is(before.closed_ids(), id, 0);
            }
            let restored = self.restore_document(document_ids[i].as_str());
            proof {
                assert(before.closed_ids().contains(id));
                assert(self.closed_ids() =~= all.skip(i + 1));
                assert(all.take(i + 1) == all.take(i as int).push(id));
                assert forall|k: Seq<char>| #[trigger] all.take(i + 1).to_set().contains(k)
                    <==> all.take(i as int).to_set().insert(id).contains(k) by {
                    lemma_push_contains(all.take(i as int), id, k);
                }
                assert(all.take(i + 1).to_set() =~= all.take(i as int).to_set().insert(id));
                lemma_tiles_of_insert(start.tile_map(), all.take(i as int).to_set(), id);
                assert(self.hidden() =~= start.hidden().difference(
                    tiles_of(start.tile_map(), all.take(i + 1).to_set()),
                ));
            }
            i = i + 1;
        }
        assert(all.take(all.len() as int) == all);
        assert(all.skip(all.len() as int) =~= Seq::<Seq<char>>::empty());
    }

    /// The closed documents, in the order they were closed, each as the
    /// first registered document with its id.
    pub fn closed_documents(&self) -> (docs: Vec<WorkspaceDocument>)
        ensures
            records(docs@) == closed_records(self.closed_ids(), self.builder_view().documents),
            self.wf() ==> docs@.len() == self.closed_ids().len(),
            self.wf() ==> forall|i: int| 0 <= i < docs@.len() ==> #[trigger] docs@[i]@
                == self.builder_view().documents[first_index(
                    record_ids(self.builder_view().documents),
                    self.closed_ids()[i],
                )],
    {
        proof {
            if self.wf() {
                assert forall|k: Seq<char>| #[trigger] self.closed_ids().contains(k)
                    implies record_ids(self.builder_view().documents).contains(k) by {
                    assert(self.placed().contains(k));
                }
                lemma_closed_records_registered(self.closed_ids(), self.builder_view().documents);
            }
        }
        let ghost closed = self.closed_ids();
        let ghost registry = self.builder_view().documents;
        let mut docs: Vec<WorkspaceDocument> = Vec::new();
        let mut i: usize = 0;
        assert(records(docs@) =~= Seq::<DocumentRecord>::empty());
        while i < self.closed_document_ids.len()
            invariant
                i <= self.closed_document_ids@.len(),
                closed == texts(self.closed_document_ids@),
                registry == records(self.builder.documents@),
                records(docs@) == closed_records(closed.take(i as int), registry),
            decreases self.closed_document_ids@.len() - i,
        {
            let ghost earlier = docs@;
            assert(closed.take(i + 1).drop_last() == closed.take(i as int));
            assert(closed.take(i + 1).last() == closed[i as int]);
            proof {
                lemma_first_index(record_ids(registry), closed[i as int]);
            }
            match find_document_index(&self.builder.documents, self.closed_document_ids[i].as_str()) {
                Some(index) => {
                    docs.push(self.builder.documents[index].duplicate());
                    assert(records(docs@) =~= records(earlier).push(registry[index as int]));
                },
                None => {},
            }
            i = i + 1;
        }
        assert(closed.take(closed.len() as int) == closed);
        proof {
            if self.wf() {
                assert(records(docs@).len() == docs@.len());
                assert forall|i: int| 0 <= i < docs@.len() implies #[trigger] docs@[i]@
                    == self.builder_view().documents[first_index(
                        record_ids(self.builder_view().documents),
                        self.closed_ids()[i],
                    )] by {
                    assert(records(docs@)[i] == docs@[i]@);
                }
            }
        }
        docs
    }

    /// A snapshot of the builder and of the closed ids.
    pub fn snapshot(&self) -> (s: DocumentWorkspaceSnapshot)
        ensures
            s.builder@ == self.builder_view(),
            texts(s.closed_document_ids@) == self.closed_ids(),
    {
        let ids = self.closed_document_ids.clone();
        assert(texts(ids@) =~= self.closed_ids());
        DocumentWorkspaceSnapshot { builder: self.builder.duplicate(), closed_document_ids: ids }
    }

    /// Rebuilds the layout from a snapshot's builder and closes the
    /// snapshot's documents again, in order.
    pub fn restore(&mut self, snapshot: DocumentWorkspaceSnapshot)
        requires
            places_registered(snapshot.builder@),
        ensures
            final(self).wf(),
            final(self).consistent(),
            final(self).builder_view() == snapshot.builder@,
            final(self).placed() == placed_documents(snapshot.builder@.root),
            final(self).closed_ids() == after_closes(
                Seq::empty(),
                placed_documents(snapshot.builder@.root),
                texts(snapshot.closed_document_ids@),
            ),
            final(self).hidden() == tiles_of(final(self).tile_map(), final(self).closed_ids().to_set()),
            final(self).follows_builder(),
    {
        let DocumentWorkspaceSnapshot { builder, closed_document_ids } = snapshot;
        *self = DocumentWorkspaceLayout::from_builder(builder);
        let ghost fresh = *self;
        self.close_each(closed_document_ids, false);
        proof {
            assert(fresh.closed_ids().to_set() =~= Set::<Seq<char>>::empty());
            assert(self.closed_ids().to_set().difference(fresh.closed_ids().to_set()) =~= self.closed_ids().to_set());
            assert(Set::<u64>::empty().union(tiles_of(fresh.tile_map(), self.closed_ids().to_set()))
                =~= tiles_of(fresh.tile_map(), self.closed_ids().to_set()));
        }
    }

    /// The tree of tiles, for drawing it. Only the tree can change through
    /// the reference.
    pub fn tree_mut(&mut self) -> (tree: &mut Tree<WorkspaceDocument>)
        ensures
            *tree == old(self).tree(),
            final(self).tree() == *final(tree),
            final(self).builder_view() == old(self).builder_view(),
            final(self).tile_map() == old(self).tile_map(),
            final(self).closed_ids() == old(self).closed_ids(),
            final(self).placed() == old(self).placed(),
            final(self).wf() == old(self).wf(),
    {
        &mut self.tree
    }

    /// The tab bar height, as the bit pattern of an `f32`.
    pub fn tab_bar_height_bits(&self) -> (h: u32)
        ensures
            h == self.builder_view().tab_bar_height,
    {
        self.builder.tab_bar_height
    }

    /// The gap width, as the bit pattern of an `f32`.
    pub fn gap_width_bits(&self) -> (w: u32)
        ensures
            w == self.builder_view().gap_width,
    {
        self.builder.gap_width
    }
}

impl Clone for DocumentWorkspaceLayout {
    /// A copy of the layout: the same builder, document tiles and closed
    /// documents, and a copy of the tree with the same tiles.
    fn clone(&self) -> (l: Self)
        ensures
            l.builder_view() == self.builder_view(),
            l.tile_map() == self.tile_map(),
            l.closed_ids() == self.closed_ids(),
            l.tree_tiles() == self.tree_tiles(),
            l.tree_root() == self.tree_root(),
            l.hidden() == self.hidden(),
            l.wf() == self.wf(),
    {
        let tile_keys = self.tile_keys.clone();
        let tile_ids = self.tile_ids.clone();
        let closed_document_ids = self.closed_document_ids.clone();
        let l = DocumentWorkspaceLayout {
            builder: self.builder.duplicate(),
            tree: clone_document_tree(&self.tree),
            tile_keys,
            tile_ids,
            closed_document_ids,
        };
        assert(texts(l.tile_keys@) =~= texts(self.tile_keys@));
        assert(l.tile_ids@ =~= self.tile_ids@);
        assert(l.closed_ids() =~= self.closed_ids());
        l
    }
}

impl DocumentWorkspaceBuilder {
    /// The layout that this builder describes.
    pub fn build(self) -> (l: DocumentWorkspaceLayout)
        requires
            places_registered(self@),
        ensures
            l.wf(),
            l.consistent(),
            l.builder_view() == self@,
            l.closed_ids() == Seq::<Seq<char>>::empty(),
            l.hidden() == Set::<u64>::empty(),
            l.follows_builder(),
    {
        DocumentWorkspaceLayout::from_builder(self)
    }
}

} // verus!

verus! {

/// Law: closing a placed document that is open and then restoring it gives
/// back the closed list as it was.
pub proof fn lemma_close_then_restore(closed: Seq<Seq<char>>, placed: Set<Seq<char>>, id: Seq<char>)
    requires
        placed.contains(id),
        !closed.contains(id),
    ensures
        after_restore(after_close(closed, placed, id), id) == closed,
{
    let c2 = closed.push(id);
    assert(after_close(closed, placed, id) == c2);
    assert forall|j: int| 0 <= j < closed.len() implies c2[j] != id by {
        assert(closed[j] == c2[j]);
        if closed[j] == id {
            assert(closed.contains(id));
        }
    }
    lemma_first_index_is(c2, id, closed.len() as int);
    assert(c2.remove(closed.len() as int) =~= closed);
}

/// Law: restoring a closed document takes its first occurrence out of the
/// closed list and keeps every other closed document, in the order in which
/// they were closed; restoring a document that is not closed changes nothing.
pub proof fn lemma_restore_keeps_closing_order(closed: Seq<Seq<char>>, id: Seq<char>, i: int)
    ensures
        !closed.contains(id) ==> after_restore(closed, id) == closed,
        (0 <= i < closed.len() && closed[i] == id && forall|j: int| 0 <= j < i ==> closed[j] != id) ==> (
            after_restore(closed, id) == closed.subrange(0, i) + closed.subrange(i + 1, closed.len() as int)
            && after_restore(closed, id).len() + 1 == closed.len()
            && (forall|j: int| 0 <= j < i ==> #[trigger] after_restore(closed, id)[j] == closed[j])
            && (forall|j: int| i <= j < closed.len() - 1 ==> #[trigger] after_restore(closed, id)[j] == closed[j + 1])
        ),
{
    lemma_first_index(closed, id);
    if 0 <= i < closed.len() && closed[i] == id && forall|j: int| 0 <= j < i ==> closed[j] != id {
        lemma_first_index_is(closed, id, i);
        assert(closed.remove(i) =~= closed.subrange(0, i) + closed.subrange(i + 1, closed.len() as int));
    }
}

/// Law: asking twice to close a document closes it once.
pub proof fn lemma_close_is_idempotent(closed: Seq<Seq<char>>, placed: Set<Seq<char>>, id: Seq<char>)
    ensures
        after_close(after_close(closed, placed, id), placed, id) == after_close(closed, placed, id),
{
    if !closed.contains(id) && placed.contains(id) {
        lemma_push_contains(closed, id, id);
    }
}

/// Law: closing again, in order, the ids of a closed list (placed documents,
/// none twice) rebuilds that list; this is what restoring a snapshot does to
/// the closed list it saved.
pub proof fn lemma_snapshot_round_trip(closed: Seq<Seq<char>>, placed: Set<Seq<char>>)
    requires
        no_repeats(closed),
        forall|k: Seq<char>| #[trigger] closed.contains(k) ==> placed.contains(k),
    ensures
        after_closes(Seq::empty(), placed, closed) == closed,
    decreases closed.len(),
{
    if closed.len() > 0 {
        let init = closed.drop_last();
        let last = closed.last();
        assert(no_repeats(init));
        assert forall|k: Seq<char>| #[trigger] init.contains(k) implies placed.contains(k) by {
            let j = choose|j: int| 0 <= j < init.len() && init[j] == k;
            assert(closed[j] == k);
            assert(closed.contains(k));
        }
        lemma_snapshot_round_trip(init, placed);
        assert(closed[closed.len() - 1] == last);
        assert(closed.contains(last));
        assert(placed.contains(last));
        assert(!init.contains(last)) by {
            if init.contains(last) {
                let j = choose|j: int| 0 <= j < init.len() && init[j] == last;
                assert(closed[j] == closed[closed.len() - 1]);
            }
        }
        assert(init.push(last) == closed);
    }
}

/// Law: a layout's own snapshot can always be restored (its builder places
/// only registered documents), and restoring it gives back the same builder
/// and the same closed documents, in the same order; `restore` then hides
/// exactly their tiles and lays the tree out as the builder says.
pub proof fn lemma_restore_own_snapshot(l: DocumentWorkspaceLayout)
    requires
        l.wf(),
    ensures
        places_registered(l.builder_view()),
        after_closes(Seq::empty(), placed_documents(l.builder_view().root), l.closed_ids()) == l.closed_ids(),
{
    lemma_snapshot_round_trip(l.closed_ids(), l.placed());
}

/// Law: in a consistent layout, the tile of an open placed document is
/// shown, so hiding it on close and showing it on restore gives back the
/// hidden set as it was; the document keeps its tile, and so its place.
pub proof fn lemma_close_restore_keeps_hidden(l: DocumentWorkspaceLayout, id: Seq<char>)
    requires
        l.wf(),
        l.consistent(),
        l.placed().contains(id),
        !l.closed_ids().contains(id),
    ensures
        l.tile_map().dom().contains(id),
        !l.hidden().contains(l.tile_map()[id]),
        l.hidden().insert(l.tile_map()[id]).remove(l.tile_map()[id]) == l.hidden(),
{
    assert(l.hidden().insert(l.tile_map()[id]).remove(l.tile_map()[id]) =~= l.hidden());
}

/// Adds a node to a list of layout spec nodes.
fn push_node(nodes: &mut Vec<DocumentWorkspaceNode>, node: DocumentWorkspaceNode)
    ensures
        nodes_view(final(nodes)@) == nodes_view(old(nodes)@).push(node_view(node)),
        placed_in_all(nodes_view(final(nodes)@))
            == placed_in_all(nodes_view(old(nodes)@)).union(placed_documents(node_view(node))),
{
    let ghost before = nodes@;
    nodes.push(node);
    assert(nodes@.drop_last() == before);
    let ghost vs = nodes_view(nodes@);
    assert(vs == nodes_view(before).push(node_view(node)));
    assert(vs.drop_last() == nodes_view(before));
    assert(vs.last() == node_view(node));
}

/// The demo's document registry: a 3D model, a plot, a table, a report and notes.
pub open spec fn demo_records() -> Seq<DocumentRecord> {
    seq![
        DocumentRecord {
            id: "doc:model_3d"@,
            title: "Chassis-3D"@,
            kind: DocumentKind::Model3d,
            summary: "Primary modeling viewport with 3D interaction."@,
            lines: seq!["Viewport: Perspective"@, "Selection: Body-01"@, "Gizmo: Enabled"@],
            accent: AccentColor { r: 77, g: 126, b: 189, a: 255 },
            header_style: DocumentPaneHeaderStyle::Standalone,
            dirty: true,
            closable: false,
        },
        DocumentRecord {
            id: "doc:force_plot"@,
            title: "Force Plot"@,
            kind: DocumentKind::Plot2d,
            summary: "Analysis plot view grouped as document tabs."@,
            lines: seq!["Series: Axial Force"@, "Cursor: x=42.0, y=18.7"@, "Legend: Visible"@],
            accent: AccentColor { r: 82, g: 161, b: 125, a: 255 },
            header_style: DocumentPaneHeaderStyle::Tabbed,
            dirty: false,
            closable: true,
        },
        DocumentRecord {
            id: "doc:bom_table"@,
            title: "BOM Table"@,
            kind: DocumentKind::Table,
            summary: "Bill of materials and parameter grid."@,
            lines: seq!["Rows: 18"@, "Columns: Item / Qty / Material"@, "Filter: Active"@],
            accent: AccentColor { r: 190, g: 132, b: 76, a: 255 },
            header_style: DocumentPaneHeaderStyle::Tabbed,
            dirty: false,
            closable: true,
        },
        DocumentRecord {
            id: "doc:inspection_report"@,
            title: "Inspection Report"@,
            kind: DocumentKind::Report,
            summary: "Review notes, inspection checklist and snapshots."@,
            lines: seq!["Sections: 4"@, "Checklist: 9 / 12 completed"@, "Attachments: 3"@],
            accent: AccentColor { r: 146, g: 101, b: 170, a: 255 },
            header_style: DocumentPaneHeaderStyle::Tabbed,
            dirty: true,
            closable: true,
        },
        DocumentRecord {
            id: "doc:notes"@,
            title: "Notes"@,
            kind: DocumentKind::Report,
            summary: "Supplemental design notes in a secondary split."@,
            lines: seq!["TODO: Review mounting holes"@, "Pending: tolerance verification"@],
            accent: AccentColor { r: 116, g: 121, b: 138, a: 255 },
            header_style: DocumentPaneHeaderStyle::Standalone,
            dirty: false,
            closable: true,
        },
    ]
}

/// The demo's layout spec: the 3D model (in a tab group of its own) beside a
/// tab group of plot, table and report, above the notes (in a tab group of
/// their own).
pub open spec fn demo_layout() -> LayoutNode {
    LayoutNode::Split(
        WorkspaceSplitAxis::Vertical,
        seq![
            LayoutNode::Split(
                WorkspaceSplitAxis::Horizontal,
                seq![
                    LayoutNode::Tabs(seq![LayoutNode::Document("doc:model_3d"@)]),
                    LayoutNode::Tabs(
                        seq![
                            LayoutNode::Document("doc:force_plot"@),
                            LayoutNode::Document("doc:bom_table"@),
                            LayoutNode::Document("doc:inspection_report"@),
                        ],
                    ),
                ],
            ),
            LayoutNode::Tabs(seq![LayoutNode::Document("doc:notes"@)]),
        ],
    )
}

/// The demo documents: a 3D model, a plot, a table, a report and notes.
fn demo_documents() -> (docs: Vec<WorkspaceDocument>)
    ensures
        records(docs@) == demo_records(),
        record_ids(records(docs@)) == seq![
            "doc:model_3d"@,
            "doc:force_plot"@,
            "doc:bom_table"@,
            "doc:inspection_report"@,
            "doc:notes"@,
        ],
{
    let mut docs: Vec<WorkspaceDocument> = Vec::new();
    let lines = vec![owned("Viewport: Perspective"), owned("Selection: Body-01"), owned("Gizmo: Enabled")];
    assert(texts(lines@) =~= seq!["Viewport: Perspective"@, "Selection: Body-01"@, "Gizmo: Enabled"@]);
    docs.push(
        WorkspaceDocument::new(
            "doc:model_3d",
            "Chassis-3D",
            DocumentKind::Model3d,
            "Primary modeling viewport with 3D interaction.",
            lines,
            AccentColor::from_rgb(77, 126, 189),
        ).standalone().dirty(true).closable(false),
    );
    assert(docs@[0]@ == demo_records()[0]);
    let lines = vec![owned("Series: Axial Force"), owned("Cursor: x=42.0, y=18.7"), owned("Legend: Visible")];
    assert(texts(lines@) =~= seq!["Series: Axial Force"@, "Cursor: x=42.0, y=18.7"@, "Legend: Visible"@]);
    docs.push(
        WorkspaceDocument::new(
            "doc:force_plot",
            "Force Plot",
            DocumentKind::Plot2d,
            "Analysis plot view grouped as document tabs.",
            lines,
            AccentColor::from_rgb(82, 161, 125),
        ),
    );
    assert(docs@[1]@ == demo_records()[1]);
    let lines = vec![owned("Rows: 18"), owned("Columns: Item / Qty / Material"), owned("Filter: Active")];
    assert(texts(lines@) =~= seq!["Rows: 18"@, "Columns: Item / Qty / Material"@, "Filter: Active"@]);
    docs.push(
        WorkspaceDocument::new(
            "doc:bom_table",
            "BOM Table",
            DocumentKind::Table,
            "Bill of materials and parameter grid.",
            lines,
            AccentColor::from_rgb(190, 132, 76),
        ),
    );
    assert(docs@[2]@ == demo_records()[2]);
    let lines = vec![owned("Sections: 4"), owned("Checklist: 9 / 12 completed"), owned("Attachments: 3")];
    assert(texts(lines@) =~= seq!["Sections: 4"@, "Checklist: 9 / 12 completed"@, "Attachments: 3"@]);
    docs.push(
        WorkspaceDocument::new(
            "doc:inspection_report",
            "Inspection Report",
            DocumentKind::Report,
            "Review notes, inspection checklist and snapshots.",
            lines,
            AccentColor::from_rgb(146, 101, 170),
        ).dirty(true),
    );
    assert(docs@[3]@ == demo_records()[3]);
    let lines = vec![owned("TODO: Review mounting holes"), owned("Pending: tolerance verification")];
    assert(texts(lines@) =~= seq!["TODO: Review mounting holes"@, "Pending: tolerance verification"@]);
    docs.push(
        WorkspaceDocument::new(
            "doc:notes",
            "Notes",
            DocumentKind::Report,
            "Supplemental design notes in a secondary split.",
            lines,
            AccentColor::from_rgb(116, 121, 138),
        ).standalone().dirty(false),
    );
    assert(docs@[4]@ == demo_records()[4]);
    assert(records(docs@) =~= demo_records());
    assert(record_ids(records(docs@)) =~= seq![
        "doc:model_3d"@,
        "doc:force_plot"@,
        "doc:bom_table"@,
        "doc:inspection_report"@,
        "doc:notes"@,
    ]);
    docs
}

/// The demo builder: a 3D model beside a tab group of plot, table and
/// report, above a notes pane.
fn demo_workspace_builder() -> (b: DocumentWorkspaceBuilder)
    ensures
        places_registered(b@),
        placed_documents(b@.root) == set![
            "doc:model_3d"@,
            "doc:force_plot"@,
            "doc:bom_table"@,
            "doc:inspection_report"@,
            "doc:notes"@,
        ],
        record_ids(b@.documents) == seq![
            "doc:model_3d"@,
            "doc:force_plot"@,
            "doc:bom_table"@,
            "doc:inspection_report"@,
            "doc:notes"@,
        ],
        b@ == (BuilderView {
            id_source: "center_document_tree"@,
            documents: demo_records(),
            root: demo_layout(),
            tab_bar_height: DEFAULT_TAB_BAR_HEIGHT_BITS,
            gap_width: DEFAULT_GAP_WIDTH_BITS,
        }),
{
    let mut grouped: Vec<DocumentWorkspaceNode> = Vec::new();
    assert(nodes_view(grouped@) =~= Seq::<LayoutNode>::empty());
    push_node(&mut grouped, DocumentWorkspaceNode::document("doc:force_plot"));
    push_node(&mut grouped, DocumentWorkspaceNode::document("doc:bom_table"));
    push_node(&mut grouped, DocumentWorkspaceNode::document("doc:inspection_report"));
    let ghost grouped_view = seq![
        LayoutNode::Document("doc:force_plot"@),
        LayoutNode::Document("doc:bom_table"@),
        LayoutNode::Document("doc:inspection_report"@),
    ];
    assert(nodes_view(grouped@) =~= grouped_view);
    let model = DocumentWorkspaceNode::single_tab("doc:model_3d");
    proof {
        let v = seq![LayoutNode::Document("doc:model_3d"@)];
        assert(v.drop_last() =~= Seq::<LayoutNode>::empty());
        assert(v.last() == LayoutNode::Document("doc:model_3d"@));
        assert(placed_in_all(Seq::<LayoutNode>::empty()) == Set::<Seq<char>>::empty());
        assert(placed_documents(LayoutNode::Document("doc:model_3d"@)) == set!["doc:model_3d"@]);
        assert(placed_in_all(v) == Set::<Seq<char>>::empty().union(set!["doc:model_3d"@]));
    }
    let mut top: Vec<DocumentWorkspaceNode> = Vec::new();
    assert(nodes_view(top@) =~= Seq::<LayoutNode>::empty());
    push_node(&mut top, model);
    push_node(&mut top, DocumentWorkspaceNode::tabs(grouped));
    let ghost top_view = seq![
        LayoutNode::Tabs(seq![LayoutNode::Document("doc:model_3d"@)]),
        LayoutNode::Tabs(grouped_view),
    ];
    assert(nodes_view(top@) =~= top_view);
    let notes = DocumentWorkspaceNode::single_tab("doc:notes");
    proof {
        let v = seq![LayoutNode::Document("doc:notes"@)];
        assert(v.drop_last() =~= Seq::<LayoutNode>::empty());
        assert(v.last() == LayoutNode::Document("doc:notes"@));
        assert(placed_in_all(Seq::<LayoutNode>::empty()) == Set::<Seq<char>>::empty());
        assert(placed_documents(LayoutNode::Document("doc:notes"@)) == set!["doc:notes"@]);
        assert(placed_in_all(v) == Set::<Seq<char>>::empty().union(set!["doc:notes"@]));
    }
    let mut rows: Vec<DocumentWorkspaceNode> = Vec::new();
    assert(nodes_view(rows@) =~= Seq::<LayoutNode>::empty());
    push_node(&mut rows, DocumentWorkspaceNode::horizontal(top));
    push_node(&mut rows, notes);
    assert(nodes_view(rows@) =~= seq![
        LayoutNode::Split(WorkspaceSplitAxis::Horizontal, top_view),
        LayoutNode::Tabs(seq![LayoutNode::Document("doc:notes"@)]),
    ]);
    let root = DocumentWorkspaceNode::vertical(rows);
    assert(node_view(root) == demo_layout());
    let b = DocumentWorkspaceBuilder::new("center_document_tree", root)
        .documents(demo_documents())
        .tab_bar_height(DEFAULT_TAB_BAR_HEIGHT_BITS)
        .gap_width(DEFAULT_GAP_WIDTH_BITS);
    assert(placed_documents(b@.root) =~= set![
        "doc:model_3d"@,
        "doc:force_plot"@,
        "doc:bom_table"@,
        "doc:inspection_report"@,
        "doc:notes"@,
    ]);
    assert(record_ids(b@.documents) =~= seq![
        "doc:model_3d"@,
        "doc:force_plot"@,
        "doc:bom_table"@,
        "doc:inspection_report"@,
        "doc:notes"@,
    ]);
    assert forall|id: Seq<char>| #[trigger] placed_documents(b@.root).contains(id)
        implies record_ids(b@.documents).contains(id) by {
        let ids = record_ids(b@.documents);
        if id == "doc:model_3d"@ { assert(ids[0] == id); }
        else if id == "doc:force_plot"@ { assert(ids[1] == id); }
        else if id == "doc:bom_table"@ { assert(ids[2] == id); }
        else if id == "doc:inspection_report"@ { assert(ids[3] == id); }
        else { assert(ids[4] == id); }
    }
    b
}

} // verus!

verus! {

impl DocumentWorkspaceLayout {
    /// The demo workspace, with no document closed.
    pub fn demo() -> (l: Self)
        ensures
            l.wf(),
            l.consistent(),
            l.placed() == set![
                "doc:model_3d"@,
                "doc:force_plot"@,
                "doc:bom_table"@,
                "doc:inspection_report"@,
                "doc:notes"@,
            ],
            record_ids(l.builder_view().documents) == seq![
                "doc:model_3d"@,
                "doc:force_plot"@,
                "doc:bom_table"@,
                "doc:inspection_report"@,
                "doc:notes"@,
            ],
            l.builder_view() == (BuilderView {
                id_source: "center_document_tree"@,
                documents: demo_records(),
                root: demo_layout(),
                tab_bar_height: DEFAULT_TAB_BAR_HEIGHT_BITS,
                gap_width: DEFAULT_GAP_WIDTH_BITS,
            }),
            l.closed_ids() == Seq::<Seq<char>>::empty(),
            l.hidden() == Set::<u64>::empty(),
            l.follows_builder(),
    {
        demo_workspace_builder().build()
    }
}

} // verus!

verus! {

/// The first document that `node` places but `documents` does not register.
fn find_unregistered(node: &DocumentWorkspaceNode, documents: &Vec<WorkspaceDocument>) -> (r: Option<String>)
    ensures
        match r {
            Some(id) => placed_documents(node_view(*node)).contains(id@)
                && !record_ids(records(documents@)).contains(id@),
            None => forall|id: Seq<char>| #[trigger] placed_documents(node_view(*node)).contains(id)
                ==> record_ids(records(documents@)).contains(id),
        },
    decreases node, 0nat,
{
    match node {
        DocumentWorkspaceNode::Document(id) => {
            proof {
                lemma_first_index(record_ids(records(documents@)), id@);
            }
            match find_document_index(documents, id.as_str()) {
                Some(_) => None,
                None => {
                    assert(placed_documents(node_view(*node)).contains(id@));
                    Some(id.clone())
                },
            }
        },
        DocumentWorkspaceNode::Tabs(children) => {
            assert(placed_documents(node_view(*node)) == placed_in_all(nodes_view(children@)));
            find_unregistered_in(children, documents)
        },
        DocumentWorkspaceNode::Split { axis, children } => {
            assert(placed_documents(node_view(*node)) == placed_in_all(nodes_view(children@)));
            find_unregistered_in(children, documents)
        },
    }
}

/// `find_unregistered` over each of `nodes`, in order.
fn find_unregistered_in(nodes: &Vec<DocumentWorkspaceNode>, documents: &Vec<WorkspaceDocument>) -> (r: Option<String>)
    ensures
        match r {
            Some(id) => placed_in_all(nodes_view(nodes@)).contains(id@)
                && !record_ids(records(documents@)).contains(id@),
            None => forall|id: Seq<char>| #[trigger] placed_in_all(nodes_view(nodes@)).contains(id)
                ==> record_ids(records(documents@)).contains(id),
        },
    decreases nodes, 1nat,
{
    proof {
        lemma_nodes_view(nodes@);
    }
    let mut i: usize = 0;
    while i < nodes.len()
        invariant
            i <= nodes.len(),
            nodes_view(nodes@).len() == nodes@.len(),
            forall|j: int| 0 <= j < nodes@.len() ==> #[trigger] nodes_view(nodes@)[j] == node_view(nodes@[j]),
            forall|id: Seq<char>| #[trigger] placed_in_all(nodes_view(nodes@).take(i as int)).contains(id)
                ==> record_ids(records(documents@)).contains(id),
        decreases nodes.len() - i,
    {
        let found = find_unregistered(&nodes[i], documents);
        proof {
            lemma_placed_in_all(nodes_view(nodes@), i as int);
            let vs = nodes_view(nodes@);
            assert(vs.take(i + 1).drop_last() == vs.take(i as int));
            assert(vs.take(i + 1).last() == node_view(nodes@[i as int]));
            assert(placed_in_all(vs.take(i + 1))
                == placed_in_all(vs.take(i as int)).union(placed_documents(node_view(nodes@[i as int]))));
        }
        if found.is_some() {
            return found;
        }
        i = i + 1;
    }
    assert(nodes_view(nodes@).take(nodes@.len() as int) == nodes_view(nodes@));
    None
}

impl DocumentWorkspaceBuilder {
    /// The first document that the layout spec places but the registry does
    /// not hold, if any: building the layout needs there to be none.
    pub fn missing_document(&self) -> (r: Option<String>)
        ensures
            r is None <==> places_registered(self@),
            r matches Some(id) ==> placed_documents(self@.root).contains(id@)
                && !record_ids(self@.documents).contains(id@),
    {
        find_unregistered(&self.root, &self.documents)
    }
}

} // verus!
