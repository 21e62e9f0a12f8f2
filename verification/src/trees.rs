//! The state of a tree view: which nodes are expanded, which are selected,
//! which one is active, and how a row's clicks change it.

use vstd::prelude::*;
use vstd::string::StringExecFns;
use crate::text::{
    texts, no_repeats, without, first_index, lemma_first_index, lemma_without, lemma_push_contains, owned, opt_text,
    contains_text, find_text, remove_every,
};

verus! {

/// `s` with `x` taken out when it holds it, and put in when it does not.
pub open spec fn toggled(s: Set<Seq<char>>, x: Seq<char>) -> Set<Seq<char>> {
    if s.contains(x) {
        s.remove(x)
    } else {
        s.insert(x)
    }
}

/// The expanded and selected node ids of a tree view, and its active node.
#[derive(Clone, Debug)]
pub struct TreeViewState {
    pub expanded: Vec<String>,
    pub selected: Vec<String>,
    pub active: Option<String>,
}

impl Default for TreeViewState {
    fn default() -> (s: Self)
        ensures
            s.expanded@.len() == 0,
            s.selected@.len() == 0,
            s.active is None,
    {
        TreeViewState { expanded: Vec::new(), selected: Vec::new(), active: None }
    }
}

/// Toggles `id` in a list of ids: removes every copy of it, or adds it at
/// the end when there was none.
fn toggle_in(ids: &mut Vec<String>, id: &str)
    ensures
        texts(final(ids)@).to_set() == toggled(texts(old(ids)@).to_set(), id@),
        no_repeats(texts(old(ids)@)) ==> no_repeats(texts(final(ids)@)),
{
    let ghost before = texts(ids@);
    proof {
        lemma_without(before, id@);
    }
    if !remove_every(ids, id) {
        ids.push(owned(id));
        proof {
            assert(texts(ids@) =~= before.push(id@));
            assert forall|x: Seq<char>| #[trigger] texts(ids@).to_set().contains(x)
                <==> before.to_set().insert(id@).contains(x) by {
                lemma_push_contains(before, id@, x);
            }
            assert(texts(ids@).to_set() =~= before.to_set().insert(id@));
            if no_repeats(before) {
                assert forall|i: int, j: int| 0 <= i < j < texts(ids@).len()
                    implies texts(ids@)[i] != texts(ids@)[j] by {
                    if j == before.len() {
                        assert(before.contains(before[i]));
                    }
                }
            }
        }
    } else {
        proof {
            assert forall|x: Seq<char>| #[trigger] texts(ids@).to_set().contains(x)
                <==> before.to_set().remove(id@).contains(x) by {}
            assert(texts(ids@).to_set() =~= before.to_set().remove(id@));
        }
    }
}

/// The ids of the rows of `rows` from the first row of `a` to the first row
/// of `b`, inclusive.
pub open spec fn range_between(rows: Seq<Seq<char>>, a: Seq<char>, b: Seq<char>) -> Set<Seq<char>> {
    let i = first_index(rows, a);
    let j = first_index(rows, b);
    let lo = if i <= j { i } else { j };
    let hi = if i <= j { j } else { i };
    Set::new(|x: Seq<char>| exists|k: int| lo <= k <= hi && rows[k] == x)
}

/// The selection that a range click on `b` makes, with `a` the active row:
/// the rows from `a` to `b` when both are among `rows`, otherwise `b` alone.
pub open spec fn range_selection(rows: Seq<Seq<char>>, a: Option<Seq<char>>, b: Seq<char>) -> Set<Seq<char>> {
    match a {
        Some(x) => if rows.contains(x) && rows.contains(b) {
            range_between(rows, x, b)
        } else {
            set![b]
        },
        None => set![b],
    }
}

/// What the clicks on one row of a tree view were.
#[derive(Clone, Copy, Debug, PartialEq, Eq, Structural)]
pub struct TreeRowInput {
    /// The expand/collapse button of a node with children was clicked.
    pub toggle_clicked: bool,
    /// The row's label was clicked.
    pub clicked: bool,
    /// The click came with Command or Ctrl held: add to the selection.
    pub additive: bool,
    /// The click came with Shift held: select the range from the active row.
    pub range: bool,
    /// The row's label was double-clicked.
    pub double_clicked: bool,
    /// The row's label was clicked with the secondary button.
    pub secondary_clicked: bool,
}

impl TreeViewState {
    /// The expanded ids.
    pub open spec fn expanded_ids(&self) -> Set<Seq<char>> {
        texts(self.expanded@).to_set()
    }

    /// The selected ids.
    pub open spec fn selected_ids(&self) -> Set<Seq<char>> {
        texts(self.selected@).to_set()
    }

    pub fn is_expanded(&self, id: &str) -> (b: bool)
        ensures
            b == self.expanded_ids().contains(id@),
    {
        contains_text(&self.expanded, id)
    }

    pub fn is_selected(&self, id: &str) -> (b: bool)
        ensures
            b == self.selected_ids().contains(id@),
    {
        contains_text(&self.selected, id)
    }

    /// Collapses an expanded node, or expands a collapsed one.
    pub fn toggle_expanded(&mut self, id: &str)
        ensures
            final(self).expanded_ids() == toggled(old(self).expanded_ids(), id@),
            texts(final(self).selected@) == texts(old(self).selected@),
            opt_text(final(self).active) == opt_text(old(self).active),
            no_repeats(texts(old(self).expanded@)) ==> no_repeats(texts(final(self).expanded@)),
    {
        toggle_in(&mut self.expanded, id);
    }

    /// Makes `id` the only selected node and the active one.
    pub fn select_single(&mut self, id: &str)
        ensures
            texts(final(self).selected@) == seq![id@],
            final(self).selected_ids() == set![id@],
            opt_text(final(self).active) == Some(id@),
            texts(final(self).expanded@) == texts(old(self).expanded@),
    {
        self.selected.clear();
        self.selected.push(owned(id));
        self.active = Some(owned(id));
        proof {
            assert(texts(self.selected@) =~= seq![id@]);
            assert forall|x: Seq<char>| #[trigger] self.selected_ids().contains(x) <==> set![id@].contains(x) by {
                if seq![id@].contains(x) {
                    let k = choose|k: int| 0 <= k < 1 && seq![id@][k] == x;
                }
                if x == id@ {
                    assert(seq![id@][0] == x);
                }
            }
            assert(self.selected_ids() =~= set![id@]);
        }
    }

    /// Selects the rows from the active row to the row of `id`, inclusive, in
    /// the order of `rows` (the visible rows as drawn), and makes `id` active.
    /// Without an active row, or when either row is not in `rows`, selects
    /// `id` alone.
    pub fn select_range(&mut self, rows: &Vec<String>, id: &str)
        ensures
            final(self).selected_ids() == range_selection(texts(rows@), opt_text(old(self).active), id@),
            opt_text(final(self).active) == Some(id@),
            texts(final(self).expanded@) == texts(old(self).expanded@),
    {
        let ghost rs = texts(rows@);
        proof {
            lemma_first_index(rs, id@);
        }
        let anchor = match &self.active {
            Some(a) => {
                proof {
                    lemma_first_index(rs, a@);
                }
                find_text(rows, a.as_str())
            },
            None => None,
        };
        let target = find_text(rows, id);
        match (anchor, target) {
            (Some(i), Some(j)) => {
                let lo = if i <= j { i } else { j };
                let hi = if i <= j { j } else { i };
                let mut chosen: Vec<String> = Vec::new();
                let mut k: usize = lo;
                let n = rows.len();
                assert(texts(chosen@) =~= rs.subrange(lo as int, lo as int));
                while k <= hi
                    invariant
                        lo <= k <= hi + 1,
                        hi < n,
                        n == rows@.len(),
                        rs == texts(rows@),
                        texts(chosen@) == rs.subrange(lo as int, k as int),
                    decreases hi + 1 - k,
                {
                    let ghost before = chosen@;
                    let item = rows[k].clone();
                    assert(item@ == rs[k as int]);
                    chosen.push(item);
                    assert(texts(chosen@) =~= texts(before).push(rs[k as int]));
                    assert(texts(chosen@) =~= rs.subrange(lo as int, k + 1));
                    k = k + 1;
                }
                self.selected = chosen;
                self.active = Some(owned(id));
                proof {
                    let sub = rs.subrange(lo as int, hi + 1);
                    let r = range_between(rs, opt_text(old(self).active)->0, id@);
                    assert forall|x: Seq<char>| #[trigger] sub.to_set().contains(x) <==> r.contains(x) by {
                        if sub.contains(x) {
                            let m = choose|m: int| 0 <= m < sub.len() && sub[m] == x;
                            assert(rs[lo + m] == x);
                        }
                        if r.contains(x) {
                            let q = choose|q: int| lo <= q <= hi && rs[q] == x;
                            assert(sub[q - lo] == x);
                        }
                    }
                    assert(self.selected_ids() =~= r);
                }
            },
            _ => {
                self.select_single(id);
            },
        }
    }

    /// Adds `id` to the selection, or takes it out; either way it becomes active.
    pub fn toggle_selected(&mut self, id: &str)
        ensures
            final(self).selected_ids() == toggled(old(self).selected_ids(), id@),
            opt_text(final(self).active) == Some(id@),
            texts(final(self).expanded@) == texts(old(self).expanded@),
            no_repeats(texts(old(self).selected@)) ==> no_repeats(texts(final(self).selected@)),
    {
        toggle_in(&mut self.selected, id);
        self.active = Some(owned(id));
    }
}

} // verus!

verus! {

/// The expanded ids after a row's clicks: the expand button, then a
/// double-click, each toggle the node when it has children.
pub open spec fn row_expanded(e: Set<Seq<char>>, id: Seq<char>, has_children: bool, input: TreeRowInput) -> Set<Seq<char>> {
    let e1 = if has_children && input.toggle_clicked { toggled(e, id) } else { e };
    if input.double_clicked && has_children { toggled(e1, id) } else { e1 }
}

/// The selected ids after a row's primary click: the range from the active
/// row when Shift is held, added or taken out when additive, otherwise the
/// node alone.
pub open spec fn row_selected_after_click(
    s: Set<Seq<char>>,
    a: Option<Seq<char>>,
    rows: Seq<Seq<char>>,
    id: Seq<char>,
    input: TreeRowInput,
) -> Set<Seq<char>> {
    if input.clicked {
        if input.range {
            range_selection(rows, a, id)
        } else if input.additive {
            toggled(s, id)
        } else {
            set![id]
        }
    } else {
        s
    }
}

/// The selected ids after a row's clicks: a secondary click on a node that
/// is not selected selects it alone.
pub open spec fn row_selected(
    s: Set<Seq<char>>,
    a: Option<Seq<char>>,
    rows: Seq<Seq<char>>,
    id: Seq<char>,
    input: TreeRowInput,
) -> Set<Seq<char>> {
    let s1 = row_selected_after_click(s, a, rows, id, input);
    if input.secondary_clicked && !s1.contains(id) { set![id] } else { s1 }
}

/// The active id after a row's clicks.
pub open spec fn row_active(
    a: Option<Seq<char>>,
    s: Set<Seq<char>>,
    rows: Seq<Seq<char>>,
    id: Seq<char>,
    input: TreeRowInput,
) -> Option<Seq<char>> {
    if input.clicked || (input.secondary_clicked && !row_selected_after_click(s, a, rows, id, input).contains(id)) {
        Some(id)
    } else {
        a
    }
}

/// What a frame of the tree view reports: the node clicked, and the node on
/// which a context menu was requested.
#[derive(Debug)]
pub struct TreeViewResponse {
    pub clicked: Option<String>,
    pub context_requested: Option<String>,
}

impl Default for TreeViewResponse {
    fn default() -> (r: Self)
        ensures
            r.clicked is None,
            r.context_requested is None,
    {
        TreeViewResponse { clicked: None, context_requested: None }
    }
}

impl TreeViewState {
    /// Applies the clicks on the row of node `id` to the state, in the order
    /// the row handles them, and reports the click and the context request.
    /// `rows` are the ids of the visible rows in the order they are drawn,
    /// which a range click selects from.
    pub fn handle_row_input(
        &mut self,
        rows: &Vec<String>,
        id: &str,
        has_children: bool,
        input: TreeRowInput,
        response: &mut TreeViewResponse,
    )
        ensures
            final(self).expanded_ids() == row_expanded(old(self).expanded_ids(), id@, has_children, input),
            final(self).selected_ids() == row_selected(
                old(self).selected_ids(),
                opt_text(old(self).active),
                texts(rows@),
                id@,
                input,
            ),
            opt_text(final(self).active) == row_active(
                opt_text(old(self).active),
                old(self).selected_ids(),
                texts(rows@),
                id@,
                input,
            ),
            opt_text(final(response).clicked) == if input.clicked {
                Some(id@)
            } else {
                opt_text(old(response).clicked)
            },
            opt_text(final(response).context_requested) == if input.secondary_clicked {
                Some(id@)
            } else {
                opt_text(old(response).context_requested)
            },
    {
        if has_children && input.toggle_clicked {
            self.toggle_expanded(id);
        }
        if input.clicked {
            if input.range {
                self.select_range(rows, id);
            } else if input.additive {
                self.toggle_selected(id);
            } else {
                self.select_single(id);
            }
            response.clicked = Some(owned(id));
        }
        if input.double_clicked && has_children {
            self.toggle_expanded(id);
        }
        if input.secondary_clicked {
            if !self.is_selected(id) {
                self.select_single(id);
            }
            response.context_requested = Some(owned(id));
        }
    }
}

/// A node of a tree view, with its children.
#[derive(Debug)]
pub struct TreeNode<'a> {
    pub id: &'a str,
    pub label: &'a str,
    pub icon: Option<&'a str>,
    pub detail: Option<&'a str>,
    pub children: Vec<TreeNode<'a>>,
}

impl<'a> TreeNode<'a> {
    /// A node without children.
    pub fn leaf(id: &'a str, label: &'a str) -> (n: Self)
        ensures
            n.id == id,
            n.label == label,
            n.icon is None,
            n.detail is None,
            n.children@.len() == 0,
    {
        TreeNode { id, label, icon: None, detail: None, children: Vec::new() }
    }

    /// A node with the given children.
    pub fn branch(id: &'a str, label: &'a str, children: Vec<TreeNode<'a>>) -> (n: Self)
        ensures
            n.id == id,
            n.label == label,
            n.icon is None,
            n.detail is None,
            n.children == children,
    {
        TreeNode { id, label, icon: None, detail: None, children }
    }

    pub fn icon(self, icon: &'a str) -> (n: Self)
        ensures
            n == (TreeNode { icon: Some(icon), ..self }),
    {
        TreeNode { icon: Some(icon), ..self }
    }

    pub fn detail(self, detail: &'a str) -> (n: Self)
        ensures
            n == (TreeNode { detail: Some(detail), ..self }),
    {
        TreeNode { detail: Some(detail), ..self }
    }

    /// The text of the node's row: the icon and a space when there is one,
    /// then the label.
    pub fn row_text(&self) -> (s: String)
        ensures
            s@ == match self.icon {
                Some(icon) => icon@ + " "@ + self.label@,
                None => self.label@,
            },
    {
        let mut s = String::new();
        match self.icon {
            Some(icon) => {
                s.append(icon);
                s.append(" ");
            },
            None => {},
        }
        s.append(self.label);
        s
    }
}

/// The mathematical value of a tree node: its texts and those of its children.
pub struct NodeRecord {
    pub id: Seq<char>,
    pub label: Seq<char>,
    pub icon: Option<Seq<char>>,
    pub detail: Option<Seq<char>>,
    pub children: Seq<NodeRecord>,
}

/// The characters of an optional text.
pub open spec fn opt_chars(o: Option<&str>) -> Option<Seq<char>> {
    match o {
        Some(s) => Some(s@),
        None => None,
    }
}

/// The value of a tree node.
pub open spec fn tree_node_view<'a>(n: TreeNode<'a>) -> NodeRecord
    decreases n, 0nat,
{
    NodeRecord {
        id: n.id@,
        label: n.label@,
        icon: opt_chars(n.icon),
        detail: opt_chars(n.detail),
        children: tree_nodes_view(n.children@),
    }
}

/// The values of a sequence of tree nodes.
pub open spec fn tree_nodes_view<'a>(nodes: Seq<TreeNode<'a>>) -> Seq<NodeRecord>
    decreases nodes, nodes.len(),
{
    if nodes.len() == 0 {
        Seq::empty()
    } else {
        tree_nodes_view(nodes.drop_last()).push(tree_node_view(nodes.last()))
    }
}

impl<'a> TreeNode<'a> {
    /// A copy of the node and of all its descendants.
    pub fn duplicate(&self) -> (n: Self)
        ensures
            n.id == self.id,
            n.label == self.label,
            n.icon == self.icon,
            n.detail == self.detail,
            tree_node_view(n) == tree_node_view(*self),
        decreases self, 0nat,
    {
        TreeNode {
            id: self.id,
            label: self.label,
            icon: self.icon,
            detail: self.detail,
            children: duplicate_tree_nodes(&self.children),
        }
    }
}

/// Copies of a list of tree nodes, with the same values.
fn duplicate_tree_nodes<'a>(nodes: &Vec<TreeNode<'a>>) -> (r: Vec<TreeNode<'a>>)
    ensures
        tree_nodes_view(r@) == tree_nodes_view(nodes@),
    decreases nodes, 1nat,
{
    let mut out: Vec<TreeNode<'a>> = Vec::new();
    let mut i: usize = 0;
    while i < nodes.len()
        invariant
            i <= nodes.len(),
            tree_nodes_view(out@) == tree_nodes_view(nodes@.take(i as int)),
        decreases nodes.len() - i,
    {
        let ghost before = out@;
        out.push(nodes[i].duplicate());
        assert(nodes@.take(i + 1).drop_last() == nodes@.take(i as int));
        assert(out@.drop_last() == before);
        i = i + 1;
    }
    assert(nodes@.take(nodes@.len() as int) == nodes@);
    out
}

/// The ids of the rows that `nodes` draw, in order: each node's row, then,
/// when it has children and is expanded, the rows of its children.
pub open spec fn visible_ids(nodes: Seq<NodeRecord>, expanded: Set<Seq<char>>) -> Seq<Seq<char>>
    decreases nodes, nodes.len(),
{
    if nodes.len() == 0 {
        Seq::empty()
    } else {
        visible_ids(nodes.drop_last(), expanded) + node_rows(nodes.last(), expanded)
    }
}

/// The ids of the rows that one node draws.
pub open spec fn node_rows(node: NodeRecord, expanded: Set<Seq<char>>) -> Seq<Seq<char>>
    decreases node, 0nat,
{
    if node.children.len() > 0 && expanded.contains(node.id) {
        seq![node.id] + visible_ids(node.children, expanded)
    } else {
        seq![node.id]
    }
}

/// `tree_nodes_view` keeps the length and maps each node by `tree_node_view`.
proof fn lemma_tree_nodes_view<'a>(nodes: Seq<TreeNode<'a>>)
    ensures
        tree_nodes_view(nodes).len() == nodes.len(),
        forall|i: int| 0 <= i < nodes.len() ==> #[trigger] tree_nodes_view(nodes)[i] == tree_node_view(nodes[i]),
    decreases nodes.len(),
{
    if nodes.len() > 0 {
        lemma_tree_nodes_view(nodes.drop_last());
    }
}

/// Appends the rows that `node` draws.
fn push_node_rows<'a>(node: &TreeNode<'a>, state: &TreeViewState, out: &mut Vec<String>)
    ensures
        texts(final(out)@) == texts(old(out)@) + node_rows(tree_node_view(*node), state.expanded_ids()),
    decreases node, 0nat,
{
    let ghost start = texts(out@);
    out.push(owned(node.id));
    assert(texts(out@) =~= start + seq![node.id@]);
    proof {
        lemma_tree_nodes_view(node.children@);
    }
    if node.children.len() > 0 && state.is_expanded(node.id) {
        let ghost mid = texts(out@);
        push_rows(&node.children, state, out);
        assert(texts(out@) =~= start + (seq![node.id@] + visible_ids(tree_nodes_view(node.children@), state.expanded_ids())));
    }
}

/// Appends the rows that `nodes` draw.
fn push_rows<'a>(nodes: &Vec<TreeNode<'a>>, state: &TreeViewState, out: &mut Vec<String>)
    ensures
        texts(final(out)@) == texts(old(out)@) + visible_ids(tree_nodes_view(nodes@), state.expanded_ids()),
    decreases nodes, 1nat,
{
    let ghost start = texts(out@);
    let mut i: usize = 0;
    assert(visible_ids(tree_nodes_view(nodes@.take(0)), state.expanded_ids()) =~= Seq::<Seq<char>>::empty());
    assert(texts(out@) =~= start + Seq::<Seq<char>>::empty());
    while i < nodes.len()
        invariant
            i <= nodes@.len(),
            texts(out@) == start + visible_ids(tree_nodes_view(nodes@.take(i as int)), state.expanded_ids()),
        decreases nodes@.len() - i,
    {
        let ghost before = texts(out@);
        push_node_rows(&nodes[i], state, out);
        proof {
            let t1 = nodes@.take(i + 1);
            assert(t1.drop_last() == nodes@.take(i as int));
            assert(t1.last() == nodes@[i as int]);
            assert(tree_nodes_view(t1) == tree_nodes_view(nodes@.take(i as int)).push(tree_node_view(nodes@[i as int])));
            let v = tree_nodes_view(t1);
            assert(v.drop_last() =~= tree_nodes_view(nodes@.take(i as int)));
            assert(texts(out@) =~= start + visible_ids(v, state.expanded_ids()));
        }
        i = i + 1;
    }
    assert(nodes@.take(nodes@.len() as int) == nodes@);
}

impl TreeViewState {
    /// The ids of the rows that a tree view of `nodes` draws with this
    /// state, in the order it draws them: the rows that a range click
    /// selects from.
    pub fn visible_rows<'a>(&self, nodes: &Vec<TreeNode<'a>>) -> (rows: Vec<String>)
        ensures
            texts(rows@) == visible_ids(tree_nodes_view(nodes@), self.expanded_ids()),
    {
        let mut rows: Vec<String> = Vec::new();
        assert(texts(rows@) =~= Seq::<Seq<char>>::empty());
        push_rows(nodes, self, &mut rows);
        assert(texts(rows@) =~= visible_ids(tree_nodes_view(nodes@), self.expanded_ids()));
        rows
    }
}

impl<'a> Clone for TreeNode<'a> {
    fn clone(&self) -> (n: Self)
        ensures
            tree_node_view(n) == tree_node_view(*self),
    {
        self.duplicate()
    }
}

/// Law: toggling the same id twice gives back the set it started from;
/// collapsing and re-expanding a node, or deselecting and reselecting it
/// additively, leaves the tree view's sets as they were.
pub proof fn lemma_toggle_twice(s: Set<Seq<char>>, x: Seq<char>)
    ensures
        toggled(toggled(s, x), x) == s,
{
    assert(toggled(toggled(s, x), x) =~= s);
}

/// Law: toggling an id changes whether the set holds it, and nothing else.
pub proof fn lemma_toggle_flips(s: Set<Seq<char>>, x: Seq<char>, y: Seq<char>)
    ensures
        toggled(s, x).contains(x) == !s.contains(x),
        y != x ==> toggled(s, x).contains(y) == s.contains(y),
{
}

/// Law: a primary click without Shift, Command or Ctrl leaves the clicked
/// node as the only selected one and the active one, whatever was selected
/// before.
pub proof fn lemma_plain_click_selects_only(
    s: Set<Seq<char>>,
    a: Option<Seq<char>>,
    rows: Seq<Seq<char>>,
    id: Seq<char>,
    input: TreeRowInput,
)
    requires
        input.clicked,
        !input.range,
        !input.additive,
    ensures
        row_selected(s, a, rows, id, input) == set![id],
        row_active(a, s, rows, id, input) == Some(id),
{
    assert(set![id].contains(id));
}

/// The range between two rows holds both, and every row drawn between them.
pub proof fn lemma_range_between(rows: Seq<Seq<char>>, a: Seq<char>, b: Seq<char>)
    requires
        rows.contains(a),
        rows.contains(b),
    ensures
        range_between(rows, a, b).contains(a),
        range_between(rows, a, b).contains(b),
        forall|k: int| #![trigger rows[k]]
            (first_index(rows, a) <= k <= first_index(rows, b) || first_index(rows, b) <= k <= first_index(rows, a))
            ==> range_between(rows, a, b).contains(rows[k]),
{
    lemma_first_index(rows, a);
    lemma_first_index(rows, b);
    let i = first_index(rows, a);
    let j = first_index(rows, b);
    assert(rows[i] == a);
    assert(rows[j] == b);
}

/// Law: a Shift-click on a row, with the active row among the visible rows,
/// selects exactly the visible rows from the active row to the clicked one,
/// both included, and makes the clicked row active.
pub proof fn lemma_range_click_selects_range(
    s: Set<Seq<char>>,
    a: Seq<char>,
    rows: Seq<Seq<char>>,
    id: Seq<char>,
    input: TreeRowInput,
)
    requires
        input.clicked,
        input.range,
        rows.contains(a),
        rows.contains(id),
    ensures
        row_selected(s, Some(a), rows, id, input) == range_between(rows, a, id),
        row_selected(s, Some(a), rows, id, input).contains(a),
        row_selected(s, Some(a), rows, id, input).contains(id),
        row_active(Some(a), s, rows, id, input) == Some(id),
{
    lemma_range_between(rows, a, id);
}

/// Law: a secondary click leaves the clicked node selected.
pub proof fn lemma_context_click_selects(
    s: Set<Seq<char>>,
    a: Option<Seq<char>>,
    rows: Seq<Seq<char>>,
    id: Seq<char>,
    input: TreeRowInput,
)
    requires
        input.secondary_clicked,
    ensures
        row_selected(s, a, rows, id, input).contains(id),
{
    assert(set![id].contains(id));
}


/// Law: a Command- or Ctrl-click (without Shift and without a secondary
/// click) flips the clicked node's selection: a selected node leaves the
/// selection, an unselected one joins it, every other node keeps its state,
/// and the clicked node becomes the active one.
pub proof fn lemma_additive_click_toggles(
    s: Set<Seq<char>>,
    a: Option<Seq<char>>,
    rows: Seq<Seq<char>>,
    id: Seq<char>,
    input: TreeRowInput,
)
    requires
        input.clicked,
        !input.range,
        input.additive,
        !input.secondary_clicked,
    ensures
        row_selected(s, a, rows, id, input).contains(id) == !s.contains(id),
        s.contains(id) ==> row_selected(s, a, rows, id, input) =~= s.remove(id),
        !s.contains(id) ==> row_selected(s, a, rows, id, input) =~= s.insert(id),
        forall|x: Seq<char>| x != id ==> (#[trigger] row_selected(s, a, rows, id, input).contains(x) == s.contains(x)),
        row_active(a, s, rows, id, input) == Some(id),
{
}

/// Law: on a node with children, a click on the expand/collapse button, or a
/// double-click on the label, flips whether the node is expanded (an expanded
/// node collapses, a collapsed one expands) and leaves every other node as it
/// was; both at once flip it twice and change nothing; a node without
/// children never changes the expanded set.
pub proof fn lemma_expand_button_toggles(e: Set<Seq<char>>, id: Seq<char>, input: TreeRowInput)
    ensures
        input.toggle_clicked != input.double_clicked ==> (
            row_expanded(e, id, true, input).contains(id) == !e.contains(id)
            && (e.contains(id) ==> row_expanded(e, id, true, input) =~= e.remove(id))
            && (!e.contains(id) ==> row_expanded(e, id, true, input) =~= e.insert(id))
        ),
        input.toggle_clicked != input.double_clicked ==> forall|x: Seq<char>|
            x != id ==> (#[trigger] row_expanded(e, id, true, input).contains(x) == e.contains(x)),
        input.toggle_clicked && input.double_clicked ==> row_expanded(e, id, true, input) =~= e,
        !input.toggle_clicked && !input.double_clicked ==> row_expanded(e, id, true, input) =~= e,
        row_expanded(e, id, false, input) =~= e,
{
    lemma_toggle_twice(e, id);
}

} // verus!
