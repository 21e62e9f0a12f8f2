//! Panel headers (a title, an optional subtitle and action buttons) and the
//! result of a property grid.

use vstd::prelude::*;
use crate::text::{owned, opt_text};

verus! {

/// The label of a pin toggle: "[P]" when pinned, "[ ]" otherwise.
pub open spec fn pin_text(pinned: bool) -> Seq<char> {
    if pinned { "[P]"@ } else { "[ ]"@ }
}

/// The label of a pin toggle.
pub fn pin_label(pinned: bool) -> (s: &'static str)
    ensures
        s@ == pin_text(pinned),
{
    if pinned { "[P]" } else { "[ ]" }
}

/// A button in a panel header.
#[derive(Clone, Copy, Debug)]
pub struct PanelHeaderAction<'a> {
    pub id: &'a str,
    pub label: &'a str,
    pub selected: bool,
}

impl<'a> PanelHeaderAction<'a> {
    pub fn new(id: &'a str, label: &'a str) -> (a: Self)
        ensures
            a.id == id,
            a.label == label,
            !a.selected,
    {
        PanelHeaderAction { id, label, selected: false }
    }

    pub fn selected(self, selected: bool) -> (a: Self)
        ensures
            a == (PanelHeaderAction { selected, ..self }),
    {
        PanelHeaderAction { selected, ..self }
    }
}

/// The header of a panel.
pub struct PanelHeader<'a> {
    title: &'a str,
    subtitle: Option<&'a str>,
    actions: Vec<PanelHeaderAction<'a>>,
}

impl<'a> PanelHeader<'a> {
    pub closed spec fn title_spec(&self) -> &'a str {
        self.title
    }

    pub closed spec fn subtitle_spec(&self) -> Option<&'a str> {
        self.subtitle
    }

    pub closed spec fn actions_spec(&self) -> Seq<PanelHeaderAction<'a>> {
        self.actions@
    }

    /// A header with a title, no subtitle and no action.
    pub fn new(title: &'a str) -> (h: Self)
        ensures
            h.title_spec() == title,
            h.subtitle_spec() is None,
            h.actions_spec() == Seq::<PanelHeaderAction<'a>>::empty(),
    {
        PanelHeader { title, subtitle: None, actions: Vec::new() }
    }

    pub fn subtitle(self, subtitle: &'a str) -> (h: Self)
        ensures
            h.title_spec() == self.title_spec(),
            h.subtitle_spec() == Some(subtitle),
            h.actions_spec() == self.actions_spec(),
    {
        PanelHeader { subtitle: Some(subtitle), ..self }
    }

    /// Adds an action after those already there.
    pub fn action(self, action: PanelHeaderAction<'a>) -> (h: Self)
        ensures
            h.title_spec() == self.title_spec(),
            h.subtitle_spec() == self.subtitle_spec(),
            h.actions_spec() == self.actions_spec().push(action),
    {
        let mut h = self;
        h.actions.push(action);
        h
    }

    pub fn header_title(&self) -> (t: &'a str)
        ensures
            t == self.title_spec(),
    {
        self.title
    }

    pub fn header_subtitle(&self) -> (t: Option<&'a str>)
        ensures
            t == self.subtitle_spec(),
    {
        self.subtitle
    }

    /// The actions, in the order they were added; they are drawn from the
    /// right edge, the first one rightmost.
    pub fn header_actions(&self) -> (a: &Vec<PanelHeaderAction<'a>>)
        ensures
            a@ == self.actions_spec(),
    {
        &self.actions
    }
}

/// The index of the first clicked action, or -1 when none was clicked.
pub open spec fn first_clicked(clicked: Seq<bool>) -> int
    decreases clicked.len(),
{
    if clicked.len() == 0 {
        -1
    } else if clicked[0] {
        0
    } else {
        let rest = first_clicked(clicked.drop_first());
        if rest < 0 { -1 } else { rest + 1 }
    }
}

/// What a frame of a panel header reports: the id of the clicked action.
#[derive(Debug)]
pub struct PanelHeaderResponse {
    pub clicked_action: Option<String>,
}

impl PanelHeaderResponse {
    /// The response for one frame, given which action buttons were clicked
    /// (`clicked[i]` for `actions[i]`). The buttons are handled from the last
    /// action to the first, each click overriding the one before, so the
    /// first clicked action is the one reported.
    pub fn from_clicks(actions: &Vec<PanelHeaderAction>, clicked: &Vec<bool>) -> (r: Self)
        requires
            clicked@.len() == actions@.len(),
        ensures
            first_clicked(clicked@) < 0 ==> r.clicked_action is None,
            first_clicked(clicked@) >= 0 ==> opt_text(r.clicked_action) == Some(actions@[first_clicked(clicked@)].id@),
    {
        let mut clicked_action: Option<String> = None;
        let mut i: usize = actions.len();
        while i > 0
            invariant
                i <= actions@.len(),
                clicked@.len() == actions@.len(),
                first_clicked(clicked@.skip(i as int)) < 0 ==> clicked_action is None,
                first_clicked(clicked@.skip(i as int)) >= 0 ==> opt_text(clicked_action)
                    == Some(actions@[i + first_clicked(clicked@.skip(i as int))].id@),
            decreases i,
        {
            i = i - 1;
            assert(clicked@.skip(i as int).drop_first() == clicked@.skip(i + 1));
            assert(clicked@.skip(i as int)[0] == clicked@[i as int]);
            if clicked[i] {
                clicked_action = Some(owned(actions[i].id));
            }
        }
        assert(clicked@.skip(0) == clicked@);
        PanelHeaderResponse { clicked_action }
    }
}

/// What a frame of a property grid reports: whether any row changed, and the
/// label of the last row that did.
#[derive(Debug)]
pub struct PropertyGridResponse {
    pub changed: bool,
    pub last_changed: Option<String>,
}

impl PropertyGridResponse {
    /// Nothing changed yet.
    pub fn new() -> (r: Self)
        ensures
            !r.changed,
            r.last_changed is None,
    {
        PropertyGridResponse { changed: false, last_changed: None }
    }

    /// Takes in one row, in the order the rows are drawn.
    pub fn record_row(&mut self, label: &str, row_changed: bool)
        ensures
            final(self).changed == (old(self).changed || row_changed),
            opt_text(final(self).last_changed) == if row_changed {
                Some(label@)
            } else {
                opt_text(old(self).last_changed)
            },
    {
        if row_changed {
            self.changed = true;
            self.last_changed = Some(owned(label));
        }
    }
}

} // verus!
