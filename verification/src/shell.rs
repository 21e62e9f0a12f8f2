//! The application shell: its toolbar, and the open/pinned state of the four
//! docked panels and the status bar texts.

use vstd::prelude::*;
use crate::text::{owned, opt_text, same_text};

verus! {

/// A button of the toolbar.
#[derive(Clone, Copy, Debug)]
pub struct ToolbarAction<'a> {
    pub id: &'a str,
    pub label: &'a str,
    pub selected: bool,
    pub enabled: bool,
}

impl<'a> ToolbarAction<'a> {
    /// An enabled, unselected button.
    pub fn new(id: &'a str, label: &'a str) -> (a: Self)
        ensures
            a.id == id,
            a.label == label,
            !a.selected,
            a.enabled,
    {
        ToolbarAction { id, label, selected: false, enabled: true }
    }

    pub fn selected(self, selected: bool) -> (a: Self)
        ensures
            a == (ToolbarAction { selected, ..self }),
    {
        ToolbarAction { selected, ..self }
    }

    pub fn enabled(self, enabled: bool) -> (a: Self)
        ensures
            a == (ToolbarAction { enabled, ..self }),
    {
        ToolbarAction { enabled, ..self }
    }
}

/// A row of toolbar buttons.
pub struct Toolbar<'a> {
    id_source: &'a str,
    actions: &'a [ToolbarAction<'a>],
}

/// What a frame of the toolbar reports: the id of the clicked button.
#[derive(Debug)]
pub struct ToolbarResponse {
    pub clicked: Option<String>,
}

impl Default for ToolbarResponse {
    fn default() -> (r: Self)
        ensures
            r.clicked is None,
    {
        ToolbarResponse { clicked: None }
    }
}

impl<'a> Toolbar<'a> {
    pub closed spec fn id_source_spec(&self) -> &'a str {
        self.id_source
    }

    pub closed spec fn actions_spec(&self) -> &'a [ToolbarAction<'a>] {
        self.actions
    }

    pub fn new(id_source: &'a str, actions: &'a [ToolbarAction<'a>]) -> (t: Self)
        ensures
            t.id_source_spec() == id_source,
            t.actions_spec() == actions,
    {
        Toolbar { id_source, actions }
    }

    /// The id that keeps the toolbar's widgets apart from others.
    pub fn source_id(&self) -> (s: &'a str)
        ensures
            s == self.id_source_spec(),
    {
        self.id_source
    }

    /// The buttons, in the order they are drawn.
    pub fn action_list(&self) -> (a: &'a [ToolbarAction<'a>])
        ensures
            a == self.actions_spec(),
    {
        self.actions
    }

    /// Takes in a click on one button, in the order the buttons are drawn:
    /// a clicked button is reported, over any reported before it.
    pub fn handle_click(action: &ToolbarAction, clicked: bool, response: &mut ToolbarResponse)
        ensures
            opt_text(final(response).clicked) == if clicked {
                Some(action.id@)
            } else {
                opt_text(old(response).clicked)
            },
    {
        if clicked {
            response.clicked = Some(owned(action.id));
        }
    }
}

/// The tool that a button of the main toolbar selects, by the button's id:
/// "select", "sketch", "extrude" and "measure" name their tools, and any
/// other id falls back to "Select".
pub open spec fn tool_name_for(action_id: Seq<char>) -> Seq<char> {
    if action_id == "sketch"@ {
        "Sketch"@
    } else if action_id == "extrude"@ {
        "Extrude"@
    } else if action_id == "measure"@ {
        "Measure"@
    } else {
        "Select"@
    }
}

/// The name of the tool that the main toolbar's button `action_id` selects.
pub fn tool_for_action(action_id: &str) -> (name: &'static str)
    ensures
        name@ == tool_name_for(action_id@),
{
    if reads(action_id, "sketch") {
        "Sketch"
    } else if reads(action_id, "extrude") {
        "Extrude"
    } else if reads(action_id, "measure") {
        "Measure"
    } else {
        "Select"
    }
}

/// What a click on a panel header's action asks of a docked panel.
pub open spec fn after_header_action(open: bool, pinned: bool, action: Option<Seq<char>>) -> (bool, bool) {
    match action {
        Some(a) => if a == "pin"@ {
            (open, !pinned)
        } else if a == "collapse"@ {
            (false, pinned)
        } else {
            (open, pinned)
        },
        None => (open, pinned),
    }
}

/// Whether a borrowed string reads `expected`.
fn reads(action: &str, expected: &str) -> (b: bool)
    ensures
        b == (action@ == expected@),
{
    same_text(&owned(action), expected)
}

/// A docked side panel: its title, whether it is open and pinned, and its
/// width as the bit pattern of an `f32`.
#[derive(Clone, Debug)]
pub struct ShellPanelState {
    pub title: String,
    pub open: bool,
    pub pinned: bool,
    pub width: u32,
}

impl ShellPanelState {
    /// Opens the region again from its collapsed strip; its pin, title and
    /// size stay as they were.
    pub fn reopen(&mut self)
        ensures
            final(self).open,
            final(self).pinned == old(self).pinned,
            final(self).title@ == old(self).title@,
            final(self).width == old(self).width,
    {
        self.open = true;
    }

    /// An open, pinned panel.
    pub fn new(title: &str, width: u32) -> (p: Self)
        ensures
            p.title@ == title@,
            p.open,
            p.pinned,
            p.width == width,
    {
        ShellPanelState { title: owned(title), open: true, pinned: true, width }
    }

    /// Applies the action clicked in the panel's header: "pin" flips the pin,
    /// "collapse" closes the panel, anything else does nothing.
    pub fn apply_header_action(&mut self, action: Option<&str>)
        ensures
            (final(self).open, final(self).pinned) == after_header_action(
                old(self).open,
                old(self).pinned,
                match action { Some(a) => Some(a@), None => None },
            ),
            final(self).title@ == old(self).title@,
            final(self).width == old(self).width,
    {
        match action {
            Some(a) => {
                if reads(a, "pin") {
                    self.pinned = !self.pinned;
                } else if reads(a, "collapse") {
                    self.open = false;
                }
            },
            None => {},
        }
    }
}

/// A docked band above or below the workspace: its title, whether it is
/// open and pinned, and its height as the bit pattern of an `f32`.
#[derive(Clone, Debug)]
pub struct ShellBandState {
    pub title: String,
    pub open: bool,
    pub pinned: bool,
    pub height: u32,
}

impl ShellBandState {
    /// Opens the region again from its collapsed strip; its pin, title and
    /// size stay as they were.
    pub fn reopen(&mut self)
        ensures
            final(self).open,
            final(self).pinned == old(self).pinned,
            final(self).title@ == old(self).title@,
            final(self).height == old(self).height,
    {
        self.open = true;
    }

    /// An open, pinned band.
    pub fn new(title: &str, height: u32) -> (b: Self)
        ensures
            b.title@ == title@,
            b.open,
            b.pinned,
            b.height == height,
    {
        ShellBandState { title: owned(title), open: true, pinned: true, height }
    }

    /// Applies the action clicked in the band's header, as
    /// `ShellPanelState::apply_header_action` does.
    pub fn apply_header_action(&mut self, action: Option<&str>)
        ensures
            (final(self).open, final(self).pinned) == after_header_action(
                old(self).open,
                old(self).pinned,
                match action { Some(a) => Some(a@), None => None },
            ),
            final(self).title@ == old(self).title@,
            final(self).height == old(self).height,
    {
        match action {
            Some(a) => {
                if reads(a, "pin") {
                    self.pinned = !self.pinned;
                } else if reads(a, "collapse") {
                    self.open = false;
                }
            },
            None => {},
        }
    }
}

/// The bit pattern of the `f32` 72.0: the default height of the top band.
pub const TOP_BAND_HEIGHT_BITS: u32 = 0x4290_0000u32;

/// The bit pattern of the `f32` 260.0: the default width of the left panel.
pub const LEFT_PANEL_WIDTH_BITS: u32 = 0x4382_0000u32;

/// The bit pattern of the `f32` 300.0: the default width of the right panel.
pub const RIGHT_PANEL_WIDTH_BITS: u32 = 0x4396_0000u32;

/// The bit pattern of the `f32` 160.0: the default height of the bottom band.
pub const BOTTOM_BAND_HEIGHT_BITS: u32 = 0x4320_0000u32;

/// The state of the shell's four docked regions and of its status bar.
#[derive(Clone, Debug)]
pub struct ShellLayoutState {
    pub top: ShellBandState,
    pub left: ShellPanelState,
    pub right: ShellPanelState,
    pub bottom: ShellBandState,
    pub status_message: String,
    pub status_detail: String,
}

impl Default for ShellLayoutState {
    /// All four regions open and pinned: "Tool Options" on top, "Model" on
    /// the left, "Properties" on the right, "Messages" below; the status
    /// reads "Ready" and "100% | mm".
    fn default() -> (s: Self)
        ensures
            s.top.title@ == "Tool Options"@,
            s.top.open && s.top.pinned && s.top.height == TOP_BAND_HEIGHT_BITS,
            s.left.title@ == "Model"@,
            s.left.open && s.left.pinned && s.left.width == LEFT_PANEL_WIDTH_BITS,
            s.right.title@ == "Properties"@,
            s.right.open && s.right.pinned && s.right.width == RIGHT_PANEL_WIDTH_BITS,
            s.bottom.title@ == "Messages"@,
            s.bottom.open && s.bottom.pinned && s.bottom.height == BOTTOM_BAND_HEIGHT_BITS,
            s.status_message@ == "Ready"@,
            s.status_detail@ == "100% | mm"@,
    {
        ShellLayoutState {
            top: ShellBandState::new("Tool Options", TOP_BAND_HEIGHT_BITS),
            left: ShellPanelState::new("Model", LEFT_PANEL_WIDTH_BITS),
            right: ShellPanelState::new("Properties", RIGHT_PANEL_WIDTH_BITS),
            bottom: ShellBandState::new("Messages", BOTTOM_BAND_HEIGHT_BITS),
            status_message: owned("Ready"),
            status_detail: owned("100% | mm"),
        }
    }
}

/// Law: clicking "pin" twice leaves a panel as it was.
pub proof fn lemma_pin_twice(open: bool, pinned: bool)
    ensures
        after_header_action(
            after_header_action(open, pinned, Some("pin"@)).0,
            after_header_action(open, pinned, Some("pin"@)).1,
            Some("pin"@),
        ) == (open, pinned),
{
}

/// Law: "collapse" closes a panel and keeps its pin, whatever its state.
pub proof fn lemma_collapse_closes(open: bool, pinned: bool)
    ensures
        after_header_action(open, pinned, Some("collapse"@)) == (false, pinned),
{
    reveal_strlit("pin");
    reveal_strlit("collapse");
    assert("collapse"@ != "pin"@) by {
        assert("collapse"@[0] != "pin"@[0]);
    }
}

} // verus!
