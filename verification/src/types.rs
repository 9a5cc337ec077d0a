use vstd::prelude::*;

use crate::actions::{Button, Fraction, KeybindingAction, PointerAction};

verus! {

/// Number of workspaces that every output owns.
pub const WORKSPACE_COUNT: usize = 10;

/// Identity of a compositor object (window, node, output): the library finds
/// objects again by this number, the application maps it to the protocol
/// object.
pub type ObjectId = u64;

/// An axis-aligned rectangle in layout coordinates.
#[derive(Clone, Copy, Debug, PartialEq, Eq, Structural)]
pub struct Rectangle {
    pub x: i32,
    pub y: i32,
    pub width: i32,
    pub height: i32,
}

impl Rectangle {
    /// The empty rectangle at the origin.
    pub fn zero() -> (r: Rectangle)
        ensures
            r == (Rectangle { x: 0, y: 0, width: 0, height: 0 }),
    {
        Rectangle { x: 0, y: 0, width: 0, height: 0 }
    }

    /// Field-wise equality.
    pub fn eql(&self, other: Rectangle) -> (b: bool)
        ensures
            b == (*self == other),
    {
        self.x == other.x && self.y == other.y && self.width == other.width && self.height
            == other.height
    }
}

/// Equality of two optional rectangles.
pub fn opt_rect_eq(a: Option<Rectangle>, b: Option<Rectangle>) -> (r: bool)
    ensures
        r == (a == b),
{
    match (a, b) {
        (Some(x), Some(y)) => x.eql(y),
        (None, None) => true,
        _ => false,
    }
}

/// Equality of two optional object ids.
pub fn opt_id_eq(a: Option<ObjectId>, b: Option<ObjectId>) -> (r: bool)
    ensures
        r == (a == b),
{
    match (a, b) {
        (Some(x), Some(y)) => x == y,
        (None, None) => true,
        _ => false,
    }
}

/// The characters of an optional name.
pub open spec fn name_view(n: Option<String>) -> Option<Seq<char>> {
    match n {
        Some(s) => Some(s@),
        None => None,
    }
}

/// Equality of two optional names.
pub fn opt_string_eq(a: &Option<String>, b: &Option<String>) -> (r: bool)
    ensures
        r == (name_view(*a) == name_view(*b)),
{
    match (a, b) {
        (Some(x), Some(y)) => *x == *y,
        (None, None) => true,
        _ => false,
    }
}

/// The two per-workspace layouts.
#[derive(Clone, Copy, Debug, PartialEq, Eq, Structural)]
pub enum Layout {
    Scroller,
    Floating,
}

/// Per-window geometry and the caches of what was last sent for it.
#[derive(Clone, Debug)]
pub struct WindowGeom {
    /// Column width as a fraction of the usable output width.
    pub proportion: Fraction,
    /// Where the window is now.
    pub current: Rectangle,
    /// Where the window sits while floating.
    pub floating: Rectangle,
    /// Layout target still to be committed.
    pub finish: Option<Rectangle>,
    /// Geometry at the start of a pointer drag.
    pub drag_origin: Option<Rectangle>,
    pub is_floating: bool,
    pub is_fullscreen: bool,
    pub is_closing: bool,
    /// Name of the output the window was moved away from, if any.
    pub former_output_name: Option<String>,
    pub sent_visible: Option<bool>,
    pub sent_current: Option<Rectangle>,
    pub sent_clip: Option<Rectangle>,
    pub sent_border_focused: Option<bool>,
    pub sent_border_width: Option<u32>,
}

impl WindowGeom {
    /// A tiled, non-fullscreen geometry at `current` with nothing sent yet.
    pub fn new(proportion: Fraction, current: Rectangle) -> (g: WindowGeom)
        ensures
            g.proportion == proportion,
            g.current == current,
            g.floating == current,
            g.finish is None,
            g.drag_origin is None,
            !g.is_floating,
            !g.is_fullscreen,
            !g.is_closing,
            g.former_output_name is None,
            g.sent_visible is None,
            g.sent_current is None,
            g.sent_clip is None,
            g.sent_border_focused is None,
            g.sent_border_width is None,
    {
        WindowGeom {
            proportion,
            current,
            floating: current,
            finish: None,
            drag_origin: None,
            is_floating: false,
            is_fullscreen: false,
            is_closing: false,
            former_output_name: None,
            sent_visible: None,
            sent_current: None,
            sent_clip: None,
            sent_border_focused: None,
            sent_border_width: None,
        }
    }
}

/// An optional name, duplicated.
pub fn copy_name(n: &Option<String>) -> (r: Option<String>)
    ensures
        r == *n,
{
    match n {
        Some(s) => Some(s.clone()),
        None => None,
    }
}

impl WindowGeom {
    /// A field-by-field duplicate of the geometry.
    pub fn duplicate(&self) -> (r: WindowGeom)
        ensures
            r == *self,
    {
        WindowGeom {
            proportion: self.proportion,
            current: self.current,
            floating: self.floating,
            finish: self.finish,
            drag_origin: self.drag_origin,
            is_floating: self.is_floating,
            is_fullscreen: self.is_fullscreen,
            is_closing: self.is_closing,
            former_output_name: copy_name(&self.former_output_name),
            sent_visible: self.sent_visible,
            sent_current: self.sent_current,
            sent_clip: self.sent_clip,
            sent_border_focused: self.sent_border_focused,
            sent_border_width: self.sent_border_width,
        }
    }
}

/// A managed window: its compositor identity and its geometry.
#[derive(Clone, Debug)]
pub struct Window {
    pub id: ObjectId,
    pub geom: WindowGeom,
}

/// One workspace: an ordered window list and the focused position in it.
#[derive(Clone, Debug)]
pub struct Workspace {
    pub window_list: Vec<Window>,
    pub focused_window_idx: Option<usize>,
    pub layout: Layout,
    pub is_floating: bool,
}

impl Workspace {
    /// An empty scrolling workspace.
    pub fn new() -> (w: Workspace)
        ensures
            w.window_list@.len() == 0,
            w.focused_window_idx is None,
            w.layout == Layout::Scroller,
            !w.is_floating,
    {
        Workspace {
            window_list: Vec::new(),
            focused_window_idx: None,
            layout: Layout::Scroller,
            is_floating: false,
        }
    }

    /// The window at the focused position, if there is one.
    pub open spec fn spec_focused_window(&self) -> Option<Window> {
        match self.focused_window_idx {
            Some(i) => if i < self.window_list@.len() {
                Some(self.window_list@[i as int])
            } else {
                None
            },
            None => None,
        }
    }

    /// The focused window.
    pub fn focused_window(&self) -> (w: Option<&Window>)
        ensures
            match w {
                Some(w) => self.spec_focused_window() == Some(*w),
                None => self.spec_focused_window() is None,
            },
    {
        match self.focused_window_idx {
            Some(i) => if i < self.window_list.len() {
                Some(&self.window_list[i])
            } else {
                None
            },
            None => None,
        }
    }
}

/// Ten fresh workspaces.
pub fn new_workspace_list() -> (v: Vec<Workspace>)
    ensures
        v@.len() == WORKSPACE_COUNT,
        forall|i: int|
            0 <= i < v@.len() ==> (#[trigger] v@[i]).window_list@.len() == 0
                && v@[i].focused_window_idx is None,
{
    let mut v: Vec<Workspace> = Vec::new();
    let mut i: usize = 0;
    while i < WORKSPACE_COUNT
        invariant
            i <= WORKSPACE_COUNT,
            v@.len() == i,
            forall|j: int|
                0 <= j < v@.len() ==> (#[trigger] v@[j]).window_list@.len() == 0
                    && v@[j].focused_window_idx is None,
        decreases WORKSPACE_COUNT - i,
    {
        v.push(Workspace::new());
        i = i + 1;
    }
    v
}

/// A display, its ten workspaces and its geometry.
#[derive(Clone, Debug)]
pub struct Output {
    /// Identity of the compositor's output object.
    pub id: ObjectId,
    /// Whether a layer-shell output object was created for it.
    pub has_layer_shell_output: bool,
    /// Whether the core output object was bound, and with which version.
    pub wl_output_version: Option<u32>,
    pub name: Option<String>,
    pub workspace_list: Vec<Workspace>,
    pub focused_workspace_idx: usize,
    pub rectangle: Rectangle,
    pub non_exclusive: Rectangle,
    pub is_removed: bool,
}

/// Workspaces kept for an output that went away.
#[derive(Clone, Debug)]
pub struct DetachedOutput {
    pub workspace_list: Vec<Workspace>,
    pub focused_workspace_idx: usize,
}

/// A workspace location.
#[derive(Clone, Copy, Debug, PartialEq, Eq, Structural)]
pub struct OverviewHome {
    pub output_idx: usize,
    pub workspace_idx: usize,
}

/// One window shown in the overview grid.
#[derive(Clone, Copy, Debug, PartialEq, Eq, Structural)]
pub struct OverviewEntry {
    pub window: ObjectId,
    pub was_fullscreen: bool,
}

/// The open overview.
#[derive(Clone, Debug)]
pub struct OverviewState {
    pub entries: Vec<OverviewEntry>,
    pub highlighted: usize,
    pub columns: usize,
    pub previous_workspace: Option<OverviewHome>,
}

/// What the next manage sequence has to do.
#[derive(Clone, Copy, Debug, PartialEq, Eq, Structural)]
pub enum Status {
    Idle,
    Layout,
    Overview,
    PointerAction(PointerAction),
    SetupBindings,
    Exit,
}

/// A window announced by the compositor but not placed yet.
#[derive(Clone, Debug)]
pub struct PendingWindow {
    pub id: ObjectId,
    pub initialized: bool,
    pub title: Option<String>,
    pub app_id: Option<String>,
}

/// A border color: 8-bit channels and an alpha fraction.
#[derive(Clone, Copy, Debug, PartialEq, Eq, Structural)]
pub struct Color {
    pub r: u8,
    pub g: u8,
    pub b: u8,
    pub a: Fraction,
}

/// Border width and colors.
#[derive(Clone, Copy, Debug, PartialEq, Eq, Structural)]
pub struct Border {
    pub width: u32,
    pub focused_color: Color,
    pub unfocused_color: Color,
}

/// When the scroller centers the focused window.
#[derive(Clone, Copy, Debug, PartialEq, Eq, Structural)]
pub enum CenterFocusedWindow {
    Never,
    Always,
    Single,
}

/// Cursor theme.
#[derive(Clone, Debug)]
pub struct Cursor {
    pub theme: String,
    pub size: u32,
}

/// A key combination and what it triggers.
#[derive(Clone, Debug)]
pub struct Keybinding {
    pub key: String,
    pub modifiers: Vec<String>,
    pub action: KeybindingAction,
}

/// A pointer button combination and what it triggers.
#[derive(Clone, Debug)]
pub struct PointerBinding {
    pub button: Button,
    pub modifiers: Vec<String>,
    pub action: PointerAction,
}

/// Windows matching `app_id` exactly and/or `title` by glob are forced
/// floating when `floating` is set.
#[derive(Clone, Debug)]
pub struct WindowRule {
    pub app_id: Option<String>,
    pub title: Option<String>,
    pub floating: bool,
}

/// The whole configuration.
#[derive(Clone, Debug)]
pub struct Config {
    pub keybindings: Vec<Keybinding>,
    pub pointer_bindings: Vec<PointerBinding>,
    pub window_rules: Vec<WindowRule>,
    pub spawn_at_startup: Vec<Vec<String>>,
    pub vertical_gap: i32,
    pub horizontal_gap: i32,
    pub default_window_width: Fraction,
    pub center_focused_window: CenterFocusedWindow,
    pub no_csd: bool,
    pub border: Border,
    pub cursor: Option<Cursor>,
}

impl Config {
    /// The settings of a configuration without bindings, rules or startup
    /// programs: gaps of 9, half-width windows, a 3-pixel green/grey border,
    /// server-side decorations, no cursor theme.
    pub open spec fn spec_default_settings(self) -> bool {
        &&& self.vertical_gap == 9
        &&& self.horizontal_gap == 9
        &&& self.default_window_width == (Fraction { bits: 0x3F00_0000u32 })
        &&& self.center_focused_window == CenterFocusedWindow::Never
        &&& self.no_csd
        &&& self.border == (Border {
            width: 3,
            focused_color: Color { r: 141, g: 214, b: 0, a: Fraction { bits: 0x3F80_0000u32 } },
            unfocused_color: Color { r: 160, g: 160, b: 160, a: Fraction { bits: 0x3F80_0000u32 } },
        })
        &&& self.cursor is None
    }

    /// A configuration with the default settings and no bindings, rules or
    /// startup programs.
    pub fn empty() -> (c: Config)
        ensures
            c.spec_default_settings(),
            c.keybindings@.len() == 0,
            c.pointer_bindings@.len() == 0,
            c.window_rules@.len() == 0,
            c.spawn_at_startup@.len() == 0,
    {
        Config {
            keybindings: Vec::new(),
            pointer_bindings: Vec::new(),
            window_rules: Vec::new(),
            spawn_at_startup: Vec::new(),
            vertical_gap: 9,
            horizontal_gap: 9,
            default_window_width: Fraction { bits: 0x3F00_0000u32 },
            center_focused_window: CenterFocusedWindow::Never,
            no_csd: true,
            border: Border {
                width: 3,
                focused_color: Color { r: 141, g: 214, b: 0, a: Fraction { bits: 0x3F80_0000u32 } },
                unfocused_color: Color {
                    r: 160,
                    g: 160,
                    b: 160,
                    a: Fraction { bits: 0x3F80_0000u32 },
                },
            },
            cursor: None,
        }
    }
}

/// A protocol request that the library decided on and the application sends.
#[derive(Clone, Debug, PartialEq, Eq)]
pub enum Request {
    /// Ask the window to use server-side decorations.
    UseSsd(ObjectId),
    /// Mark the window tiled on all four edges.
    SetTiled(ObjectId),
    ProposeDimensions(ObjectId, i32, i32),
    Hide(ObjectId),
    ExitFullscreen(ObjectId),
    InformFullscreen(ObjectId),
    InformNotFullscreen(ObjectId),
    Close(ObjectId),
    /// Draw all four borders with the configured width and the focused or
    /// unfocused color.
    SetBorders { window: ObjectId, width: i32, focused: bool },
    SetClipBox(ObjectId, i32, i32, i32, i32),
    /// Raise the window's render node to the top.
    PlaceTop(ObjectId),
    SetPosition(ObjectId, i32, i32),
    /// Commit the window at its current geometry inside `output_rect`.
    PlaceWindow { window: ObjectId, output_rect: Rectangle },
    FocusWindow(ObjectId),
    ClearFocus,
    PointerWarp(i32, i32),
    OpStartPointer,
    OpEnd,
    SetXcursorTheme(String, u32),
    /// Destroy the output's layer-shell object.
    DestroyLayerShellOutput(ObjectId),
    /// Release the core output object.
    ReleaseWlOutput(ObjectId),
    DestroyOutput(ObjectId),
    /// Make the output the default for new layer surfaces.
    SetDefaultLayerShellOutput(ObjectId),
    /// Enable the key binding object.
    EnableBinding(ObjectId),
    /// Disable the key binding object.
    DisableBinding(ObjectId),
    ManageDirty,
    ExitSession,
}

} // verus!
