use vstd::prelude::*;

verus! {

/// Mouse buttons that pointer bindings can name.
#[derive(Clone, Copy, Debug, PartialEq, Eq, Structural)]
pub enum Button {
    Left,
    Right,
    Middle,
}

impl Button {
    /// The `BTN_*` code of the button in linux/input-event-codes.h.
    pub open spec fn spec_code(self) -> u32 {
        match self {
            Button::Left => 0x110u32,
            Button::Right => 0x111u32,
            Button::Middle => 0x112u32,
        }
    }

    /// linux/input-event-codes.h BTN_* codes.
    pub fn code(self) -> (c: u32)
        ensures
            c == self.spec_code(),
    {
        match self {
            Button::Left => 0x110,
            Button::Right => 0x111,
            Button::Middle => 0x112,
        }
    }
}

/// What a pointer binding does to the focused floating window.
#[derive(Clone, Copy, Debug, PartialEq, Eq, Structural)]
pub enum PointerAction {
    MoveWindow,
    ResizeWindow,
}

/// A single-precision number that the library only carries, copies and
/// compares by its IEEE-754 bit pattern; all arithmetic on it happens in the
/// application around the library.
#[derive(Clone, Copy, Debug, PartialEq, Eq, Structural)]
pub struct Fraction {
    pub bits: u32,
}

/// Bit pattern of `0.5f32`.
pub const HALF_BITS: u32 = 0x3F00_0000u32;

/// Bit pattern of `1.0f32`.
pub const ONE_BITS: u32 = 0x3F80_0000u32;

/// Bit pattern of `0.1f32`.
pub const TENTH_BITS: u32 = 0x3DCC_CCCDu32;

/// Bit pattern of `-0.1f32`.
pub const MINUS_TENTH_BITS: u32 = 0xBDCC_CCCDu32;

/// Everything a keybinding can trigger.
#[derive(Clone, Debug, PartialEq, Eq)]
pub enum KeybindingAction {
    CloseWindow,
    ToggleFullscreen,
    ToggleMaximizeColumn,
    AdjustWindowWidth(Fraction),
    SetWindowWidth(Fraction),
    AdjustFloatingWindowSize(Fraction),
    SetFloatingWindowHeight(Fraction),
    FocusWindowLeft,
    FocusWindowOrOutputLeft,
    FocusWindowRight,
    FocusWindowOrOutputRight,
    MoveWindowLeft,
    MoveWindowRight,
    MoveFloatingWindowLeft,
    MoveFloatingWindowRight,
    MoveFloatingWindowUp,
    MoveFloatingWindowDown,
    MoveWindowLeftOrToOutputLeft,
    MoveWindowRightOrToOutputRight,
    ToggleWorkspaceFloating,
    FocusWorkspaceAbove,
    FocusWorkspaceBelow,
    FocusWorkspaceOrOutputAbove,
    FocusWorkspaceOrOutputBelow,
    FocusWorkspacePrevious,
    FocusWorkspaceNumber(usize),
    MoveWindowToWorkspaceAbove,
    MoveWindowToWorkspaceBelow,
    MoveWindowToWorkspaceOrOutputAbove,
    MoveWindowToWorkspaceOrOutputBelow,
    MoveWindowToWorkspaceNumber(usize),
    FocusOutputLeft,
    FocusOutputRight,
    FocusOutputAbove,
    FocusOutputBelow,
    MoveWindowToOutputLeft,
    MoveWindowToOutputRight,
    MoveWindowToOutputAbove,
    MoveWindowToOutputBelow,
    Exit,
    ReloadConfig,
    EnterOverview,
    OverviewCancel,
    OverviewConfirm,
    OverviewNavUp,
    OverviewNavDown,
    OverviewNavLeft,
    OverviewNavRight,
    Spawn(Vec<String>),
}

/// The bare-key bindings that only mean something while the overview is open.
pub open spec fn spec_is_overview_only(action: KeybindingAction) -> bool {
    match action {
        KeybindingAction::OverviewConfirm
        | KeybindingAction::OverviewCancel
        | KeybindingAction::OverviewNavUp
        | KeybindingAction::OverviewNavDown
        | KeybindingAction::OverviewNavLeft
        | KeybindingAction::OverviewNavRight => true,
        _ => false,
    }
}

/// Whether `action` is one of the overview-only bare-key bindings.
pub fn is_overview_only(action: &KeybindingAction) -> (b: bool)
    ensures
        b == spec_is_overview_only(*action),
{
    match action {
        KeybindingAction::OverviewConfirm
        | KeybindingAction::OverviewCancel
        | KeybindingAction::OverviewNavUp
        | KeybindingAction::OverviewNavDown
        | KeybindingAction::OverviewNavLeft
        | KeybindingAction::OverviewNavRight => true,
        _ => false,
    }
}

} // verus!
