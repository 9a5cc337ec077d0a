//! Keybindings: the default tables, modifier parsing, the overview-only
//! bare keys, and the action state machine that a pressed binding drives.
use vstd::prelude::*;

use crate::actions::{
    is_overview_only, spec_is_overview_only, Button, Fraction, KeybindingAction, PointerAction,
    HALF_BITS, MINUS_TENTH_BITS, ONE_BITS, TENTH_BITS,
};
use crate::layout::common::FLOATING_MOVE_STEP;
use crate::layout::{has_size, update, update_ok, ws_laid_out};
use crate::overview::{
    alive, all_entries_alive, cancel, div_ceil, enter, enter_applies, enter_defined,
    enter_is_defined, enter_ok, leave_reqs, no_entry_alive, none_alive, ov_home_is_valid, ov_home_valid,
    prune, prune_defined, prune_reqs, select, select_defined, spec_cancel, spec_prune, spec_select,
};
use crate::types::{
    Config, Keybinding, ObjectId, Output, OverviewHome, OverviewState, PointerBinding, Rectangle,
    Request, Status, Window, WindowGeom,
};
use crate::wm::{lemma_inv_same_shape, lemma_inv_win_replaced, output_same_but_workspaces, output_wf, WindowManager};

verus! {

/// Modifier bit of Shift in the seat protocol's modifier mask.
pub const MOD_SHIFT: u32 = 1u32;

/// Modifier bit of Ctrl.
pub const MOD_CTRL: u32 = 4u32;

/// Modifier bit of Mod1 (Alt).
pub const MOD_MOD1: u32 = 8u32;

/// Modifier bit of Mod3.
pub const MOD_MOD3: u32 = 32u32;

/// Modifier bit of Mod4 (Super).
pub const MOD_MOD4: u32 = 64u32;

/// Modifier bit of Mod5.
pub const MOD_MOD5: u32 = 128u32;

/// A modifier mask as the seat protocol encodes it.
#[derive(Clone, Copy, Debug, PartialEq, Eq, Structural)]
pub struct Modifiers {
    pub bits: u32,
}

impl Modifiers {
    /// No modifier.
    pub fn none() -> (m: Modifiers)
        ensures
            m.bits == 0,
    {
        Modifiers { bits: 0 }
    }

    /// Shift alone.
    pub fn shift() -> (m: Modifiers)
        ensures
            m.bits == MOD_SHIFT,
    {
        Modifiers { bits: MOD_SHIFT }
    }

    /// Ctrl alone.
    pub fn ctrl() -> (m: Modifiers)
        ensures
            m.bits == MOD_CTRL,
    {
        Modifiers { bits: MOD_CTRL }
    }

    /// Mod4 alone.
    pub fn mod4() -> (m: Modifiers)
        ensures
            m.bits == MOD_MOD4,
    {
        Modifiers { bits: MOD_MOD4 }
    }

    /// Both masks together.
    pub fn union(self, other: Modifiers) -> (m: Modifiers)
        ensures
            m.bits == self.bits | other.bits,
    {
        Modifiers { bits: self.bits | other.bits }
    }
}

/// The bit a modifier name stands for: shift, ctrl, mod1, mod3, mod4 and
/// mod5 are known, every other name is not.
pub open spec fn modifier_bit(name: Seq<char>) -> Option<u32> {
    if name == "shift"@ {
        Some(MOD_SHIFT)
    } else if name == "ctrl"@ {
        Some(MOD_CTRL)
    } else if name == "mod1"@ {
        Some(MOD_MOD1)
    } else if name == "mod3"@ {
        Some(MOD_MOD3)
    } else if name == "mod4"@ {
        Some(MOD_MOD4)
    } else if name == "mod5"@ {
        Some(MOD_MOD5)
    } else {
        None
    }
}

/// The characters of each name.
pub open spec fn names_view(names: Seq<String>) -> Seq<Seq<char>> {
    names.map_values(|s: String| s@)
}

/// The union of the bits of known names (unknown names add nothing).
pub open spec fn modifiers_mask(names: Seq<Seq<char>>) -> u32
    decreases names.len(),
{
    if names.len() == 0 {
        0
    } else {
        modifiers_mask(names.drop_last()) | match modifier_bit(names.last()) {
            Some(b) => b,
            None => 0,
        }
    }
}

/// Every name is a known modifier.
pub open spec fn all_known(names: Seq<Seq<char>>) -> bool {
    forall|i: int| 0 <= i < names.len() ==> (#[trigger] modifier_bit(names[i])) is Some
}

fn modifier_bit_exec(name: &String) -> (r: Option<u32>)
    ensures
        r == modifier_bit(name@),
{
    if *name == String::from_str("shift") {
        Some(MOD_SHIFT)
    } else if *name == String::from_str("ctrl") {
        Some(MOD_CTRL)
    } else if *name == String::from_str("mod1") {
        Some(MOD_MOD1)
    } else if *name == String::from_str("mod3") {
        Some(MOD_MOD3)
    } else if *name == String::from_str("mod4") {
        Some(MOD_MOD4)
    } else if *name == String::from_str("mod5") {
        Some(MOD_MOD5)
    } else {
        None
    }
}

/// Parse modifier names (shift, ctrl, mod1, mod3, mod4, mod5) into the
/// seat protocol's modifier mask. Returns the first unknown name on error.
pub fn parse_modifiers(names: &Vec<String>) -> (r: Result<Modifiers, String>)
    ensures
        r is Ok <==> all_known(names_view(names@)),
        r matches Ok(m) ==> m.bits == modifiers_mask(names_view(names@)),
        r matches Err(bad) ==> exists|i: int|
            0 <= i < names@.len() && modifier_bit(names@[i]@) is None && bad@ == names@[i]@
                && all_known(names_view(names@.take(i))),
{
    let ghost nv = names_view(names@);
    let mut bits: u32 = 0;
    let mut i: usize = 0;
    while i < names.len()
        invariant
            i <= names@.len(),
            nv == names_view(names@),
            all_known(names_view(names@.take(i as int))),
            bits == modifiers_mask(names_view(names@.take(i as int))),
        decreases names@.len() - i,
    {
        proof {
            assert(names_view(names@.take(i + 1)).drop_last() =~= names_view(names@.take(i as int)));
        }
        match modifier_bit_exec(&names[i]) {
            Some(b) => {
                bits = bits | b;
                proof {
                    let nv1 = names_view(names@.take(i + 1));
                    assert forall|j: int| 0 <= j < nv1.len() implies (#[trigger] modifier_bit(nv1[j])) is Some by {
                        if j < i {
                            assert(nv1[j] == names_view(names@.take(i as int))[j]);
                        }
                    }
                }
            },
            None => {
                proof {
                    assert(nv[i as int] == names@[i as int]@);
                    assert(modifier_bit(nv[i as int]) is None);
                }
                return Err(names[i].clone());
            },
        }
        i = i + 1;
    }
    proof {
        assert(names@.take(names@.len() as int) =~= names@);
    }
    Ok(Modifiers { bits })
}

/// The key bindings that the configured entries `kbs` yield, in order,
/// among the first `n`: an entry whose key name has a keysym (the non-zero
/// `keysyms[i]`) and whose modifier names are all known gives its index,
/// keysym and modifier mask; any other entry is skipped.
pub open spec fn key_plan(kbs: Seq<Keybinding>, keysyms: Seq<u32>, n: int) -> Seq<(usize, u32, u32)>
    decreases n,
{
    if n <= 0 {
        Seq::empty()
    } else {
        key_plan(kbs, keysyms, n - 1) + if keysyms[n - 1] != 0 && all_known(
            names_view(kbs[n - 1].modifiers@),
        ) {
            seq![((n - 1) as usize, keysyms[n - 1], modifiers_mask(names_view(kbs[n - 1].modifiers@)))]
        } else {
            Seq::empty()
        }
    }
}

/// `key_plan` looks at the keysyms of the entries it reaches only.
proof fn lemma_key_plan_prefix(kbs: Seq<Keybinding>, a: Seq<u32>, b: Seq<u32>, n: int)
    requires
        forall|j: int| 0 <= j < n ==> a[j] == b[j],
    ensures
        key_plan(kbs, a, n) == key_plan(kbs, b, n),
    decreases n,
{
    if n > 0 {
        lemma_key_plan_prefix(kbs, a, b, n - 1);
    }
}

/// Plan the key bindings of the configured entries `kbs`. `keysym_of`
/// gives the keysym of a key name (0 for a name without one); it is asked
/// once per entry, in order. Each planned binding is the entry's index, its
/// keysym and its modifier mask.
pub fn binding_plan<F>(kbs: &Vec<Keybinding>, keysym_of: &F) -> (r: Vec<(usize, u32, u32)>) where
    F: Fn(&String) -> u32,

    requires
        forall|k: &String| #[trigger] keysym_of.requires((k,)),
    ensures
        exists|ks: Seq<u32>|
            #![trigger key_plan(kbs@, ks, kbs@.len() as int)]
            ks.len() == kbs@.len() && (forall|i: int|
                0 <= i < ks.len() ==> #[trigger] keysym_of.ensures((&kbs@[i].key,), ks[i]))
                && r@ == key_plan(kbs@, ks, kbs@.len() as int),
{
    let mut r: Vec<(usize, u32, u32)> = Vec::new();
    let ghost mut ks: Seq<u32> = Seq::empty();
    let mut i: usize = 0;
    while i < kbs.len()
        invariant
            i <= kbs@.len(),
            ks.len() == i,
            forall|k: &String| #[trigger] keysym_of.requires((k,)),
            forall|j: int| 0 <= j < i ==> #[trigger] keysym_of.ensures((&kbs@[j].key,), ks[j]),
            r@ == key_plan(kbs@, ks, i as int),
        decreases kbs@.len() - i,
    {
        let keysym = keysym_of(&kbs[i].key);
        proof {
            let ks2 = ks.push(keysym);
            lemma_key_plan_prefix(kbs@, ks, ks2, i as int);
            ks = ks2;
        }
        if keysym != 0 {
            match parse_modifiers(&kbs[i].modifiers) {
                Ok(m) => {
                    r.push((i, keysym, m.bits));
                },
                Err(_) => {},
            }
        }
        i = i + 1;
    }
    proof {
        assert(key_plan(kbs@, ks, kbs@.len() as int) == r@);
    }
    r
}

/// The pointer bindings that the configured entries `pbs` yield, in order,
/// among the first `n`: an entry whose modifier names are all known gives
/// its button code, modifier mask and action; any other entry is skipped.
pub open spec fn pointer_plan(pbs: Seq<PointerBinding>, n: int) -> Seq<(u32, u32, PointerAction)>
    decreases n,
{
    if n <= 0 {
        Seq::empty()
    } else {
        pointer_plan(pbs, n - 1) + if all_known(names_view(pbs[n - 1].modifiers@)) {
            seq![
                (
                    pbs[n - 1].button.spec_code(),
                    modifiers_mask(names_view(pbs[n - 1].modifiers@)),
                    pbs[n - 1].action,
                ),
            ]
        } else {
            Seq::empty()
        }
    }
}

/// Plan the pointer bindings of the configured entries `pbs`.
pub fn pointer_binding_plan(pbs: &Vec<PointerBinding>) -> (r: Vec<(u32, u32, PointerAction)>)
    ensures
        r@ == pointer_plan(pbs@, pbs@.len() as int),
{
    let mut r: Vec<(u32, u32, PointerAction)> = Vec::new();
    let mut i: usize = 0;
    while i < pbs.len()
        invariant
            i <= pbs@.len(),
            r@ == pointer_plan(pbs@, i as int),
        decreases pbs@.len() - i,
    {
        match parse_modifiers(&pbs[i].modifiers) {
            Ok(m) => {
                r.push((pbs[i].button.code(), m.bits, pbs[i].action));
            },
            Err(_) => {},
        }
        i = i + 1;
    }
    r
}

/// A registered key binding: the compositor's binding object and the
/// action it triggers.
#[derive(Clone, Debug)]
pub struct XkbBinding {
    pub proxy: ObjectId,
    pub action: KeybindingAction,
}

/// A registered pointer binding: the compositor's binding object and the
/// action it triggers.
#[derive(Clone, Copy, Debug, PartialEq, Eq, Structural)]
pub struct PointerBindingEntry {
    pub proxy: ObjectId,
    pub action: PointerAction,
}

/// The enable (or disable) requests for the overview-only bindings among
/// `bindings`, in order.
pub open spec fn overview_keybind_reqs(bindings: Seq<XkbBinding>, enabled: bool) -> Seq<Request>
    decreases bindings.len(),
{
    if bindings.len() == 0 {
        Seq::empty()
    } else {
        overview_keybind_reqs(bindings.drop_last(), enabled) + if spec_is_overview_only(
            bindings.last().action,
        ) {
            seq![
                if enabled {
                    Request::EnableBinding(bindings.last().proxy)
                } else {
                    Request::DisableBinding(bindings.last().proxy)
                },
            ]
        } else {
            Seq::empty()
        }
    }
}

/// Toggle the bare-key bindings that are only meaningful while the overview
/// is open (Return to confirm, Escape to cancel, vi navigation). They are
/// registered but kept disabled otherwise so applications keep receiving
/// those keys.
pub fn set_overview_keybinds(bindings: &Vec<XkbBinding>, enabled: bool, reqs: &mut Vec<Request>)
    ensures
        final(reqs)@ == old(reqs)@ + overview_keybind_reqs(bindings@, enabled),
{
    let ghost start = old(reqs)@;
    let mut i: usize = 0;
    while i < bindings.len()
        invariant
            i <= bindings@.len(),
            reqs@ == start + overview_keybind_reqs(bindings@.take(i as int), enabled),
        decreases bindings@.len() - i,
    {
        proof {
            assert(bindings@.take(i + 1).drop_last() =~= bindings@.take(i as int));
        }
        if is_overview_only(&bindings[i].action) {
            if enabled {
                reqs.push(Request::EnableBinding(bindings[i].proxy));
            } else {
                reqs.push(Request::DisableBinding(bindings[i].proxy));
            }
        }
        proof {
            assert(reqs@ =~= start + overview_keybind_reqs(bindings@.take(i + 1), enabled));
        }
        i = i + 1;
    }
    proof {
        assert(bindings@.take(bindings@.len() as int) =~= bindings@);
    }
}

/// The index of the first binding registered under `proxy`.
pub open spec fn spec_binding_index(bindings: Seq<XkbBinding>, proxy: ObjectId) -> Option<int> {
    if exists|i: int|
        0 <= i < bindings.len() && bindings[i].proxy == proxy && forall|j: int|
            0 <= j < i ==> bindings[j].proxy != proxy {
        Some(
            choose|i: int|
                0 <= i < bindings.len() && bindings[i].proxy == proxy && forall|j: int|
                    0 <= j < i ==> bindings[j].proxy != proxy,
        )
    } else {
        None
    }
}

/// The action of the binding registered under `proxy`, if any.
pub fn binding_action(bindings: &Vec<XkbBinding>, proxy: ObjectId) -> (r: Option<&KeybindingAction>)
    ensures
        match spec_binding_index(bindings@, proxy) {
            Some(i) => 0 <= i < bindings@.len() && r == Some(&bindings@[i].action),
            None => r is None,
        },
{
    let mut i: usize = 0;
    while i < bindings.len()
        invariant
            i <= bindings@.len(),
            forall|j: int| 0 <= j < i ==> bindings@[j].proxy != proxy,
        decreases bindings@.len() - i,
    {
        if bindings[i].proxy == proxy {
            proof {
                let c = choose|c: int|
                    0 <= c < bindings@.len() && bindings@[c].proxy == proxy && forall|j: int|
                        0 <= j < c ==> bindings@[j].proxy != proxy;
                assert(0 <= i < bindings@.len() && bindings@[i as int].proxy == proxy && forall|j: int|
                    0 <= j < i ==> bindings@[j].proxy != proxy);
                if c < i {
                    assert(bindings@[c].proxy != proxy);
                } else if c > i {
                    assert(bindings@[i as int].proxy != proxy);
                }
            }
            return Some(&bindings[i].action);
        }
        i = i + 1;
    }
    None
}

/// The default pointer bindings: Super with the left button moves, Super
/// with the right button resizes.
pub open spec fn default_pointer_table(v: Seq<PointerBinding>) -> bool {
    &&& v.len() == 2
    &&& v[0].button == Button::Left
    &&& names_view(v[0].modifiers@) == seq!["mod4"@]
    &&& v[0].action == PointerAction::MoveWindow
    &&& v[1].button == Button::Right
    &&& names_view(v[1].modifiers@) == seq!["mod4"@]
    &&& v[1].action == PointerAction::ResizeWindow
}

/// The default pointer bindings: Super with the left button moves the
/// focused floating window, Super with the right button resizes it.
pub fn default_pointer_bindings() -> (v: Vec<PointerBinding>)
    ensures
        default_pointer_table(v@),
{
    let mut v: Vec<PointerBinding> = Vec::new();
    v.push(
        PointerBinding { button: Button::Left, modifiers: strs1("mod4"), action: PointerAction::MoveWindow },
    );
    v.push(
        PointerBinding { button: Button::Right, modifiers: strs1("mod4"), action: PointerAction::ResizeWindow },
    );
    v
}

} // verus!

verus! {

/// Geometry work whose arithmetic the library leaves to its caller: the
/// single-precision window proportions and the floating-window rectangle
/// helpers. The caller's `geometry` function receives the request, the
/// window's geometry, the output's rectangle and usable area and the
/// configuration, and returns the window's new geometry, or `None` to
/// reject the change, which makes the key press change nothing.
#[derive(Clone, Copy, Debug, PartialEq, Eq, Structural)]
pub enum GeometryRequest {
    /// Widen (or narrow) a floating window by the fraction of the usable
    /// output width.
    ResizeFloatingWidth(Fraction),
    /// Add the fraction to a tiled window's column proportion; rejected
    /// when the column would become narrower than its two borders.
    AdjustProportion(Fraction),
    /// Set a floating window's width to the fraction of the usable width.
    SetFloatingWidth(Fraction),
    /// Grow (or shrink) a floating window by the fraction of the usable
    /// output size.
    ScaleFloating(Fraction),
    /// Set a floating window's height to the fraction of the usable height.
    SetFloatingHeight(Fraction),
    /// Move a floating window by (dx, dy), kept on its output.
    MoveFloating(i32, i32),
    /// Center a window that became floating on the usable area.
    CenterFloating,
    /// Give a window that moved to another output its initial floating
    /// rectangle there.
    InitialFloating,
}

/// Outside work that a key press leaves to the caller.
#[derive(Clone, Debug)]
pub enum Effect {
    /// Nothing to do.
    Nothing,
    /// Start the program with these arguments, detached.
    Spawn(Vec<String>),
    /// Read the configuration again and hand it to `reload_config`.
    ReloadConfig,
}

/// `mid` is `pre` with the focused window's geometry set to `g`.
pub open spec fn focused_geom_set(mid: WindowManager, pre: WindowManager, g: WindowGeom) -> bool {
    let (a, b, c) = pre.spec_focused_position().unwrap();
    mid.is_win_replaced(&pre, a, b, c, Window { geom: g, ..pre.win(a, b, c) })
}

/// The geometry of the focused window of `pre`.
pub open spec fn focused_geom(pre: WindowManager) -> WindowGeom {
    let (a, b, c) = pre.spec_focused_position().unwrap();
    pre.win(a, b, c).geom
}

/// `mid` is `pre` after `geometry` answered request `req` for geometry `g`
/// on output `o`: a rejection changes nothing and ends the press, an answer
/// becomes the focused window's geometry.
pub open spec fn geometry_step<G>(
    mid: WindowManager,
    pre: WindowManager,
    cont: bool,
    geometry: G,
    req: GeometryRequest,
    g: WindowGeom,
    o: int,
) -> bool where G: Fn(GeometryRequest, WindowGeom, Rectangle, Rectangle, &Config) -> Option<WindowGeom> {
    exists|res: Option<WindowGeom>|
        #[trigger] geometry.ensures(
            (req, g, pre.outputs@[o].rectangle, pre.outputs@[o].non_exclusive, &pre.config),
            res,
        ) && match res {
            None => !cont && mid == pre,
            Some(g2) => cont && focused_geom_set(mid, pre, g2),
        }
}

/// The other of the two column proportions that maximizing toggles between:
/// a full-width column becomes half width, any other becomes full width.
pub open spec fn toggled_proportion(p: Fraction) -> Fraction {
    if p.bits == ONE_BITS {
        Fraction { bits: HALF_BITS }
    } else {
        Fraction { bits: ONE_BITS }
    }
}

/// The step offsets of the keyboard moves of floating windows.
pub open spec fn floating_move(action: KeybindingAction) -> (i32, i32) {
    match action {
        KeybindingAction::MoveFloatingWindowLeft => ((-FLOATING_MOVE_STEP) as i32, 0),
        KeybindingAction::MoveFloatingWindowRight => (FLOATING_MOVE_STEP, 0),
        KeybindingAction::MoveFloatingWindowUp => (0, (-FLOATING_MOVE_STEP) as i32),
        _ => (0, FLOATING_MOVE_STEP),
    }
}

/// The actions that act on the focused window's geometry.
pub open spec fn is_window_action(action: KeybindingAction) -> bool {
    match action {
        KeybindingAction::CloseWindow
        | KeybindingAction::ToggleFullscreen
        | KeybindingAction::ToggleMaximizeColumn
        | KeybindingAction::AdjustWindowWidth(_)
        | KeybindingAction::SetWindowWidth(_)
        | KeybindingAction::AdjustFloatingWindowSize(_)
        | KeybindingAction::SetFloatingWindowHeight(_)
        | KeybindingAction::MoveFloatingWindowLeft
        | KeybindingAction::MoveFloatingWindowRight
        | KeybindingAction::MoveFloatingWindowUp
        | KeybindingAction::MoveFloatingWindowDown
        | KeybindingAction::ToggleWorkspaceFloating => true,
        _ => false,
    }
}

/// The step of an action on the focused window of workspace (`o`, `w`) of
/// `pre`, giving `mid`; `cont` tells whether the press goes on to the
/// layout pass. Without a focused window nothing changes and the press
/// goes on.
pub open spec fn window_step_ok<G>(
    mid: WindowManager,
    pre: WindowManager,
    action: KeybindingAction,
    o: int,
    w: int,
    cont: bool,
    geometry: G,
) -> bool where G: Fn(GeometryRequest, WindowGeom, Rectangle, Rectangle, &Config) -> Option<WindowGeom> {
    let focused = pre.spec_focused_position() is Some;
    let g = focused_geom(pre);
    match action {
        KeybindingAction::CloseWindow => cont && if focused {
            focused_geom_set(mid, pre, WindowGeom { is_closing: true, ..g })
        } else {
            mid == pre
        },
        KeybindingAction::ToggleFullscreen => cont && if focused {
            focused_geom_set(mid, pre, WindowGeom { is_fullscreen: !g.is_fullscreen, ..g })
        } else {
            mid == pre
        },
        KeybindingAction::ToggleMaximizeColumn => if pre.ws(o, w).is_floating {
            !cont && mid == pre
        } else {
            cont && if focused {
                focused_geom_set(
                    mid,
                    pre,
                    WindowGeom { proportion: toggled_proportion(g.proportion), ..g },
                )
            } else {
                mid == pre
            }
        },
        KeybindingAction::AdjustWindowWidth(inc) => if !focused {
            cont && mid == pre
        } else if g.is_fullscreen {
            !cont && mid == pre
        } else {
            geometry_step(
                mid,
                pre,
                cont,
                geometry,
                if g.is_floating {
                    GeometryRequest::ResizeFloatingWidth(inc)
                } else {
                    GeometryRequest::AdjustProportion(inc)
                },
                g,
                o,
            )
        },
        KeybindingAction::SetWindowWidth(p) => if !focused {
            cont && mid == pre
        } else if g.is_floating {
            if g.is_fullscreen {
                !cont && mid == pre
            } else {
                geometry_step(mid, pre, cont, geometry, GeometryRequest::SetFloatingWidth(p), g, o)
            }
        } else {
            cont && focused_geom_set(mid, pre, WindowGeom { proportion: p, ..g })
        },
        KeybindingAction::AdjustFloatingWindowSize(inc) => if !focused {
            cont && mid == pre
        } else if !g.is_floating || g.is_fullscreen {
            !cont && mid == pre
        } else {
            geometry_step(mid, pre, cont, geometry, GeometryRequest::ScaleFloating(inc), g, o)
        },
        KeybindingAction::SetFloatingWindowHeight(p) => if !focused {
            cont && mid == pre
        } else if !g.is_floating || g.is_fullscreen {
            !cont && mid == pre
        } else {
            geometry_step(mid, pre, cont, geometry, GeometryRequest::SetFloatingHeight(p), g, o)
        },
        KeybindingAction::MoveFloatingWindowLeft
        | KeybindingAction::MoveFloatingWindowRight
        | KeybindingAction::MoveFloatingWindowUp
        | KeybindingAction::MoveFloatingWindowDown => if !focused {
            cont && mid == pre
        } else if !g.is_floating {
            !cont && mid == pre
        } else {
            geometry_step(
                mid,
                pre,
                cont,
                geometry,
                GeometryRequest::MoveFloating(floating_move(action).0, floating_move(action).1),
                g,
                o,
            )
        },
        KeybindingAction::ToggleWorkspaceFloating => if !focused {
            cont && mid == pre
        } else {
            let g1 = WindowGeom { is_floating: !g.is_floating, ..g };
            if g1.is_floating {
                geometry_step(mid, pre, cont, geometry, GeometryRequest::CenterFloating, g1, o)
            } else {
                cont && focused_geom_set(mid, pre, g1)
            }
        },
        _ => false,
    }
}

/// Ask `geometry` for a request on the focused window and apply the answer.
fn geometry_call<G>(
    wm: &mut WindowManager,
    geometry: &G,
    req: GeometryRequest,
    g: WindowGeom,
    o: usize,
) -> (cont: bool) where G: Fn(GeometryRequest, WindowGeom, Rectangle, Rectangle, &Config) -> Option<WindowGeom>
    requires
        old(wm).inv(),
        old(wm).spec_focused_position() is Some,
        o < old(wm).outputs@.len(),
        forall|r: GeometryRequest, g: WindowGeom, a: Rectangle, b: Rectangle, c: &Config|
            #[trigger] geometry.requires((r, g, a, b, c)),
    ensures
        final(wm).inv(),
        geometry_step(*final(wm), *old(wm), cont, *geometry, req, g, o as int),
{
    let ghost pre = *wm;
    let out_rect = wm.outputs[o].rectangle;
    let ne = wm.outputs[o].non_exclusive;
    let res = geometry(req, g, out_rect, ne, &wm.config);
    match res {
        Some(g2) => {
            let (a, b, c) = wm.focused_position().unwrap();
            wm.set_geom(a, b, c, g2);
            proof {
                lemma_inv_win_replaced(*wm, pre, a as int, b as int, c as int, Window { geom: g2, ..pre.win(a as int, b as int, c as int) });
            }
            true
        },
        None => false,
    }
}

/// The step of an action on the focused window's geometry.
fn window_step<G>(
    wm: &mut WindowManager,
    action: &KeybindingAction,
    o: usize,
    w: usize,
    geometry: &G,
) -> (cont: bool) where G: Fn(GeometryRequest, WindowGeom, Rectangle, Rectangle, &Config) -> Option<WindowGeom>
    requires
        old(wm).inv(),
        old(wm).spec_current_ws_idx() == Some((o, w)),
        is_window_action(*action),
        forall|r: GeometryRequest, g: WindowGeom, a: Rectangle, b: Rectangle, c: &Config|
            #[trigger] geometry.requires((r, g, a, b, c)),
    ensures
        final(wm).inv(),
        window_step_ok(*final(wm), *old(wm), *action, o as int, w as int, cont, *geometry),
{
    let ghost pre = *wm;
    let pos = wm.focused_position();
    let ws_floating = wm.outputs[o].workspace_list[w].is_floating;
    let (a, b, c) = match pos {
        Some(p) => p,
        None => {
            return match action {
                KeybindingAction::ToggleMaximizeColumn => !ws_floating,
                _ => true,
            };
        },
    };
    let g = wm.outputs[a].workspace_list[b].window_list[c].geom.duplicate();
    proof {
        assert(g == focused_geom(pre));
    }
    match action {
        KeybindingAction::CloseWindow => {
            let g2 = WindowGeom { is_closing: true, ..g };
            wm.set_geom(a, b, c, g2);
            proof { lemma_inv_win_replaced(*wm, pre, a as int, b as int, c as int, Window { geom: g2, ..pre.win(a as int, b as int, c as int) }); }
            true
        },
        KeybindingAction::ToggleFullscreen => {
            let fs = !g.is_fullscreen;
            let g2 = WindowGeom { is_fullscreen: fs, ..g };
            wm.set_geom(a, b, c, g2);
            proof { lemma_inv_win_replaced(*wm, pre, a as int, b as int, c as int, Window { geom: g2, ..pre.win(a as int, b as int, c as int) }); }
            true
        },
        KeybindingAction::ToggleMaximizeColumn => {
            if ws_floating {
                return false;
            }
            let p = if g.proportion.bits == ONE_BITS {
                Fraction { bits: HALF_BITS }
            } else {
                Fraction { bits: ONE_BITS }
            };
            let g2 = WindowGeom { proportion: p, ..g };
            wm.set_geom(a, b, c, g2);
            proof { lemma_inv_win_replaced(*wm, pre, a as int, b as int, c as int, Window { geom: g2, ..pre.win(a as int, b as int, c as int) }); }
            true
        },
        KeybindingAction::AdjustWindowWidth(inc) => {
            if g.is_fullscreen {
                return false;
            }
            let req = if g.is_floating {
                GeometryRequest::ResizeFloatingWidth(*inc)
            } else {
                GeometryRequest::AdjustProportion(*inc)
            };
            geometry_call(wm, geometry, req, g, o)
        },
        KeybindingAction::SetWindowWidth(p) => {
            if g.is_floating {
                if g.is_fullscreen {
                    return false;
                }
                geometry_call(wm, geometry, GeometryRequest::SetFloatingWidth(*p), g, o)
            } else {
                let g2 = WindowGeom { proportion: *p, ..g };
                wm.set_geom(a, b, c, g2);
                proof { lemma_inv_win_replaced(*wm, pre, a as int, b as int, c as int, Window { geom: g2, ..pre.win(a as int, b as int, c as int) }); }
                true
            }
        },
        KeybindingAction::AdjustFloatingWindowSize(inc) => {
            if !g.is_floating || g.is_fullscreen {
                return false;
            }
            geometry_call(wm, geometry, GeometryRequest::ScaleFloating(*inc), g, o)
        },
        KeybindingAction::SetFloatingWindowHeight(p) => {
            if !g.is_floating || g.is_fullscreen {
                return false;
            }
            geometry_call(wm, geometry, GeometryRequest::SetFloatingHeight(*p), g, o)
        },
        KeybindingAction::MoveFloatingWindowLeft
        | KeybindingAction::MoveFloatingWindowRight
        | KeybindingAction::MoveFloatingWindowUp
        | KeybindingAction::MoveFloatingWindowDown => {
            let (dx, dy): (i32, i32) = match action {
                KeybindingAction::MoveFloatingWindowLeft => (-FLOATING_MOVE_STEP, 0),
                KeybindingAction::MoveFloatingWindowRight => (FLOATING_MOVE_STEP, 0),
                KeybindingAction::MoveFloatingWindowUp => (0, -FLOATING_MOVE_STEP),
                _ => (0, FLOATING_MOVE_STEP),
            };
            if !g.is_floating {
                return false;
            }
            geometry_call(wm, geometry, GeometryRequest::MoveFloating(dx, dy), g, o)
        },
        KeybindingAction::ToggleWorkspaceFloating => {
            let floating = !g.is_floating;
            let g1 = WindowGeom { is_floating: floating, ..g };
            if floating {
                geometry_call(wm, geometry, GeometryRequest::CenterFloating, g1, o)
            } else {
                wm.set_geom(a, b, c, g1);
                proof { lemma_inv_win_replaced(*wm, pre, a as int, b as int, c as int, Window { geom: g1, ..pre.win(a as int, b as int, c as int) }); }
                true
            }
        },
        _ => true,
    }
}

} // verus!

verus! {

/// `mid` is `pre` with workspace (`o`, `w`) focusing position `k`.
pub open spec fn ws_focus_set(mid: WindowManager, pre: WindowManager, o: int, w: int, k: int) -> bool {
    &&& mid.same_but_outputs(&pre)
    &&& mid.same_but_workspaces(&pre, |o2: int, w2: int| o2 == o && w2 == w)
    &&& mid.ws(o, w).window_list@ == pre.ws(o, w).window_list@
    &&& mid.ws(o, w).focused_window_idx == Some(k as usize)
    &&& mid.ws(o, w).layout == pre.ws(o, w).layout
    &&& mid.ws(o, w).is_floating == pre.ws(o, w).is_floating
}

/// `mid` is `pre` with windows `i` and `j` of workspace (`o`, `w`) swapped
/// and position `j` focused.
pub open spec fn ws_swapped(mid: WindowManager, pre: WindowManager, o: int, w: int, i: int, j: int) -> bool {
    let s = pre.ws(o, w).window_list@;
    &&& mid.same_but_outputs(&pre)
    &&& mid.same_but_workspaces(&pre, |o2: int, w2: int| o2 == o && w2 == w)
    &&& mid.ws(o, w).window_list@ == s.update(i, s[j]).update(j, s[i])
    &&& mid.ws(o, w).focused_window_idx == Some(j as usize)
    &&& mid.ws(o, w).layout == pre.ws(o, w).layout
    &&& mid.ws(o, w).is_floating == pre.ws(o, w).is_floating
}

/// The actions that move focus or the focused window inside a workspace.
pub open spec fn is_nav_action(action: KeybindingAction) -> bool {
    match action {
        KeybindingAction::FocusWindowLeft
        | KeybindingAction::FocusWindowRight
        | KeybindingAction::MoveWindowLeft
        | KeybindingAction::MoveWindowRight => true,
        _ => false,
    }
}

/// The step of a focus or move action inside workspace (`o`, `w`) of `pre`:
/// focus moves one window left or right, or the focused window swaps
/// places with its neighbour; nothing happens at an edge, without a focused
/// window, or (for focus moves) on a floating workspace.
pub open spec fn nav_step_ok(
    mid: WindowManager,
    pre: WindowManager,
    action: KeybindingAction,
    o: int,
    w: int,
    cont: bool,
) -> bool {
    let ws = pre.ws(o, w);
    let len = ws.window_list@.len();
    match action {
        KeybindingAction::FocusWindowLeft => match ws.focused_window_idx {
            Some(k) => if ws.is_floating || k >= len || k == 0 {
                !cont && mid == pre
            } else {
                cont && ws_focus_set(mid, pre, o, w, k - 1)
            },
            None => !cont && mid == pre,
        },
        KeybindingAction::FocusWindowRight => match ws.focused_window_idx {
            Some(k) => if ws.is_floating || k >= len || k == len - 1 {
                !cont && mid == pre
            } else {
                cont && ws_focus_set(mid, pre, o, w, k + 1)
            },
            None => !cont && mid == pre,
        },
        KeybindingAction::MoveWindowLeft => match ws.focused_window_idx {
            Some(k) => if k >= len || k == 0 {
                !cont && mid == pre
            } else {
                cont && ws_swapped(mid, pre, o, w, k as int, k - 1)
            },
            None => !cont && mid == pre,
        },
        KeybindingAction::MoveWindowRight => match ws.focused_window_idx {
            Some(k) => if k >= len || k + 1 >= len {
                !cont && mid == pre
            } else {
                cont && ws_swapped(mid, pre, o, w, k as int, k + 1)
            },
            None => !cont && mid == pre,
        },
        _ => false,
    }
}

fn nav_step(wm: &mut WindowManager, action: &KeybindingAction, o: usize, w: usize) -> (cont: bool)
    requires
        old(wm).inv(),
        old(wm).spec_current_ws_idx() == Some((o, w)),
        is_nav_action(*action),
    ensures
        final(wm).inv(),
        nav_step_ok(*final(wm), *old(wm), *action, o as int, w as int, cont),
{
    let ghost pre = *wm;
    proof {
        assert(pre.has_ws(o as int, w as int));
    }
    let len = wm.outputs[o].workspace_list[w].window_list.len();
    let is_floating = wm.outputs[o].workspace_list[w].is_floating;
    let k = match wm.outputs[o].workspace_list[w].focused_window_idx {
        Some(k) => k,
        None => return false,
    };
    if k >= len {
        return false;
    }
    let target: usize = match action {
        KeybindingAction::FocusWindowLeft => {
            if is_floating || k == 0 {
                return false;
            }
            k - 1
        },
        KeybindingAction::FocusWindowRight => {
            if is_floating || k == len - 1 {
                return false;
            }
            k + 1
        },
        KeybindingAction::MoveWindowLeft => {
            if k == 0 {
                return false;
            }
            k - 1
        },
        _ => {
            if k + 1 >= len {
                return false;
            }
            k + 1
        },
    };
    let moving = match action {
        KeybindingAction::MoveWindowLeft | KeybindingAction::MoveWindowRight => true,
        _ => false,
    };
    let ghost s = pre.ws(o as int, w as int).window_list@;
    if moving {
        let x = wm.outputs[o].workspace_list[w].window_list.remove(k);
        wm.outputs[o].workspace_list[w].window_list.insert(target, x);
        proof {
            assert(wm.ws(o as int, w as int).window_list@ =~= s.update(k as int, s[target as int]).update(
                target as int,
                s[k as int],
            ));
        }
    }
    wm.outputs[o].workspace_list[w].focused_window_idx = Some(target);
    proof {
        assert forall|o2: int, w2: int|
            #![trigger wm.ws(o2, w2)]
            wm.has_ws(o2, w2) && !(o2 == o && w2 == w) implies wm.ws(o2, w2) == pre.ws(o2, w2) by {}
        lemma_inv_same_shape(*wm, pre);
    }
    true
}

} // verus!

verus! {

/// The workspace a workspace action aims at from workspace `w`: the one
/// above or below (none past either end of the ten), or workspace `n`
/// counted from one (none when out of range or already focused).
pub open spec fn ws_target(action: KeybindingAction, w: int) -> Option<int> {
    match action {
        KeybindingAction::FocusWorkspaceAbove | KeybindingAction::MoveWindowToWorkspaceAbove => if w
            == 0 {
            None
        } else {
            Some(w - 1)
        },
        KeybindingAction::FocusWorkspaceBelow | KeybindingAction::MoveWindowToWorkspaceBelow => if w
            == 9 {
            None
        } else {
            Some(w + 1)
        },
        KeybindingAction::FocusWorkspaceNumber(n)
        | KeybindingAction::MoveWindowToWorkspaceNumber(n) => if n == 0 || n > 10 || n - 1 == w {
            None
        } else {
            Some(n - 1)
        },
        _ => None,
    }
}

fn ws_target_exec(action: &KeybindingAction, w: usize) -> (r: Option<usize>)
    requires
        w < 10,
    ensures
        match r {
            Some(t) => ws_target(*action, w as int) == Some(t as int) && t < 10,
            None => ws_target(*action, w as int) is None,
        },
{
    match action {
        KeybindingAction::FocusWorkspaceAbove | KeybindingAction::MoveWindowToWorkspaceAbove => {
            if w == 0 {
                None
            } else {
                Some(w - 1)
            }
        },
        KeybindingAction::FocusWorkspaceBelow | KeybindingAction::MoveWindowToWorkspaceBelow => {
            if w == 9 {
                None
            } else {
                Some(w + 1)
            }
        },
        KeybindingAction::FocusWorkspaceNumber(n)
        | KeybindingAction::MoveWindowToWorkspaceNumber(n) => {
            if *n == 0 || *n > 10 || *n - 1 == w {
                None
            } else {
                Some(*n - 1)
            }
        },
        _ => None,
    }
}

/// The workspace (`o`, `w`) as a remembered location.
pub open spec fn home(o: int, w: int) -> OverviewHome {
    OverviewHome { output_idx: o as usize, workspace_idx: w as usize }
}

/// `mid` is `base` with output `o` focusing workspace `t`.
pub open spec fn ws_focused_from(mid: WindowManager, base: WindowManager, o: int, t: int) -> bool {
    &&& mid.same_but_outputs(&base)
    &&& mid.outputs@ == base.outputs@.update(
        o,
        Output { focused_workspace_idx: t as usize, ..base.outputs@[o] },
    )
}

/// Whether a window may land in workspace (`o`, `t`) of `pre`: its focus,
/// after which the window is inserted, is in range.
pub open spec fn landing_ok(pre: WindowManager, o: int, t: int) -> bool {
    match pre.ws(o, t).focused_window_idx {
        Some(f) => f < pre.ws(o, t).window_list@.len(),
        None => true,
    }
}

/// The actions that focus a workspace or move the focused window to one.
pub open spec fn is_ws_action(action: KeybindingAction) -> bool {
    match action {
        KeybindingAction::FocusWorkspaceAbove
        | KeybindingAction::FocusWorkspaceBelow
        | KeybindingAction::FocusWorkspaceNumber(_)
        | KeybindingAction::FocusWorkspacePrevious
        | KeybindingAction::MoveWindowToWorkspaceAbove
        | KeybindingAction::MoveWindowToWorkspaceBelow
        | KeybindingAction::MoveWindowToWorkspaceNumber(_) => true,
        _ => false,
    }
}

/// The step of a workspace action on the focused workspace (`o`, `w`) of
/// `pre`: the target workspace becomes the output's focused workspace (with
/// the focused window moved there first for the move actions), and the
/// workspace left is remembered; "previous" goes back to the remembered
/// workspace. Nothing happens without a target, or, for moves, without a
/// focused window.
pub open spec fn ws_step_ok(
    mid: WindowManager,
    pre: WindowManager,
    action: KeybindingAction,
    o: int,
    w: int,
    cont: bool,
) -> bool {
    let ws = pre.ws(o, w);
    match action {
        KeybindingAction::FocusWorkspacePrevious => match pre.previous_workspace {
            Some(p) => if p.output_idx >= pre.outputs@.len() {
                !cont && mid == pre
            } else {
                cont && ws_focused_from(
                    mid,
                    WindowManager {
                        focused_output_idx: Some(p.output_idx),
                        previous_workspace: Some(home(o, w)),
                        ..pre
                    },
                    p.output_idx as int,
                    p.workspace_idx as int,
                )
            },
            None => !cont && mid == pre,
        },
        KeybindingAction::FocusWorkspaceAbove
        | KeybindingAction::FocusWorkspaceBelow
        | KeybindingAction::FocusWorkspaceNumber(_) => match ws_target(action, w) {
            Some(t) => cont && ws_focused_from(
                mid,
                WindowManager { previous_workspace: Some(home(o, w)), ..pre },
                o,
                t,
            ),
            None => !cont && mid == pre,
        },
        KeybindingAction::MoveWindowToWorkspaceAbove
        | KeybindingAction::MoveWindowToWorkspaceBelow
        | KeybindingAction::MoveWindowToWorkspaceNumber(_) => match ws_target(action, w) {
            Some(t) => match ws.focused_window_idx {
                Some(k) => if k >= ws.window_list@.len() {
                    !cont && mid == pre
                } else {
                    cont && exists|m1: WindowManager|
                        #[trigger] m1.moved_ok(&pre, (o as usize, w as usize), (o as usize, t as usize), k)
                            && ws_focused_from(
                            mid,
                            WindowManager { previous_workspace: Some(home(o, w)), ..m1 },
                            o,
                            t,
                        )
                },
                None => !cont && mid == pre,
            },
            None => !cont && mid == pre,
        },
        _ => false,
    }
}

/// A window moved to another workspace can land there.
pub open spec fn ws_step_defined(pre: WindowManager, action: KeybindingAction, o: int, w: int) -> bool {
    let ws = pre.ws(o, w);
    match action {
        KeybindingAction::MoveWindowToWorkspaceAbove
        | KeybindingAction::MoveWindowToWorkspaceBelow
        | KeybindingAction::MoveWindowToWorkspaceNumber(_) => match ws_target(action, w) {
            Some(t) => match ws.focused_window_idx {
                Some(k) => k < ws.window_list@.len() ==> landing_ok(pre, o, t),
                None => true,
            },
            None => true,
        },
        _ => true,
    }
}

fn ws_step(wm: &mut WindowManager, action: &KeybindingAction, o: usize, w: usize) -> (cont: bool)
    requires
        old(wm).inv(),
        old(wm).spec_current_ws_idx() == Some((o, w)),
        is_ws_action(*action),
        ws_step_defined(*old(wm), *action, o as int, w as int),
    ensures
        final(wm).inv(),
        ws_step_ok(*final(wm), *old(wm), *action, o as int, w as int, cont),
{
    let ghost pre = *wm;
    proof {
        assert(pre.has_ws(o as int, w as int));
        assert(output_wf(pre.outputs@[o as int]));
    }
    match action {
        KeybindingAction::FocusWorkspacePrevious => {
            let p = match wm.previous_workspace {
                Some(p) => p,
                None => return false,
            };
            if p.output_idx >= wm.outputs.len() {
                return false;
            }
            wm.focused_output_idx = Some(p.output_idx);
            wm.outputs[p.output_idx].focused_workspace_idx = p.workspace_idx;
            wm.previous_workspace = Some(OverviewHome { output_idx: o, workspace_idx: w });
            proof {
                assert forall|q: int| 0 <= q < wm.outputs@.len() implies output_wf(#[trigger] wm.outputs@[q]) by {
                    assert(output_wf(pre.outputs@[q]));
                }
            }
            true
        },
        KeybindingAction::FocusWorkspaceAbove
        | KeybindingAction::FocusWorkspaceBelow
        | KeybindingAction::FocusWorkspaceNumber(_) => {
            let t = match ws_target_exec(action, w) {
                Some(t) => t,
                None => return false,
            };
            wm.outputs[o].focused_workspace_idx = t;
            wm.previous_workspace = Some(OverviewHome { output_idx: o, workspace_idx: w });
            proof {
                assert forall|q: int| 0 <= q < wm.outputs@.len() implies output_wf(#[trigger] wm.outputs@[q]) by {
                    assert(output_wf(pre.outputs@[q]));
                }
            }
            true
        },
        _ => {
            let t = match ws_target_exec(action, w) {
                Some(t) => t,
                None => return false,
            };
            let k = match wm.outputs[o].workspace_list[w].focused_window_idx {
                Some(k) => k,
                None => return false,
            };
            if k >= wm.outputs[o].workspace_list[w].window_list.len() {
                return false;
            }
            proof {
                assert(pre.has_ws(o as int, t as int));
            }
            wm.move_window_to_workspace((o, w), (o, t), k);
            let ghost m1 = *wm;
            proof {
                lemma_inv_same_shape(m1, pre);
            }
            wm.outputs[o].focused_workspace_idx = t;
            wm.previous_workspace = Some(OverviewHome { output_idx: o, workspace_idx: w });
            proof {
                assert(m1.moved_ok(&pre, (o, w), (o, t), k));
                assert forall|q: int| 0 <= q < wm.outputs@.len() implies output_wf(#[trigger] wm.outputs@[q]) by {
                    assert(output_wf(m1.outputs@[q]));
                }
            }
            true
        },
    }
}

} // verus!

verus! {

/// Whether rectangle `target` touches rectangle `output` on the side the
/// action points to (edges compared in 32-bit wrapping arithmetic, as the
/// release build computes them).
pub open spec fn adjacent_in(action: KeybindingAction, output: Rectangle, target: Rectangle) -> bool {
    match action {
        KeybindingAction::FocusOutputLeft | KeybindingAction::MoveWindowToOutputLeft => target.x.wrapping_add(
            target.width,
        ) == output.x,
        KeybindingAction::FocusOutputRight | KeybindingAction::MoveWindowToOutputRight => target.x
            == output.x.wrapping_add(output.width),
        KeybindingAction::FocusOutputAbove | KeybindingAction::MoveWindowToOutputAbove => target.y.wrapping_add(
            target.height,
        ) == output.y,
        KeybindingAction::FocusOutputBelow | KeybindingAction::MoveWindowToOutputBelow => target.y
            == output.y.wrapping_add(output.height),
        _ => false,
    }
}

/// Output `i` is another, live output adjacent to output `o` in the
/// action's direction.
pub open spec fn is_adjacent(outs: Seq<Output>, o: int, i: int, action: KeybindingAction) -> bool {
    i != o && !outs[i].is_removed && adjacent_in(action, outs[o].rectangle, outs[i].rectangle)
}

/// The first output adjacent to output `o` in the action's direction.
pub open spec fn spec_adjacent_output(outs: Seq<Output>, o: int, action: KeybindingAction) -> Option<int> {
    if exists|i: int|
        0 <= i < outs.len() && is_adjacent(outs, o, i, action) && forall|j: int|
            0 <= j < i ==> !is_adjacent(outs, o, j, action) {
        Some(
            choose|i: int|
                0 <= i < outs.len() && is_adjacent(outs, o, i, action) && forall|j: int|
                    0 <= j < i ==> !is_adjacent(outs, o, j, action),
        )
    } else {
        None
    }
}

/// Find the output adjacent to `output_idx` in the action's direction
/// (rectangle adjacency).
pub fn adjacent_output(wm: &WindowManager, output_idx: usize, action: &KeybindingAction) -> (r: Option<usize>)
    requires
        output_idx < wm.outputs@.len(),
    ensures
        match r {
            Some(t) => {
                &&& spec_adjacent_output(wm.outputs@, output_idx as int, *action) == Some(t as int)
                &&& t < wm.outputs@.len()
                &&& is_adjacent(wm.outputs@, output_idx as int, t as int, *action)
            },
            None => spec_adjacent_output(wm.outputs@, output_idx as int, *action) is None,
        },
{
    let ghost outs = wm.outputs@;
    let rect = wm.outputs[output_idx].rectangle;
    let mut i: usize = 0;
    while i < wm.outputs.len()
        invariant
            outs == wm.outputs@,
            output_idx < outs.len(),
            rect == outs[output_idx as int].rectangle,
            i <= outs.len(),
            forall|j: int| 0 <= j < i ==> !is_adjacent(outs, output_idx as int, j, *action),
        decreases outs.len() - i,
    {
        let target = wm.outputs[i].rectangle;
        let touches = match action {
            KeybindingAction::FocusOutputLeft | KeybindingAction::MoveWindowToOutputLeft => target.x.wrapping_add(
                target.width,
            ) == rect.x,
            KeybindingAction::FocusOutputRight | KeybindingAction::MoveWindowToOutputRight => target.x
                == rect.x.wrapping_add(rect.width),
            KeybindingAction::FocusOutputAbove | KeybindingAction::MoveWindowToOutputAbove => target.y.wrapping_add(
                target.height,
            ) == rect.y,
            KeybindingAction::FocusOutputBelow | KeybindingAction::MoveWindowToOutputBelow => target.y
                == rect.y.wrapping_add(rect.height),
            _ => false,
        };
        if i != output_idx && !wm.outputs[i].is_removed && touches {
            proof {
                assert(is_adjacent(outs, output_idx as int, i as int, *action));
                let c = choose|c: int|
                    0 <= c < outs.len() && is_adjacent(outs, output_idx as int, c, *action) && forall|j: int|
                        0 <= j < c ==> !is_adjacent(outs, output_idx as int, j, *action);
                if c < i {
                    assert(!is_adjacent(outs, output_idx as int, c, *action));
                } else if c > i {
                    assert(!is_adjacent(outs, output_idx as int, i as int, *action));
                }
            }
            return Some(i);
        }
        i = i + 1;
    }
    None
}

/// The actions that focus another output or move the focused window to one.
pub open spec fn is_output_action(action: KeybindingAction) -> bool {
    match action {
        KeybindingAction::FocusOutputLeft
        | KeybindingAction::FocusOutputRight
        | KeybindingAction::FocusOutputAbove
        | KeybindingAction::FocusOutputBelow
        | KeybindingAction::MoveWindowToOutputLeft
        | KeybindingAction::MoveWindowToOutputRight
        | KeybindingAction::MoveWindowToOutputAbove
        | KeybindingAction::MoveWindowToOutputBelow => true,
        _ => false,
    }
}

/// Whether an action moves the focused window to another output.
pub open spec fn is_move_to_output(action: KeybindingAction) -> bool {
    match action {
        KeybindingAction::MoveWindowToOutputLeft
        | KeybindingAction::MoveWindowToOutputRight
        | KeybindingAction::MoveWindowToOutputAbove
        | KeybindingAction::MoveWindowToOutputBelow => true,
        _ => false,
    }
}

/// `m2` is `m1` after the window focused on workspace (`t`, `tws`) asked
/// `geometry` for its initial floating geometry on output `t`: an answer
/// becomes its geometry, a rejection leaves it as it was.
pub open spec fn initial_placed<G>(m2: WindowManager, m1: WindowManager, t: int, tws: int, geometry: G) -> bool where
    G: Fn(GeometryRequest, WindowGeom, Rectangle, Rectangle, &Config) -> Option<WindowGeom>,
 {
    let i = m1.ws(t, tws).focused_window_idx.unwrap() as int;
    let g = m1.win(t, tws, i).geom;
    exists|res: Option<WindowGeom>|
        #[trigger] geometry.ensures(
            (
                GeometryRequest::InitialFloating,
                g,
                m1.outputs@[t].rectangle,
                m1.outputs@[t].non_exclusive,
                &m1.config,
            ),
            res,
        ) && match res {
            None => m2 == m1,
            Some(g2) => m2.is_win_replaced(&m1, t, tws, i, Window { geom: g2, ..m1.win(t, tws, i) }),
        }
}

/// The step of an output action on the focused workspace (`o`, `w`) of
/// `pre`: the adjacent output becomes the focused one (for the move actions
/// with the focused window moved onto its focused workspace first and given
/// its initial floating geometry there), the pointer is to be warped, and
/// the workspace left is remembered. Without an adjacent output a focus
/// action changes nothing but still goes on; a move action, like one
/// without a focused window, does nothing.
pub open spec fn output_step_ok<G>(
    mid: WindowManager,
    pre: WindowManager,
    action: KeybindingAction,
    o: int,
    w: int,
    cont: bool,
    geometry: G,
) -> bool where G: Fn(GeometryRequest, WindowGeom, Rectangle, Rectangle, &Config) -> Option<WindowGeom> {
    let ws = pre.ws(o, w);
    let adj = spec_adjacent_output(pre.outputs@, o, action);
    if !is_move_to_output(action) {
        cont && match adj {
            Some(t) => mid == WindowManager {
                focused_output_idx: Some(t as usize),
                needs_pointer_warp: true,
                previous_workspace: Some(home(o, w)),
                ..pre
            },
            None => mid == pre,
        }
    } else {
        match adj {
            Some(t) => match ws.focused_window_idx {
                Some(k) => if k >= ws.window_list@.len() {
                    !cont && mid == pre
                } else {
                    let tws = pre.outputs@[t].focused_workspace_idx as int;
                    cont && exists|m1: WindowManager, m2: WindowManager|
                        #![trigger m1.moved_ok(&pre, (o as usize, w as usize), (t as usize, tws as usize), k), initial_placed(m2, m1, t, tws, geometry)]
                        m1.moved_ok(&pre, (o as usize, w as usize), (t as usize, tws as usize), k)
                            && initial_placed(m2, m1, t, tws, geometry) && mid == WindowManager {
                            focused_output_idx: Some(t as usize),
                            needs_pointer_warp: true,
                            previous_workspace: Some(home(o, w)),
                            ..m2
                        }
                },
                None => !cont && mid == pre,
            },
            None => !cont && mid == pre,
        }
    }
}

/// A window moved to another output can land on its focused workspace.
pub open spec fn output_step_defined(pre: WindowManager, action: KeybindingAction, o: int, w: int) -> bool {
    let ws = pre.ws(o, w);
    is_move_to_output(action) ==> match spec_adjacent_output(pre.outputs@, o, action) {
        Some(t) => match ws.focused_window_idx {
            Some(k) => k < ws.window_list@.len() ==> landing_ok(
                pre,
                t,
                pre.outputs@[t].focused_workspace_idx as int,
            ),
            None => true,
        },
        None => true,
    }
}

fn move_to_output_step<G>(
    wm: &mut WindowManager,
    action: &KeybindingAction,
    o: usize,
    w: usize,
    t: usize,
    geometry: &G,
) -> (cont: bool) where G: Fn(GeometryRequest, WindowGeom, Rectangle, Rectangle, &Config) -> Option<WindowGeom>
    requires
        old(wm).inv(),
        old(wm).spec_current_ws_idx() == Some((o, w)),
        is_move_to_output(*action),
        spec_adjacent_output(old(wm).outputs@, o as int, *action) == Some(t as int),
        t < old(wm).outputs@.len(),
        t != o,
        output_step_defined(*old(wm), *action, o as int, w as int),
        forall|r: GeometryRequest, g: WindowGeom, a: Rectangle, b: Rectangle, c: &Config|
            #[trigger] geometry.requires((r, g, a, b, c)),
    ensures
        final(wm).inv(),
        output_step_ok(*final(wm), *old(wm), *action, o as int, w as int, cont, *geometry),
{
    let ghost pre = *wm;
    proof {
        assert(pre.has_ws(o as int, w as int));
    }
    let k = match wm.outputs[o].workspace_list[w].focused_window_idx {
        Some(k) => k,
        None => return false,
    };
    if k >= wm.outputs[o].workspace_list[w].window_list.len() {
        return false;
    }
    let tws = wm.outputs[t].focused_workspace_idx;
    proof {
        assert(output_wf(pre.outputs@[t as int]));
        assert(pre.has_ws(t as int, tws as int));
    }
    wm.move_window_to_workspace((o, w), (t, tws), k);
    let ghost m1 = *wm;
    proof {
        lemma_inv_same_shape(m1, pre);
        assert(m1.moved_ok(&pre, (o, w), (t, tws), k));
    }
    let out_rect = wm.outputs[t].rectangle;
    let ne = wm.outputs[t].non_exclusive;
    let tf = wm.outputs[t].workspace_list[tws].focused_window_idx;
    if let Some(i) = tf {
        if i < wm.outputs[t].workspace_list[tws].window_list.len() {
            let g = wm.outputs[t].workspace_list[tws].window_list[i].geom.duplicate();
            let res = geometry(GeometryRequest::InitialFloating, g, out_rect, ne, &wm.config);
            if let Some(g2) = res {
                wm.set_geom(t, tws, i, g2);
                proof {
                    lemma_inv_win_replaced(*wm, m1, t as int, tws as int, i as int, Window { geom: g2, ..m1.win(t as int, tws as int, i as int) });
                }
            }
        }
    }
    let ghost m2 = *wm;
    proof {
        assert(initial_placed(m2, m1, t as int, tws as int, *geometry));
    }
    wm.focused_output_idx = Some(t);
    wm.needs_pointer_warp = true;
    wm.previous_workspace = Some(OverviewHome { output_idx: o, workspace_idx: w });
    true
}

fn output_step<G>(
    wm: &mut WindowManager,
    action: &KeybindingAction,
    o: usize,
    w: usize,
    geometry: &G,
) -> (cont: bool) where G: Fn(GeometryRequest, WindowGeom, Rectangle, Rectangle, &Config) -> Option<WindowGeom>
    requires
        old(wm).inv(),
        old(wm).spec_current_ws_idx() == Some((o, w)),
        is_output_action(*action),
        output_step_defined(*old(wm), *action, o as int, w as int),
        forall|r: GeometryRequest, g: WindowGeom, a: Rectangle, b: Rectangle, c: &Config|
            #[trigger] geometry.requires((r, g, a, b, c)),
    ensures
        final(wm).inv(),
        output_step_ok(*final(wm), *old(wm), *action, o as int, w as int, cont, *geometry),
{
    let adj = adjacent_output(wm, o, action);
    let moving = match action {
        KeybindingAction::MoveWindowToOutputLeft
        | KeybindingAction::MoveWindowToOutputRight
        | KeybindingAction::MoveWindowToOutputAbove
        | KeybindingAction::MoveWindowToOutputBelow => true,
        _ => false,
    };
    if !moving {
        if let Some(t) = adj {
            wm.focused_output_idx = Some(t);
            wm.needs_pointer_warp = true;
            wm.previous_workspace = Some(OverviewHome { output_idx: o, workspace_idx: w });
        }
        return true;
    }
    match adj {
        Some(t) => move_to_output_step(wm, action, o, w, t, geometry),
        None => false,
    }
}

} // verus!

verus! {

/// The actions that turn into another action depending on where focus is.
pub open spec fn redirect_rank(action: KeybindingAction) -> int {
    match action {
        KeybindingAction::FocusWindowOrOutputLeft
        | KeybindingAction::FocusWindowOrOutputRight
        | KeybindingAction::MoveWindowLeftOrToOutputLeft
        | KeybindingAction::MoveWindowRightOrToOutputRight
        | KeybindingAction::FocusWorkspaceOrOutputAbove
        | KeybindingAction::FocusWorkspaceOrOutputBelow => 1,
        _ => 0,
    }
}

/// The action a press of `action` performs on the focused workspace
/// (`o`, `w`) of `pre`: an "or output" action becomes the output action at
/// the edge (for focus moves a floating workspace counts as an edge) and the
/// plain action elsewhere, and needs a focused window when it is about
/// windows; `None` when the press does nothing. Every other action is
/// itself.
pub open spec fn redirect(pre: WindowManager, action: KeybindingAction, o: int, w: int) -> Option<
    KeybindingAction,
> {
    let ws = pre.ws(o, w);
    let len = ws.window_list@.len();
    match action {
        KeybindingAction::FocusWindowOrOutputLeft => match ws.focused_window_idx {
            Some(k) => if k >= len {
                None
            } else if ws.is_floating || k == 0 {
                Some(KeybindingAction::FocusOutputLeft)
            } else {
                Some(KeybindingAction::FocusWindowLeft)
            },
            None => None,
        },
        KeybindingAction::FocusWindowOrOutputRight => match ws.focused_window_idx {
            Some(k) => if k >= len {
                None
            } else if ws.is_floating || k == len - 1 {
                Some(KeybindingAction::FocusOutputRight)
            } else {
                Some(KeybindingAction::FocusWindowRight)
            },
            None => None,
        },
        KeybindingAction::MoveWindowLeftOrToOutputLeft => match ws.focused_window_idx {
            Some(k) => if k >= len {
                None
            } else if k == 0 {
                Some(KeybindingAction::MoveWindowToOutputLeft)
            } else {
                Some(KeybindingAction::MoveWindowLeft)
            },
            None => None,
        },
        KeybindingAction::MoveWindowRightOrToOutputRight => match ws.focused_window_idx {
            Some(k) => if k >= len {
                None
            } else if k == len - 1 {
                Some(KeybindingAction::MoveWindowToOutputRight)
            } else {
                Some(KeybindingAction::MoveWindowRight)
            },
            None => None,
        },
        KeybindingAction::FocusWorkspaceOrOutputAbove => if w == 0 {
            Some(KeybindingAction::FocusOutputAbove)
        } else {
            Some(KeybindingAction::FocusWorkspaceAbove)
        },
        KeybindingAction::FocusWorkspaceOrOutputBelow => if w == 9 {
            Some(KeybindingAction::FocusOutputBelow)
        } else {
            Some(KeybindingAction::FocusWorkspaceBelow)
        },
        _ => Some(action),
    }
}

/// The step of a (non-redirecting) action on the focused workspace
/// (`o`, `w`) of `pre`, giving `mid`; `cont` tells whether the press goes on
/// to the layout pass. The overview-only keys do nothing here and go on.
pub open spec fn step_ok<G>(
    mid: WindowManager,
    pre: WindowManager,
    action: KeybindingAction,
    o: int,
    w: int,
    cont: bool,
    geometry: G,
) -> bool where G: Fn(GeometryRequest, WindowGeom, Rectangle, Rectangle, &Config) -> Option<WindowGeom> {
    if is_window_action(action) {
        window_step_ok(mid, pre, action, o, w, cont, geometry)
    } else if is_nav_action(action) {
        nav_step_ok(mid, pre, action, o, w, cont)
    } else if is_ws_action(action) {
        ws_step_ok(mid, pre, action, o, w, cont)
    } else if is_output_action(action) {
        output_step_ok(mid, pre, action, o, w, cont, geometry)
    } else {
        cont && mid == pre
    }
}

/// The inputs on which a step cannot be taken are excluded.
pub open spec fn step_defined(pre: WindowManager, action: KeybindingAction, o: int, w: int) -> bool {
    &&& ws_step_defined(pre, action, o, w)
    &&& output_step_defined(pre, action, o, w)
}

/// After a step that goes on, the layout targets are recomputed and the
/// status becomes `Layout`.
pub open spec fn layout_tail<S>(post: WindowManager, mid: WindowManager, cont: bool, scroller: S) -> bool where
    S: Fn(Vec<WindowGeom>, Option<usize>, Rectangle, Rectangle, &Config, i32) -> Vec<WindowGeom>,
 {
    if cont {
        exists|upd: WindowManager|
            #[trigger] update_ok(upd, mid, scroller) && post == WindowManager {
                status: Status::Layout,
                ..upd
            }
    } else {
        post == mid
    }
}

/// What pressing `action` does to `pre`, giving `post`, the effect left to
/// the caller and the requests `r`: spawning and reloading are effects;
/// exit sets the exit status; entering the overview opens it and asks for
/// a manage sequence; every other action needs a focused workspace, takes
/// its step there, and, when the step goes on, recomputes the layout.
pub open spec fn dispatch_ok<S, G>(
    post: WindowManager,
    pre: WindowManager,
    action: KeybindingAction,
    effect: Effect,
    r: Seq<Request>,
    bindings: Seq<XkbBinding>,
    scroller: S,
    geometry: G,
) -> bool where
    S: Fn(Vec<WindowGeom>, Option<usize>, Rectangle, Rectangle, &Config, i32) -> Vec<WindowGeom>,
    G: Fn(GeometryRequest, WindowGeom, Rectangle, Rectangle, &Config) -> Option<WindowGeom>,
 {
    match action {
        KeybindingAction::Spawn(argv) => {
            &&& post == pre
            &&& r == Seq::<Request>::empty()
            &&& effect matches Effect::Spawn(v) && v@ == argv@
        },
        KeybindingAction::Exit => {
            &&& post == WindowManager { status: Status::Exit, ..pre }
            &&& r == Seq::<Request>::empty()
            &&& effect is Nothing
        },
        KeybindingAction::ReloadConfig => {
            &&& post == pre
            &&& r == Seq::<Request>::empty()
            &&& effect is ReloadConfig
        },
        KeybindingAction::EnterOverview => {
            &&& effect is Nothing
            &&& if pre.overview_state is Some {
                &&& post == WindowManager { status: Status::Overview, ..pre }
                &&& r == seq![Request::ManageDirty]
            } else if enter_applies(pre) {
                &&& enter_ok(post, pre)
                &&& r == overview_keybind_reqs(bindings, true) + seq![Request::ManageDirty]
            } else {
                &&& post == pre
                &&& r == Seq::<Request>::empty()
            }
        },
        _ => {
            &&& effect is Nothing
            &&& r == Seq::<Request>::empty()
            &&& match pre.spec_current_ws_idx() {
                None => post == pre,
                Some((o, w)) => match redirect(pre, action, o as int, w as int) {
                    None => post == pre,
                    Some(a) => exists|mid: WindowManager, cont: bool|
                        #[trigger] step_ok(mid, pre, a, o as int, w as int, cont, geometry)
                            && layout_tail(post, mid, cont, scroller),
                },
            }
        },
    }
}

/// The inputs on which pressing `action` cannot be carried out are
/// excluded: an overview grid whose divisions are undefined, and moving a
/// window into a workspace whose focus is out of range.
pub open spec fn dispatch_defined(pre: WindowManager, action: KeybindingAction) -> bool {
    match action {
        KeybindingAction::EnterOverview => enter_defined(pre),
        KeybindingAction::Spawn(_) | KeybindingAction::Exit | KeybindingAction::ReloadConfig => true,
        _ => match pre.spec_current_ws_idx() {
            None => true,
            Some((o, w)) => match redirect(pre, action, o as int, w as int) {
                None => true,
                Some(a) => step_defined(pre, a, o as int, w as int),
            },
        },
    }
}

fn enter_overview_action<S>(
    wm: &mut WindowManager,
    bindings: &Vec<XkbBinding>,
    scroller: &S,
    reqs: &mut Vec<Request>,
) where
    S: Fn(Vec<WindowGeom>, Option<usize>, Rectangle, Rectangle, &Config, i32) -> Vec<WindowGeom>,

    requires
        old(wm).inv(),
        enter_defined(*old(wm)),
        forall|v: Vec<WindowGeom>, f: Option<usize>, a: Rectangle, b: Rectangle, c: &Config, y: i32|
            #[trigger] scroller.requires((v, f, a, b, c, y)),
    ensures
        final(wm).inv(),
        final(reqs)@.len() >= old(reqs)@.len(),
        final(reqs)@.take(old(reqs)@.len() as int) == old(reqs)@,
        ({
            let pre = *old(wm);
            let post = *final(wm);
            let r = final(reqs)@.skip(old(reqs)@.len() as int);
            if pre.overview_state is Some {
                &&& post == WindowManager { status: Status::Overview, ..pre }
                &&& r == seq![Request::ManageDirty]
            } else if enter_applies(pre) {
                &&& enter_ok(post, pre)
                &&& r == overview_keybind_reqs(bindings@, true) + seq![Request::ManageDirty]
            } else {
                &&& post == pre
                &&& r == Seq::<Request>::empty()
            }
        }),
{
    let ghost pre = *wm;
    let ghost start = old(reqs)@;
    enter(wm, bindings, reqs);
    if wm.overview_state.is_some() {
        update(wm, scroller);
        wm.status = Status::Overview;
        reqs.push(Request::ManageDirty);
    }
    proof {
        assert(reqs@.take(start.len() as int) =~= start);
        if pre.overview_state is Some {
            assert(reqs@.skip(start.len() as int) =~= seq![Request::ManageDirty]);
        } else if enter_applies(pre) {
            assert(reqs@.skip(start.len() as int) =~= overview_keybind_reqs(bindings@, true)
                + seq![Request::ManageDirty]);
        } else {
            assert(reqs@.skip(start.len() as int) =~= Seq::<Request>::empty());
        }
    }
}

/// Carry out a pressed action. Spawning and reloading are left to the
/// caller as the returned effect; every action that changes the workspace
/// state ends with a layout update and the `Layout` status, after which
/// the caller requests a manage sequence.
pub fn dispatch_action<S, G>(
    wm: &mut WindowManager,
    bindings: &Vec<XkbBinding>,
    action: &KeybindingAction,
    scroller: &S,
    geometry: &G,
    reqs: &mut Vec<Request>,
) -> (effect: Effect) where
    S: Fn(Vec<WindowGeom>, Option<usize>, Rectangle, Rectangle, &Config, i32) -> Vec<WindowGeom>,
    G: Fn(GeometryRequest, WindowGeom, Rectangle, Rectangle, &Config) -> Option<WindowGeom>,

    requires
        old(wm).inv(),
        dispatch_defined(*old(wm), *action),
        forall|v: Vec<WindowGeom>, f: Option<usize>, a: Rectangle, b: Rectangle, c: &Config, y: i32|
            #[trigger] scroller.requires((v, f, a, b, c, y)),
        forall|r: GeometryRequest, g: WindowGeom, a: Rectangle, b: Rectangle, c: &Config|
            #[trigger] geometry.requires((r, g, a, b, c)),
    ensures
        final(wm).inv(),
        final(reqs)@.len() >= old(reqs)@.len(),
        final(reqs)@.take(old(reqs)@.len() as int) == old(reqs)@,
        dispatch_ok(
            *final(wm),
            *old(wm),
            *action,
            effect,
            final(reqs)@.skip(old(reqs)@.len() as int),
            bindings@,
            *scroller,
            *geometry,
        ),
    decreases redirect_rank(*action),
{
    let ghost pre = *wm;
    let ghost start = old(reqs)@;
    proof {
        assert(reqs@.skip(start.len() as int) =~= Seq::<Request>::empty());
        assert(reqs@.take(start.len() as int) =~= start);
    }
    match action {
        KeybindingAction::Spawn(argv) => {
            let v = argv.clone();
            proof {
                assert(v@ =~= argv@);
            }
            return Effect::Spawn(v);
        },
        KeybindingAction::Exit => {
            wm.status = Status::Exit;
            return Effect::Nothing;
        },
        KeybindingAction::ReloadConfig => {
            return Effect::ReloadConfig;
        },
        KeybindingAction::EnterOverview => {
            enter_overview_action(wm, bindings, scroller, reqs);
            return Effect::Nothing;
        },
        _ => {},
    }
    let (o, w) = match wm.current_ws_idx() {
        Some(p) => p,
        None => return Effect::Nothing,
    };
    proof {
        assert(pre.has_ws(o as int, w as int));
    }
    let len = wm.outputs[o].workspace_list[w].window_list.len();
    let focus = wm.outputs[o].workspace_list[w].focused_window_idx;
    let ws_floating = wm.outputs[o].workspace_list[w].is_floating;
    let redirected: Option<KeybindingAction> = match action {
        KeybindingAction::FocusWindowOrOutputLeft => match focus {
            Some(k) => if k >= len {
                return Effect::Nothing;
            } else if ws_floating || k == 0 {
                Some(KeybindingAction::FocusOutputLeft)
            } else {
                Some(KeybindingAction::FocusWindowLeft)
            },
            None => return Effect::Nothing,
        },
        KeybindingAction::FocusWindowOrOutputRight => match focus {
            Some(k) => if k >= len {
                return Effect::Nothing;
            } else if ws_floating || k == len - 1 {
                Some(KeybindingAction::FocusOutputRight)
            } else {
                Some(KeybindingAction::FocusWindowRight)
            },
            None => return Effect::Nothing,
        },
        KeybindingAction::MoveWindowLeftOrToOutputLeft => match focus {
            Some(k) => if k >= len {
                return Effect::Nothing;
            } else if k == 0 {
                Some(KeybindingAction::MoveWindowToOutputLeft)
            } else {
                Some(KeybindingAction::MoveWindowLeft)
            },
            None => return Effect::Nothing,
        },
        KeybindingAction::MoveWindowRightOrToOutputRight => match focus {
            Some(k) => if k >= len {
                return Effect::Nothing;
            } else if k == len - 1 {
                Some(KeybindingAction::MoveWindowToOutputRight)
            } else {
                Some(KeybindingAction::MoveWindowRight)
            },
            None => return Effect::Nothing,
        },
        KeybindingAction::FocusWorkspaceOrOutputAbove => if w == 0 {
            Some(KeybindingAction::FocusOutputAbove)
        } else {
            Some(KeybindingAction::FocusWorkspaceAbove)
        },
        KeybindingAction::FocusWorkspaceOrOutputBelow => if w == 9 {
            Some(KeybindingAction::FocusOutputBelow)
        } else {
            Some(KeybindingAction::FocusWorkspaceBelow)
        },
        _ => None,
    };
    if let Some(target) = redirected {
        proof {
            assert(redirect(pre, *action, o as int, w as int) == Some(target));
            assert(redirect(pre, target, o as int, w as int) == Some(target));
        }
        return dispatch_action(wm, bindings, &target, scroller, geometry, reqs);
    }
    proof {
        assert(redirect(pre, *action, o as int, w as int) == Some(*action));
    }
    step_and_layout(wm, action, o, w, scroller, geometry);
    Effect::Nothing
}

/// The actions that neither leave work to the caller nor open the overview.
pub open spec fn is_plain_action(action: KeybindingAction) -> bool {
    match action {
        KeybindingAction::Spawn(_)
        | KeybindingAction::Exit
        | KeybindingAction::ReloadConfig
        | KeybindingAction::EnterOverview => false,
        _ => true,
    }
}

fn step_and_layout<S, G>(
    wm: &mut WindowManager,
    action: &KeybindingAction,
    o: usize,
    w: usize,
    scroller: &S,
    geometry: &G,
) where
    S: Fn(Vec<WindowGeom>, Option<usize>, Rectangle, Rectangle, &Config, i32) -> Vec<WindowGeom>,
    G: Fn(GeometryRequest, WindowGeom, Rectangle, Rectangle, &Config) -> Option<WindowGeom>,

    requires
        old(wm).inv(),
        old(wm).spec_current_ws_idx() == Some((o, w)),
        is_plain_action(*action),
        redirect_rank(*action) == 0,
        step_defined(*old(wm), *action, o as int, w as int),
        forall|v: Vec<WindowGeom>, f: Option<usize>, a: Rectangle, b: Rectangle, c: &Config, y: i32|
            #[trigger] scroller.requires((v, f, a, b, c, y)),
        forall|r: GeometryRequest, g: WindowGeom, a: Rectangle, b: Rectangle, c: &Config|
            #[trigger] geometry.requires((r, g, a, b, c)),
    ensures
        final(wm).inv(),
        exists|mid: WindowManager, cont: bool|
            #[trigger] step_ok(mid, *old(wm), *action, o as int, w as int, cont, *geometry)
                && layout_tail(*final(wm), mid, cont, *scroller),
{
    let ghost pre = *wm;
    let cont = if is_window_action_exec(action) {
        window_step(wm, action, o, w, geometry)
    } else if is_nav_action_exec(action) {
        nav_step(wm, action, o, w)
    } else if is_ws_action_exec(action) {
        ws_step(wm, action, o, w)
    } else if is_output_action_exec(action) {
        output_step(wm, action, o, w, geometry)
    } else {
        true
    };
    let ghost mid = *wm;
    proof {
        assert(step_ok(mid, pre, *action, o as int, w as int, cont, *geometry));
    }
    if cont {
        update(wm, scroller);
        let ghost upd = *wm;
        wm.status = Status::Layout;
        proof {
            assert(update_ok(upd, mid, *scroller));
            lemma_inv_same_shape(upd, mid);
        }
    }
}

fn is_window_action_exec(action: &KeybindingAction) -> (b: bool)
    ensures
        b == is_window_action(*action),
{
    match action {
        KeybindingAction::CloseWindow
        | KeybindingAction::ToggleFullscreen
        | KeybindingAction::ToggleMaximizeColumn
        | KeybindingAction::AdjustWindowWidth(_)
        | KeybindingAction::SetWindowWidth(_)
        | KeybindingAction::AdjustFloatingWindowSize(_)
        | KeybindingAction::SetFloatingWindowHeight(_)
        | KeybindingAction::MoveFloatingWindowLeft
        | KeybindingAction::MoveFloatingWindowRight
        | KeybindingAction::MoveFloatingWindowUp
        | KeybindingAction::MoveFloatingWindowDown
        | KeybindingAction::ToggleWorkspaceFloating => true,
        _ => false,
    }
}

fn is_nav_action_exec(action: &KeybindingAction) -> (b: bool)
    ensures
        b == is_nav_action(*action),
{
    match action {
        KeybindingAction::FocusWindowLeft
        | KeybindingAction::FocusWindowRight
        | KeybindingAction::MoveWindowLeft
        | KeybindingAction::MoveWindowRight => true,
        _ => false,
    }
}

fn is_ws_action_exec(action: &KeybindingAction) -> (b: bool)
    ensures
        b == is_ws_action(*action),
{
    match action {
        KeybindingAction::FocusWorkspaceAbove
        | KeybindingAction::FocusWorkspaceBelow
        | KeybindingAction::FocusWorkspaceNumber(_)
        | KeybindingAction::FocusWorkspacePrevious
        | KeybindingAction::MoveWindowToWorkspaceAbove
        | KeybindingAction::MoveWindowToWorkspaceBelow
        | KeybindingAction::MoveWindowToWorkspaceNumber(_) => true,
        _ => false,
    }
}

fn is_output_action_exec(action: &KeybindingAction) -> (b: bool)
    ensures
        b == is_output_action(*action),
{
    match action {
        KeybindingAction::FocusOutputLeft
        | KeybindingAction::FocusOutputRight
        | KeybindingAction::FocusOutputAbove
        | KeybindingAction::FocusOutputBelow
        | KeybindingAction::MoveWindowToOutputLeft
        | KeybindingAction::MoveWindowToOutputRight
        | KeybindingAction::MoveWindowToOutputAbove
        | KeybindingAction::MoveWindowToOutputBelow => true,
        _ => false,
    }
}

} // verus!

verus! {

/// The highlight after a navigation action on a grid of `cols` columns
/// holding `total` entries, from entry `cur`: left and right stay in the
/// row, up and down move a row; the result is capped at the last entry.
/// `None` for actions that do not navigate.
pub open spec fn nav_target(action: KeybindingAction, cur: int, cols: int, total: int) -> Option<int> {
    let rows = div_ceil(total, cols);
    let row = cur / cols;
    let col = cur % cols;
    let next = match action {
        KeybindingAction::OverviewNavLeft
        | KeybindingAction::FocusWindowLeft
        | KeybindingAction::FocusOutputLeft => Some(
            if col > 0 {
                cur - 1
            } else {
                cur
            },
        ),
        KeybindingAction::OverviewNavRight
        | KeybindingAction::FocusWindowRight
        | KeybindingAction::FocusOutputRight => Some(
            if col + 1 < cols {
                cur + 1
            } else {
                cur
            },
        ),
        KeybindingAction::OverviewNavUp
        | KeybindingAction::FocusWorkspaceAbove
        | KeybindingAction::FocusOutputAbove => Some(
            if row > 0 {
                cur - cols
            } else {
                cur
            },
        ),
        KeybindingAction::OverviewNavDown
        | KeybindingAction::FocusWorkspaceBelow
        | KeybindingAction::FocusOutputBelow => Some(
            if row + 1 < rows {
                cur + cols
            } else {
                cur
            },
        ),
        _ => None,
    };
    match next {
        Some(n) => Some(
            if n >= total {
                total - 1
            } else {
                n
            },
        ),
        None => None,
    }
}

/// The actions that close the overview without selecting.
pub open spec fn is_overview_exit(action: KeybindingAction) -> bool {
    match action {
        KeybindingAction::EnterOverview
        | KeybindingAction::Exit
        | KeybindingAction::OverviewCancel => true,
        _ => false,
    }
}

/// `post` is `mid` after the layout pass that follows leaving the overview.
pub open spec fn relaid_out<S>(post: WindowManager, mid: WindowManager, scroller: S) -> bool where
    S: Fn(Vec<WindowGeom>, Option<usize>, Rectangle, Rectangle, &Config, i32) -> Vec<WindowGeom>,
 {
    exists|upd: WindowManager|
        #[trigger] update_ok(upd, mid, scroller) && post == WindowManager {
            status: Status::Layout,
            ..upd
        }
}

/// What a key press during the overview does to `pre` (the pressed binding's
/// action being `action`), giving `post` and the requests `r`: dead entries
/// are pruned first; then canceling (also by pressing enter-overview or exit
/// again) and confirming close the overview and lay out again; navigation
/// moves the highlight and asks for a manage sequence when it moved; any
/// other key does nothing.
pub open spec fn overview_press_ok<S>(
    post: WindowManager,
    pre: WindowManager,
    action: Option<KeybindingAction>,
    r: Seq<Request>,
    bindings: Seq<XkbBinding>,
    scroller: S,
) -> bool where
    S: Fn(Vec<WindowGeom>, Option<usize>, Rectangle, Rectangle, &Config, i32) -> Vec<WindowGeom>,
 {
    match action {
        None => post == pre && r == Seq::<Request>::empty(),
        Some(a) => exists|pr: WindowManager|
            #[trigger] spec_prune(pr, pre) && match pr.overview_state {
                None => post == pr && r == prune_reqs(pre, bindings),
                Some(ov) => if is_overview_exit(a) {
                    &&& exists|c: WindowManager| #[trigger] spec_cancel(c, pr) && relaid_out(post, c, scroller)
                    &&& r == leave_reqs(pr, bindings)
                } else if a == KeybindingAction::OverviewConfirm {
                    &&& exists|c: WindowManager| #[trigger] spec_select(c, pr) && relaid_out(post, c, scroller)
                    &&& r == leave_reqs(pr, bindings)
                } else {
                    match nav_target(
                        a,
                        ov.highlighted as int,
                        ov.columns as int,
                        ov.entries@.len() as int,
                    ) {
                        Some(next) => if next != ov.highlighted {
                            &&& post == WindowManager {
                                overview_state: Some(
                                    OverviewState { highlighted: next as usize, ..ov },
                                ),
                                status: Status::Overview,
                                ..pr
                            }
                            &&& r == seq![Request::ManageDirty]
                        } else {
                            post == pr && r == Seq::<Request>::empty()
                        },
                        None => post == pr && r == Seq::<Request>::empty(),
                    }
                },
            },
    }
}

/// Closing the overview by a key needs the remembered workspace's output;
/// confirming closes it that way when the highlight is past the entries and
/// pruning removes nothing.
pub open spec fn overview_press_defined(pre: WindowManager, action: KeybindingAction) -> bool {
    match pre.overview_state {
        Some(ov) => {
            &&& prune_defined(pre)
            &&& is_overview_exit(action) ==> ov_home_valid(pre)
            &&& action == KeybindingAction::OverviewConfirm && ov.highlighted >= ov.entries@.len()
                && ov.entries@.filter(alive(pre)).len() == ov.entries@.len() ==> ov_home_valid(pre)
        },
        None => true,
    }
}

/// The action of the binding registered under `proxy`, if any.
pub open spec fn spec_binding_action(bindings: Seq<XkbBinding>, proxy: ObjectId) -> Option<KeybindingAction> {
    match spec_binding_index(bindings, proxy) {
        Some(i) => Some(bindings[i].action),
        None => None,
    }
}

fn nav_target_exec(action: &KeybindingAction, cur: usize, cols: usize, total: usize) -> (r: Option<usize>)
    requires
        cols >= 1,
        total >= 1,
    ensures
        match r {
            Some(n) => nav_target(*action, cur as int, cols as int, total as int) == Some(n as int),
            None => nav_target(*action, cur as int, cols as int, total as int) is None,
        },
{
    let q = total / cols;
    let extra: usize = if total % cols == 0 {
        0
    } else {
        1
    };
    proof {
        assert(q + extra <= total) by (nonlinear_arith)
            requires
                cols >= 1,
                q == total / cols,
                extra == if total % cols == 0 { 0int } else { 1int },
        ;
    }
    let rows = q + extra;
    let row = cur / cols;
    let col = cur % cols;
    proof {
        assert(rows == div_ceil(total as int, cols as int)) by (nonlinear_arith)
            requires
                cols >= 1,
                rows == total / cols + if total % cols == 0 { 0int } else { 1int },
        ;
        assert(col > 0 ==> cur >= 1) by (nonlinear_arith)
            requires
                col == cur % cols,
                cols >= 1,
        ;
        assert(row > 0 ==> cur >= cols) by (nonlinear_arith)
            requires
                row == cur / cols,
                cols >= 1,
        ;
        assert(row + 1 < rows ==> total > cols) by (nonlinear_arith)
            requires
                cols >= 1,
                rows == total / cols + if total % cols == 0 { 0int } else { 1int },
        ;
        assert(rows >= 1) by (nonlinear_arith)
            requires
                cols >= 1,
                total >= 1,
                rows == total / cols + if total % cols == 0 { 0int } else { 1int },
        ;
    }
    match action {
        KeybindingAction::OverviewNavLeft
        | KeybindingAction::FocusWindowLeft
        | KeybindingAction::FocusOutputLeft => {
            let n = if col > 0 {
                cur - 1
            } else {
                cur
            };
            Some(
                if n >= total {
                    total - 1
                } else {
                    n
                },
            )
        },
        KeybindingAction::OverviewNavRight
        | KeybindingAction::FocusWindowRight
        | KeybindingAction::FocusOutputRight => {
            Some(
                if col + 1 < cols {
                    if cur >= total - 1 {
                        total - 1
                    } else {
                        cur + 1
                    }
                } else if cur >= total {
                    total - 1
                } else {
                    cur
                },
            )
        },
        KeybindingAction::OverviewNavUp
        | KeybindingAction::FocusWorkspaceAbove
        | KeybindingAction::FocusOutputAbove => {
            let n = if row > 0 {
                cur - cols
            } else {
                cur
            };
            Some(
                if n >= total {
                    total - 1
                } else {
                    n
                },
            )
        },
        KeybindingAction::OverviewNavDown
        | KeybindingAction::FocusWorkspaceBelow
        | KeybindingAction::FocusOutputBelow => {
            Some(
                if row < rows - 1 {
                    if cur >= total - cols {
                        total - 1
                    } else {
                        cur + cols
                    }
                } else if cur >= total {
                    total - 1
                } else {
                    cur
                },
            )
        },
        _ => None,
    }
}

fn leave_by_key<S>(
    wm: &mut WindowManager,
    bindings: &Vec<XkbBinding>,
    confirm: bool,
    scroller: &S,
    reqs: &mut Vec<Request>,
) where
    S: Fn(Vec<WindowGeom>, Option<usize>, Rectangle, Rectangle, &Config, i32) -> Vec<WindowGeom>,

    requires
        old(wm).inv(),
        old(wm).overview_state is Some,
        confirm ==> select_defined(*old(wm)),
        !confirm ==> ov_home_valid(*old(wm)),
        forall|v: Vec<WindowGeom>, f: Option<usize>, a: Rectangle, b: Rectangle, c: &Config, y: i32|
            #[trigger] scroller.requires((v, f, a, b, c, y)),
    ensures
        final(wm).inv(),
        final(reqs)@ == old(reqs)@ + leave_reqs(*old(wm), bindings@),
        confirm ==> exists|c: WindowManager|
            #[trigger] spec_select(c, *old(wm)) && relaid_out(*final(wm), c, *scroller),
        !confirm ==> exists|c: WindowManager|
            #[trigger] spec_cancel(c, *old(wm)) && relaid_out(*final(wm), c, *scroller),
{
    let ghost pre = *wm;
    if confirm {
        select(wm, bindings, reqs);
    } else {
        cancel(wm, bindings, reqs);
    }
    let ghost c = *wm;
    update(wm, scroller);
    let ghost upd = *wm;
    wm.status = Status::Layout;
    proof {
        assert(update_ok(upd, c, *scroller));
        lemma_inv_same_shape(upd, c);
        if confirm {
            assert(spec_select(c, pre));
        } else {
            assert(spec_cancel(c, pre));
        }
    }
}

/// Overview key interception: while the overview is open every pressed
/// binding is routed here.
pub fn overview_key_pressed<S>(
    wm: &mut WindowManager,
    bindings: &Vec<XkbBinding>,
    proxy: ObjectId,
    scroller: &S,
    reqs: &mut Vec<Request>,
) where
    S: Fn(Vec<WindowGeom>, Option<usize>, Rectangle, Rectangle, &Config, i32) -> Vec<WindowGeom>,

    requires
        old(wm).inv(),
        spec_binding_action(bindings@, proxy) matches Some(a) ==> overview_press_defined(*old(wm), a),
        forall|v: Vec<WindowGeom>, f: Option<usize>, a: Rectangle, b: Rectangle, c: &Config, y: i32|
            #[trigger] scroller.requires((v, f, a, b, c, y)),
    ensures
        final(wm).inv(),
        final(reqs)@.len() >= old(reqs)@.len(),
        final(reqs)@.take(old(reqs)@.len() as int) == old(reqs)@,
        overview_press_ok(
            *final(wm),
            *old(wm),
            spec_binding_action(bindings@, proxy),
            final(reqs)@.skip(old(reqs)@.len() as int),
            bindings@,
            *scroller,
        ),
{
    let ghost pre = *wm;
    let ghost start = old(reqs)@;
    proof {
        assert(reqs@.skip(start.len() as int) =~= Seq::<Request>::empty());
        assert(reqs@.take(start.len() as int) =~= start);
    }
    let action = match binding_action(bindings, proxy) {
        Some(a) => a,
        None => return,
    };
    prune(wm, bindings, reqs);
    let ghost pr = *wm;
    let (total, cols, cur) = match &wm.overview_state {
        Some(ov) => (ov.entries.len(), ov.columns, ov.highlighted),
        None => {
            proof {
                assert(reqs@.skip(start.len() as int) =~= prune_reqs(pre, bindings@));
                assert(reqs@.take(start.len() as int) =~= start);
            }
            return;
        },
    };
    proof {
        assert(!none_alive(pre));
        assert(reqs@ =~= start);
    }
    proof {
        assert(spec_prune(pr, pre));
        let ov0 = pre.overview_state.unwrap();
        if ov0.entries@.filter(alive(pre)).len() == ov0.entries@.len() {
            assert(pr == pre);
        }
    }
    match action {
        KeybindingAction::EnterOverview | KeybindingAction::Exit | KeybindingAction::OverviewCancel => {
            leave_by_key(wm, bindings, false, scroller, reqs);
            proof {
                assert(reqs@.skip(start.len() as int) =~= leave_reqs(pr, bindings@));
                assert(reqs@.take(start.len() as int) =~= start);
            }
            return;
        },
        KeybindingAction::OverviewConfirm => {
            leave_by_key(wm, bindings, true, scroller, reqs);
            proof {
                assert(reqs@.skip(start.len() as int) =~= leave_reqs(pr, bindings@));
                assert(reqs@.take(start.len() as int) =~= start);
            }
            return;
        },
        _ => {},
    }
    let next = match nav_target_exec(action, cur, cols, total) {
        Some(n) => n,
        None => return,
    };
    if next != cur {
        match &mut wm.overview_state {
            Some(ov) => {
                ov.highlighted = next;
            },
            None => {},
        }
        wm.status = Status::Overview;
        reqs.push(Request::ManageDirty);
        proof {
            assert(reqs@.skip(start.len() as int) =~= seq![Request::ManageDirty]);
            assert(reqs@.take(start.len() as int) =~= start);
        }
    }
}

/// What a pressed binding does to `pre`, giving `post`, the effect and the
/// requests `r`: nothing during a pointer operation or while the session is
/// locked; during the overview the overview keys apply; otherwise the
/// binding's action is carried out and a manage sequence is requested.
pub open spec fn press_ok<S, G>(
    post: WindowManager,
    pre: WindowManager,
    action: Option<KeybindingAction>,
    effect: Effect,
    r: Seq<Request>,
    bindings: Seq<XkbBinding>,
    scroller: S,
    geometry: G,
) -> bool where
    S: Fn(Vec<WindowGeom>, Option<usize>, Rectangle, Rectangle, &Config, i32) -> Vec<WindowGeom>,
    G: Fn(GeometryRequest, WindowGeom, Rectangle, Rectangle, &Config) -> Option<WindowGeom>,
 {
    if pre.status is PointerAction || pre.session_locked {
        post == pre && r == Seq::<Request>::empty() && effect is Nothing
    } else if pre.overview_state is Some {
        overview_press_ok(post, pre, action, r, bindings, scroller) && effect is Nothing
    } else {
        match action {
            None => post == pre && r == Seq::<Request>::empty() && effect is Nothing,
            Some(a) => exists|r1: Seq<Request>|
                #[trigger] dispatch_ok(post, pre, a, effect, r1, bindings, scroller, geometry) && r
                    == r1 + seq![Request::ManageDirty],
        }
    }
}

/// The inputs on which a press cannot be carried out are excluded.
pub open spec fn press_defined(pre: WindowManager, action: Option<KeybindingAction>) -> bool {
    match action {
        Some(a) => if pre.status is PointerAction || pre.session_locked {
            true
        } else if pre.overview_state is Some {
            overview_press_defined(pre, a)
        } else {
            dispatch_defined(pre, a)
        },
        None => true,
    }
}

/// Dispatch a pressed binding. Pointer operations swallow keyboard events,
/// a locked session ignores them, and the open overview intercepts them.
pub fn binding_pressed<S, G>(
    wm: &mut WindowManager,
    bindings: &Vec<XkbBinding>,
    proxy: ObjectId,
    scroller: &S,
    geometry: &G,
    reqs: &mut Vec<Request>,
) -> (effect: Effect) where
    S: Fn(Vec<WindowGeom>, Option<usize>, Rectangle, Rectangle, &Config, i32) -> Vec<WindowGeom>,
    G: Fn(GeometryRequest, WindowGeom, Rectangle, Rectangle, &Config) -> Option<WindowGeom>,

    requires
        old(wm).inv(),
        press_defined(*old(wm), spec_binding_action(bindings@, proxy)),
        forall|v: Vec<WindowGeom>, f: Option<usize>, a: Rectangle, b: Rectangle, c: &Config, y: i32|
            #[trigger] scroller.requires((v, f, a, b, c, y)),
        forall|r: GeometryRequest, g: WindowGeom, a: Rectangle, b: Rectangle, c: &Config|
            #[trigger] geometry.requires((r, g, a, b, c)),
    ensures
        final(wm).inv(),
        final(reqs)@.len() >= old(reqs)@.len(),
        final(reqs)@.take(old(reqs)@.len() as int) == old(reqs)@,
        press_ok(
            *final(wm),
            *old(wm),
            spec_binding_action(bindings@, proxy),
            effect,
            final(reqs)@.skip(old(reqs)@.len() as int),
            bindings@,
            *scroller,
            *geometry,
        ),
{
    let ghost pre = *wm;
    let ghost start = old(reqs)@;
    proof {
        assert(reqs@.skip(start.len() as int) =~= Seq::<Request>::empty());
        assert(reqs@.take(start.len() as int) =~= start);
    }
    if let crate::types::Status::PointerAction(_) = wm.status {
        return Effect::Nothing;
    }
    if wm.session_locked {
        return Effect::Nothing;
    }
    if wm.overview_state.is_some() {
        overview_key_pressed(wm, bindings, proxy, scroller, reqs);
        return Effect::Nothing;
    }
    let action = match binding_action(bindings, proxy) {
        Some(a) => a,
        None => return Effect::Nothing,
    };
    let effect = dispatch_action(wm, bindings, action, scroller, geometry, reqs);
    let ghost r1 = reqs@.skip(start.len() as int);
    reqs.push(Request::ManageDirty);
    proof {
        assert(reqs@.skip(start.len() as int) =~= r1 + seq![Request::ManageDirty]);
        assert(reqs@.take(start.len() as int) =~= start);
    }
    effect
}

/// The configuration after a reload: `post` is `pre` with the new
/// configuration, the layout recomputed, and the bindings to be set up
/// again by the next manage sequence.
pub open spec fn reloaded_ok<S>(post: WindowManager, pre: WindowManager, config: Config, scroller: S) -> bool where
    S: Fn(Vec<WindowGeom>, Option<usize>, Rectangle, Rectangle, &Config, i32) -> Vec<WindowGeom>,
 {
    exists|upd: WindowManager|
        #[trigger] update_ok(upd, WindowManager { config: config, ..pre }, scroller) && post
            == WindowManager { needs_setup_bindings: true, status: Status::SetupBindings, ..upd }
}

/// Apply a reloaded configuration, or keep the current one when reading it
/// failed (`None`). The cursor theme is sent again when a seat exists.
pub fn reload_config<S>(
    wm: &mut WindowManager,
    new_config: Option<Config>,
    has_seat: bool,
    scroller: &S,
    reqs: &mut Vec<Request>,
) where
    S: Fn(Vec<WindowGeom>, Option<usize>, Rectangle, Rectangle, &Config, i32) -> Vec<WindowGeom>,

    requires
        old(wm).inv(),
        forall|v: Vec<WindowGeom>, f: Option<usize>, a: Rectangle, b: Rectangle, c: &Config, y: i32|
            #[trigger] scroller.requires((v, f, a, b, c, y)),
    ensures
        final(wm).inv(),
        match new_config {
            None => *final(wm) == *old(wm) && final(reqs)@ == old(reqs)@,
            Some(c) => {
                &&& reloaded_ok(*final(wm), *old(wm), c, *scroller)
                &&& final(reqs)@ == old(reqs)@ + match c.cursor {
                    Some(cur) => if has_seat {
                        seq![Request::SetXcursorTheme(cur.theme, cur.size)]
                    } else {
                        Seq::empty()
                    },
                    None => Seq::empty(),
                } + seq![Request::ManageDirty]
            },
        },
{
    let ghost pre = *wm;
    let ghost start = old(reqs)@;
    let config = match new_config {
        Some(c) => c,
        None => return,
    };
    wm.config = config;
    let ghost with_config = *wm;
    match &wm.config.cursor {
        Some(cursor) => {
            if has_seat {
                reqs.push(Request::SetXcursorTheme(cursor.theme.clone(), cursor.size));
            }
        },
        None => {},
    }
    proof {
        assert(with_config.outputs@ == pre.outputs@);
        assert(with_config.inv());
    }
    update(wm, scroller);
    let ghost upd = *wm;
    wm.needs_setup_bindings = true;
    wm.status = Status::SetupBindings;
    reqs.push(Request::ManageDirty);
    proof {
        assert(update_ok(upd, with_config, *scroller));
        lemma_inv_same_shape(upd, with_config);
        assert(reqs@ =~= start + match with_config.config.cursor {
            Some(cur) => if has_seat {
                seq![Request::SetXcursorTheme(cur.theme, cur.size)]
            } else {
                Seq::empty()
            },
            None => Seq::empty(),
        } + seq![Request::ManageDirty]);
    }
}

} // verus!

verus! {

/// The strings of no names.
fn strs0() -> (r: Vec<String>)
    ensures
        names_view(r@) == Seq::<Seq<char>>::empty(),
{
    let r: Vec<String> = Vec::new();
    proof {
        assert(names_view(r@) =~= Seq::<Seq<char>>::empty());
    }
    r
}

fn strs1(a: &str) -> (r: Vec<String>)
    ensures
        names_view(r@) == seq![a@],
{
    let mut r: Vec<String> = Vec::new();
    r.push(String::from_str(a));
    proof {
        assert(names_view(r@) =~= seq![a@]);
    }
    r
}

fn strs2(a: &str, b: &str) -> (r: Vec<String>)
    ensures
        names_view(r@) == seq![a@, b@],
{
    let mut r: Vec<String> = Vec::new();
    r.push(String::from_str(a));
    r.push(String::from_str(b));
    proof {
        assert(names_view(r@) =~= seq![a@, b@]);
    }
    r
}

fn strs4(a: &str, b: &str, c: &str, d: &str) -> (r: Vec<String>)
    ensures
        names_view(r@) == seq![a@, b@, c@, d@],
{
    let mut r: Vec<String> = Vec::new();
    r.push(String::from_str(a));
    r.push(String::from_str(b));
    r.push(String::from_str(c));
    r.push(String::from_str(d));
    proof {
        assert(names_view(r@) =~= seq![a@, b@, c@, d@]);
    }
    r
}

fn strs6(a: &str, b: &str, c: &str, d: &str, e: &str, f: &str) -> (r: Vec<String>)
    ensures
        names_view(r@) == seq![a@, b@, c@, d@, e@, f@],
{
    let mut r: Vec<String> = Vec::new();
    r.push(String::from_str(a));
    r.push(String::from_str(b));
    r.push(String::from_str(c));
    r.push(String::from_str(d));
    r.push(String::from_str(e));
    r.push(String::from_str(f));
    proof {
        assert(names_view(r@) =~= seq![a@, b@, c@, d@, e@, f@]);
    }
    r
}

/// A key binding with the key, the modifier names and the action.
pub open spec fn entry_is(k: Keybinding, key: Seq<char>, mods: Seq<Seq<char>>, action: KeybindingAction) -> bool {
    &&& k.key@ == key
    &&& names_view(k.modifiers@) == mods
    &&& k.action == action
}

/// A key binding with the key and the modifier names that spawns the
/// program with the arguments `argv`.
pub open spec fn spawn_entry_is(k: Keybinding, key: Seq<char>, mods: Seq<Seq<char>>, argv: Seq<Seq<char>>) -> bool {
    &&& k.key@ == key
    &&& names_view(k.modifiers@) == mods
    &&& k.action matches KeybindingAction::Spawn(v) && names_view(v@) == argv
}

fn kb(key: &str, modifiers: Vec<String>, action: KeybindingAction) -> (k: Keybinding)
    ensures
        k.key@ == key@,
        k.modifiers == modifiers,
        k.action == action,
{
    Keybinding { key: String::from_str(key), modifiers, action }
}

/// The fixed part of the default key bindings, in order.
pub open spec fn default_fixed(v: Seq<Keybinding>) -> bool {
    &&& v.len() >= 44
    &&& entry_is(v[0], "q"@, seq!["mod4"@], KeybindingAction::CloseWindow)
    &&& entry_is(v[1], "f"@, seq!["mod4"@], KeybindingAction::ToggleFullscreen)
    &&& entry_is(v[2], "minus"@, seq!["mod4"@], KeybindingAction::AdjustWindowWidth(Fraction { bits: MINUS_TENTH_BITS }))
    &&& entry_is(v[3], "equal"@, seq!["mod4"@], KeybindingAction::AdjustWindowWidth(Fraction { bits: TENTH_BITS }))
    &&& entry_is(v[4], "BackSpace"@, seq!["mod4"@], KeybindingAction::SetWindowWidth(Fraction { bits: HALF_BITS }))
    &&& entry_is(v[5], "minus"@, seq!["mod4"@, "ctrl"@], KeybindingAction::AdjustFloatingWindowSize(Fraction { bits: MINUS_TENTH_BITS }))
    &&& entry_is(v[6], "equal"@, seq!["mod4"@, "ctrl"@], KeybindingAction::AdjustFloatingWindowSize(Fraction { bits: TENTH_BITS }))
    &&& entry_is(v[7], "BackSpace"@, seq!["mod4"@, "ctrl"@], KeybindingAction::SetFloatingWindowHeight(Fraction { bits: HALF_BITS }))
    &&& entry_is(v[8], "Left"@, seq!["mod4"@], KeybindingAction::FocusWindowOrOutputLeft)
    &&& entry_is(v[9], "Right"@, seq!["mod4"@], KeybindingAction::FocusWindowOrOutputRight)
    &&& entry_is(v[10], "Left"@, seq!["mod4"@, "shift"@], KeybindingAction::MoveWindowLeft)
    &&& entry_is(v[11], "Right"@, seq!["mod4"@, "shift"@], KeybindingAction::MoveWindowRight)
    &&& entry_is(v[12], "Left"@, seq!["mod4"@, "ctrl"@], KeybindingAction::MoveFloatingWindowLeft)
    &&& entry_is(v[13], "Right"@, seq!["mod4"@, "ctrl"@], KeybindingAction::MoveFloatingWindowRight)
    &&& entry_is(v[14], "Up"@, seq!["mod4"@, "ctrl"@], KeybindingAction::MoveFloatingWindowUp)
    &&& entry_is(v[15], "Down"@, seq!["mod4"@, "ctrl"@], KeybindingAction::MoveFloatingWindowDown)
    &&& entry_is(v[16], "v"@, seq!["mod4"@], KeybindingAction::ToggleWorkspaceFloating)
    &&& entry_is(v[17], "Up"@, seq!["mod4"@], KeybindingAction::FocusWorkspaceAbove)
    &&& entry_is(v[18], "Down"@, seq!["mod4"@], KeybindingAction::FocusWorkspaceBelow)
    &&& entry_is(v[19], "grave"@, seq!["mod4"@], KeybindingAction::FocusWorkspacePrevious)
    &&& entry_is(v[20], "Up"@, seq!["mod4"@, "shift"@], KeybindingAction::MoveWindowToWorkspaceAbove)
    &&& entry_is(v[21], "Down"@, seq!["mod4"@, "shift"@], KeybindingAction::MoveWindowToWorkspaceBelow)
    &&& entry_is(v[22], "h"@, seq!["mod4"@], KeybindingAction::FocusOutputLeft)
    &&& entry_is(v[23], "l"@, seq!["mod4"@], KeybindingAction::FocusOutputRight)
    &&& entry_is(v[24], "k"@, seq!["mod4"@], KeybindingAction::FocusOutputAbove)
    &&& entry_is(v[25], "j"@, seq!["mod4"@], KeybindingAction::FocusOutputBelow)
    &&& entry_is(v[26], "h"@, seq!["mod4"@, "shift"@], KeybindingAction::MoveWindowToOutputLeft)
    &&& entry_is(v[27], "l"@, seq!["mod4"@, "shift"@], KeybindingAction::MoveWindowToOutputRight)
    &&& entry_is(v[28], "k"@, seq!["mod4"@, "shift"@], KeybindingAction::MoveWindowToOutputAbove)
    &&& entry_is(v[29], "j"@, seq!["mod4"@, "shift"@], KeybindingAction::MoveWindowToOutputBelow)
    &&& entry_is(v[30], "Escape"@, seq!["mod4"@], KeybindingAction::Exit)
    &&& entry_is(v[31], "Escape"@, Seq::<Seq<char>>::empty(), KeybindingAction::OverviewCancel)
    &&& entry_is(v[32], "Return"@, Seq::<Seq<char>>::empty(), KeybindingAction::OverviewConfirm)
    &&& entry_is(v[33], "h"@, Seq::<Seq<char>>::empty(), KeybindingAction::OverviewNavLeft)
    &&& entry_is(v[34], "j"@, Seq::<Seq<char>>::empty(), KeybindingAction::OverviewNavDown)
    &&& entry_is(v[35], "k"@, Seq::<Seq<char>>::empty(), KeybindingAction::OverviewNavUp)
    &&& entry_is(v[36], "l"@, Seq::<Seq<char>>::empty(), KeybindingAction::OverviewNavRight)
    &&& entry_is(v[37], "r"@, seq!["mod4"@], KeybindingAction::ReloadConfig)
    &&& spawn_entry_is(v[38], "t"@, seq!["mod4"@], seq!["alacritty"@])
    &&& entry_is(v[39], "Space"@, seq!["mod4"@], KeybindingAction::EnterOverview)
    &&& spawn_entry_is(v[40], "XF86AudioRaiseVolume"@, Seq::<Seq<char>>::empty(), seq!["wpctl"@, "set-volume"@, "@DEFAULT_AUDIO_SINK@"@, "0.05+"@, "--limit"@, "1.0"@])
    &&& spawn_entry_is(v[41], "XF86AudioLowerVolume"@, Seq::<Seq<char>>::empty(), seq!["wpctl"@, "set-volume"@, "@DEFAULT_AUDIO_SINK@"@, "0.05-"@])
    &&& spawn_entry_is(v[42], "XF86AudioMute"@, Seq::<Seq<char>>::empty(), seq!["wpctl"@, "set-mute"@, "@DEFAULT_AUDIO_SINK@"@, "toggle"@])
    &&& spawn_entry_is(v[43], "XF86AudioMicMute"@, Seq::<Seq<char>>::empty(), seq!["wpctl"@, "set-mute"@, "@DEFAULT_AUDIO_SOURCE@"@, "toggle"@])
}

/// The key of workspace `n` (1 to 10): its digit, 0 for the tenth.
pub open spec fn digit_key(n: int) -> Seq<char> {
    seq![((48 + n % 10) as u8) as char]
}

/// The default key bindings: the fixed table, then Super with the digit of
/// each workspace to focus it and Super+Shift with it to move the focused
/// window there.
pub open spec fn default_table(v: Seq<Keybinding>) -> bool {
    &&& v.len() == 64
    &&& default_fixed(v)
    &&& forall|n: int|
        1 <= n <= 10 ==> {
            &&& entry_is(
                #[trigger] v[44 + 2 * (n - 1)],
                digit_key(n),
                seq!["mod4"@],
                KeybindingAction::FocusWorkspaceNumber(n as usize),
            )
            &&& entry_is(
                v[45 + 2 * (n - 1)],
                digit_key(n),
                seq!["mod4"@, "shift"@],
                KeybindingAction::MoveWindowToWorkspaceNumber(n as usize),
            )
        }
}

fn fixed_bindings() -> (v: Vec<Keybinding>)
    ensures
        v@.len() == 44,
        default_fixed(v@),
{
    let v = vec![
        kb("q", strs1("mod4"), KeybindingAction::CloseWindow),
        kb("f", strs1("mod4"), KeybindingAction::ToggleFullscreen),
        kb("minus", strs1("mod4"), KeybindingAction::AdjustWindowWidth(Fraction { bits: MINUS_TENTH_BITS })),
        kb("equal", strs1("mod4"), KeybindingAction::AdjustWindowWidth(Fraction { bits: TENTH_BITS })),
        kb("BackSpace", strs1("mod4"), KeybindingAction::SetWindowWidth(Fraction { bits: HALF_BITS })),
        kb("minus", strs2("mod4", "ctrl"), KeybindingAction::AdjustFloatingWindowSize(Fraction { bits: MINUS_TENTH_BITS })),
        kb("equal", strs2("mod4", "ctrl"), KeybindingAction::AdjustFloatingWindowSize(Fraction { bits: TENTH_BITS })),
        kb("BackSpace", strs2("mod4", "ctrl"), KeybindingAction::SetFloatingWindowHeight(Fraction { bits: HALF_BITS })),
        kb("Left", strs1("mod4"), KeybindingAction::FocusWindowOrOutputLeft),
        kb("Right", strs1("mod4"), KeybindingAction::FocusWindowOrOutputRight),
        kb("Left", strs2("mod4", "shift"), KeybindingAction::MoveWindowLeft),
        kb("Right", strs2("mod4", "shift"), KeybindingAction::MoveWindowRight),
        kb("Left", strs2("mod4", "ctrl"), KeybindingAction::MoveFloatingWindowLeft),
        kb("Right", strs2("mod4", "ctrl"), KeybindingAction::MoveFloatingWindowRight),
        kb("Up", strs2("mod4", "ctrl"), KeybindingAction::MoveFloatingWindowUp),
        kb("Down", strs2("mod4", "ctrl"), KeybindingAction::MoveFloatingWindowDown),
        kb("v", strs1("mod4"), KeybindingAction::ToggleWorkspaceFloating),
        kb("Up", strs1("mod4"), KeybindingAction::FocusWorkspaceAbove),
        kb("Down", strs1("mod4"), KeybindingAction::FocusWorkspaceBelow),
        kb("grave", strs1("mod4"), KeybindingAction::FocusWorkspacePrevious),
        kb("Up", strs2("mod4", "shift"), KeybindingAction::MoveWindowToWorkspaceAbove),
        kb("Down", strs2("mod4", "shift"), KeybindingAction::MoveWindowToWorkspaceBelow),
        kb("h", strs1("mod4"), KeybindingAction::FocusOutputLeft),
        kb("l", strs1("mod4"), KeybindingAction::FocusOutputRight),
        kb("k", strs1("mod4"), KeybindingAction::FocusOutputAbove),
        kb("j", strs1("mod4"), KeybindingAction::FocusOutputBelow),
        kb("h", strs2("mod4", "shift"), KeybindingAction::MoveWindowToOutputLeft),
        kb("l", strs2("mod4", "shift"), KeybindingAction::MoveWindowToOutputRight),
        kb("k", strs2("mod4", "shift"), KeybindingAction::MoveWindowToOutputAbove),
        kb("j", strs2("mod4", "shift"), KeybindingAction::MoveWindowToOutputBelow),
        kb("Escape", strs1("mod4"), KeybindingAction::Exit),
        kb("Escape", strs0(), KeybindingAction::OverviewCancel),
        kb("Return", strs0(), KeybindingAction::OverviewConfirm),
        kb("h", strs0(), KeybindingAction::OverviewNavLeft),
        kb("j", strs0(), KeybindingAction::OverviewNavDown),
        kb("k", strs0(), KeybindingAction::OverviewNavUp),
        kb("l", strs0(), KeybindingAction::OverviewNavRight),
        kb("r", strs1("mod4"), KeybindingAction::ReloadConfig),
        kb("t", strs1("mod4"), KeybindingAction::Spawn(strs1("alacritty"))),
        kb("Space", strs1("mod4"), KeybindingAction::EnterOverview),
        kb("XF86AudioRaiseVolume", strs0(), KeybindingAction::Spawn(strs6("wpctl", "set-volume", "@DEFAULT_AUDIO_SINK@", "0.05+", "--limit", "1.0"))),
        kb("XF86AudioLowerVolume", strs0(), KeybindingAction::Spawn(strs4("wpctl", "set-volume", "@DEFAULT_AUDIO_SINK@", "0.05-"))),
        kb("XF86AudioMute", strs0(), KeybindingAction::Spawn(strs4("wpctl", "set-mute", "@DEFAULT_AUDIO_SINK@", "toggle"))),
        kb("XF86AudioMicMute", strs0(), KeybindingAction::Spawn(strs4("wpctl", "set-mute", "@DEFAULT_AUDIO_SOURCE@", "toggle"))),
    ];
    v
}

fn digit_string(n: usize) -> (s: String)
    requires
        1 <= n <= 10,
    ensures
        s@ == digit_key(n as int),
{
    let s = match n {
        1 => String::from_str("1"),
        2 => String::from_str("2"),
        3 => String::from_str("3"),
        4 => String::from_str("4"),
        5 => String::from_str("5"),
        6 => String::from_str("6"),
        7 => String::from_str("7"),
        8 => String::from_str("8"),
        9 => String::from_str("9"),
        _ => String::from_str("0"),
    };
    proof {
        reveal_strlit("1");
        reveal_strlit("2");
        reveal_strlit("3");
        reveal_strlit("4");
        reveal_strlit("5");
        reveal_strlit("6");
        reveal_strlit("7");
        reveal_strlit("8");
        reveal_strlit("9");
        reveal_strlit("0");
        assert(s@ =~= digit_key(n as int));
    }
    s
}

/// The default key bindings.
pub fn default_keybindings() -> (v: Vec<Keybinding>)
    ensures
        default_table(v@),
{
    let mut v = fixed_bindings();
    let ghost fixed = v@;
    let mut n: usize = 1;
    while n <= 10
        invariant
            1 <= n <= 11,
            v@.len() == 44 + 2 * (n - 1),
            v@.take(44) == fixed,
            default_fixed(fixed),
            forall|m: int|
                1 <= m < n ==> {
                    &&& entry_is(
                        #[trigger] v@[44 + 2 * (m - 1)],
                        digit_key(m),
                        seq!["mod4"@],
                        KeybindingAction::FocusWorkspaceNumber(m as usize),
                    )
                    &&& entry_is(
                        v@[45 + 2 * (m - 1)],
                        digit_key(m),
                        seq!["mod4"@, "shift"@],
                        KeybindingAction::MoveWindowToWorkspaceNumber(m as usize),
                    )
                },
        decreases 11 - n,
    {
        v.push(Keybinding { key: digit_string(n), modifiers: strs1("mod4"), action: KeybindingAction::FocusWorkspaceNumber(n) });
        v.push(Keybinding { key: digit_string(n), modifiers: strs2("mod4", "shift"), action: KeybindingAction::MoveWindowToWorkspaceNumber(n) });
        proof {
            assert(v@.take(44) =~= fixed);
        }
        n = n + 1;
    }
    proof {
        assert forall|i: int| 0 <= i < 44 implies v@[i] == fixed[i] by {
            assert(v@.take(44)[i] == v@[i]);
        }
    }
    v
}

} // verus!

verus! {

fn landing_is_ok(wm: &WindowManager, o: usize, t: usize) -> (r: bool)
    requires
        wm.has_ws(o as int, t as int),
    ensures
        r == landing_ok(*wm, o as int, t as int),
{
    match wm.outputs[o].workspace_list[t].focused_window_idx {
        Some(f) => f < wm.outputs[o].workspace_list[t].window_list.len(),
        None => true,
    }
}

/// Whether the step of `action` on the focused workspace (`o`, `w`) can be
/// taken.
fn step_is_defined(wm: &WindowManager, action: &KeybindingAction, o: usize, w: usize) -> (r: bool)
    requires
        wm.inv(),
        wm.spec_current_ws_idx() == Some((o, w)),
    ensures
        r == step_defined(*wm, *action, o as int, w as int),
{
    proof {
        assert(crate::wm::output_wf(wm.outputs@[o as int]));
    }
    let ws = &wm.outputs[o].workspace_list[w];
    let len = ws.window_list.len();
    let focus_ok = match ws.focused_window_idx {
        Some(k) => k < len,
        None => false,
    };
    match action {
        KeybindingAction::MoveWindowToWorkspaceAbove
        | KeybindingAction::MoveWindowToWorkspaceBelow
        | KeybindingAction::MoveWindowToWorkspaceNumber(_) => match ws_target_exec(action, w) {
            Some(t) => !focus_ok || landing_is_ok(wm, o, t),
            None => true,
        },
        KeybindingAction::MoveWindowToOutputLeft
        | KeybindingAction::MoveWindowToOutputRight
        | KeybindingAction::MoveWindowToOutputAbove
        | KeybindingAction::MoveWindowToOutputBelow => match adjacent_output(wm, o, action) {
            Some(t) => {
                proof {
                    assert(crate::wm::output_wf(wm.outputs@[t as int]));
                }
                !focus_ok || landing_is_ok(wm, t, wm.outputs[t].focused_workspace_idx)
            },
            None => true,
        },
        _ => true,
    }
}

/// Whether pressing `action` on `wm` can be carried out (see
/// `dispatch_defined`).
pub fn dispatch_is_defined(wm: &WindowManager, action: &KeybindingAction) -> (r: bool)
    requires
        wm.inv(),
    ensures
        r == dispatch_defined(*wm, *action),
{
    match action {
        KeybindingAction::EnterOverview => return enter_is_defined(wm),
        KeybindingAction::Spawn(_) | KeybindingAction::Exit | KeybindingAction::ReloadConfig => {
            return true;
        },
        _ => {},
    }
    let (o, w) = match wm.current_ws_idx() {
        Some(p) => p,
        None => return true,
    };
    proof {
        assert(crate::wm::output_wf(wm.outputs@[o as int]));
    }
    let ws = &wm.outputs[o].workspace_list[w];
    let len = ws.window_list.len();
    let focus = ws.focused_window_idx;
    let target: Option<KeybindingAction> = match action {
        KeybindingAction::FocusWindowOrOutputLeft
        | KeybindingAction::FocusWindowOrOutputRight => return true,
        KeybindingAction::MoveWindowLeftOrToOutputLeft => match focus {
            Some(k) => if k >= len {
                return true;
            } else if k == 0 {
                Some(KeybindingAction::MoveWindowToOutputLeft)
            } else {
                return true;
            },
            None => return true,
        },
        KeybindingAction::MoveWindowRightOrToOutputRight => match focus {
            Some(k) => if k >= len {
                return true;
            } else if k == len - 1 {
                Some(KeybindingAction::MoveWindowToOutputRight)
            } else {
                return true;
            },
            None => return true,
        },
        KeybindingAction::FocusWorkspaceOrOutputAbove
        | KeybindingAction::FocusWorkspaceOrOutputBelow => return true,
        _ => None,
    };
    match target {
        Some(t) => step_is_defined(wm, &t, o, w),
        None => step_is_defined(wm, action, o, w),
    }
}

/// Whether a key press during the overview can be carried out (see
/// `overview_press_defined`).
fn overview_press_is_defined(wm: &WindowManager, action: &KeybindingAction) -> (r: bool)
    requires
        wm.inv(),
    ensures
        r == overview_press_defined(*wm, *action),
{
    let (hl, n) = match &wm.overview_state {
        Some(ov) => (ov.highlighted, ov.entries.len()),
        None => return true,
    };
    let home = ov_home_is_valid(wm);
    if no_entry_alive(wm) && !home {
        return false;
    }
    match action {
        KeybindingAction::EnterOverview | KeybindingAction::Exit | KeybindingAction::OverviewCancel => home,
        KeybindingAction::OverviewConfirm => {
            if hl >= n && all_entries_alive(wm) {
                home
            } else {
                true
            }
        },
        _ => true,
    }
}

/// Whether pressing the binding registered under `proxy` can be carried
/// out (see `press_defined`).
pub fn press_is_defined(wm: &WindowManager, bindings: &Vec<XkbBinding>, proxy: ObjectId) -> (r: bool)
    requires
        wm.inv(),
    ensures
        r == press_defined(*wm, spec_binding_action(bindings@, proxy)),
{
    let action = match binding_action(bindings, proxy) {
        Some(a) => a,
        None => return true,
    };
    if let Status::PointerAction(_) = wm.status {
        return true;
    }
    if wm.session_locked {
        return true;
    }
    if wm.overview_state.is_some() {
        overview_press_is_defined(wm, action)
    } else {
        dispatch_is_defined(wm, action)
    }
}

} // verus!

verus! {

/// Navigation never leaves the grid: from any highlight, a navigation key
/// lands on an existing entry.
pub proof fn lemma_nav_target_in_range(action: KeybindingAction, cur: int, cols: int, total: int)
    requires
        cur >= 0,
        cols >= 1,
        total >= 1,
    ensures
        nav_target(action, cur, cols, total) matches Some(n) ==> 0 <= n < total,
{
    assert(cur % cols > 0 ==> cur >= 1) by (nonlinear_arith)
        requires
            cols >= 1,
            cur >= 0,
    ;
    assert(cur / cols > 0 ==> cur >= cols) by (nonlinear_arith)
        requires
            cols >= 1,
            cur >= 0,
    ;
}

/// The overview's bare keys are enabled on entering and disabled on
/// leaving as the same set: the two request lists name the same binding
/// objects in the same order.
pub proof fn lemma_overview_keybinds_pair(bindings: Seq<XkbBinding>)
    ensures
        overview_keybind_reqs(bindings, true).len() == overview_keybind_reqs(bindings, false).len(),
        forall|i: int|
            0 <= i < overview_keybind_reqs(bindings, true).len() ==> exists|p: ObjectId|
                #[trigger] overview_keybind_reqs(bindings, true)[i] == Request::EnableBinding(p)
                    && overview_keybind_reqs(bindings, false)[i] == Request::DisableBinding(p),
    decreases bindings.len(),
{
    if bindings.len() > 0 {
        lemma_overview_keybinds_pair(bindings.drop_last());
        let a = overview_keybind_reqs(bindings.drop_last(), true);
        let b = overview_keybind_reqs(bindings.drop_last(), false);
        let last = bindings.last();
        assert forall|i: int|
            0 <= i < overview_keybind_reqs(bindings, true).len() implies exists|p: ObjectId|
                #[trigger] overview_keybind_reqs(bindings, true)[i] == Request::EnableBinding(p)
                    && overview_keybind_reqs(bindings, false)[i] == Request::DisableBinding(p) by {
            if i < a.len() {
                let p = choose|p: ObjectId|
                    #[trigger] a[i] == Request::EnableBinding(p) && b[i] == Request::DisableBinding(p);
                assert(overview_keybind_reqs(bindings, true)[i] == a[i]);
                assert(overview_keybind_reqs(bindings, false)[i] == b[i]);
            } else {
                assert(overview_keybind_reqs(bindings, true)[i] == Request::EnableBinding(last.proxy));
                assert(overview_keybind_reqs(bindings, false)[i] == Request::DisableBinding(last.proxy));
            }
        }
    }
}

/// Where focus goes on one press of previous-workspace: to the remembered
/// workspace, which the current one replaces as remembered; no window moves
/// and no workspace's focused window changes.
proof fn lemma_previous_step<S, G>(
    pre: WindowManager,
    post: WindowManager,
    effect: Effect,
    r: Seq<Request>,
    bindings: Seq<XkbBinding>,
    scroller: S,
    geometry: G,
    p: OverviewHome,
) where
    S: Fn(Vec<WindowGeom>, Option<usize>, Rectangle, Rectangle, &Config, i32) -> Vec<WindowGeom>,
    G: Fn(GeometryRequest, WindowGeom, Rectangle, Rectangle, &Config) -> Option<WindowGeom>,

    requires
        pre.spec_current_ws_idx() is Some,
        pre.previous_workspace == Some(p),
        p.output_idx < pre.outputs@.len(),
        dispatch_ok(post, pre, KeybindingAction::FocusWorkspacePrevious, effect, r, bindings, scroller, geometry),
    ensures
        post.focused_output_idx == Some(p.output_idx),
        post.previous_workspace == Some(
            home(
                pre.spec_current_ws_idx().unwrap().0 as int,
                pre.spec_current_ws_idx().unwrap().1 as int,
            ),
        ),
        post.outputs@.len() == pre.outputs@.len(),
        forall|q: int|
            0 <= q < pre.outputs@.len() ==> (#[trigger] post.outputs@[q]).focused_workspace_idx == if q
                == p.output_idx {
                p.workspace_idx
            } else {
                pre.outputs@[q].focused_workspace_idx
            },
        forall|q: int| 0 <= q < pre.outputs@.len() ==> (#[trigger] post.outputs@[q]).workspace_list@.len() == pre.outputs@[q].workspace_list@.len(),
        forall|q: int, v: int|
            #![trigger post.ws(q, v)]
            pre.has_ws(q, v) ==> post.ws(q, v).focused_window_idx == pre.ws(q, v).focused_window_idx
                && post.ws(q, v).window_list@.len() == pre.ws(q, v).window_list@.len(),
        forall|q: int, v: int, k: int|
            #![trigger post.win(q, v, k)]
            pre.has_win(q, v, k) ==> post.win(q, v, k).id == pre.win(q, v, k).id,
{
    let (o, w) = pre.spec_current_ws_idx().unwrap();
    let a = KeybindingAction::FocusWorkspacePrevious;
    assert(redirect(pre, a, o as int, w as int) == Some(a));
    let (mid, cont) = choose|mid: WindowManager, cont: bool|
        #[trigger] step_ok(mid, pre, a, o as int, w as int, cont, geometry) && layout_tail(post, mid, cont, scroller);
    assert(ws_step_ok(mid, pre, a, o as int, w as int, cont));
    let upd = choose|upd: WindowManager|
        #[trigger] update_ok(upd, mid, scroller) && post == WindowManager { status: Status::Layout, ..upd };
    assert forall|q: int| 0 <= q < pre.outputs@.len() implies (#[trigger] post.outputs@[q]).focused_workspace_idx
        == (if q == p.output_idx { p.workspace_idx } else { pre.outputs@[q].focused_workspace_idx })
        && post.outputs@[q].workspace_list@.len() == pre.outputs@[q].workspace_list@.len() by {
        if mid.overview_state is None {
            assert(output_same_but_workspaces(upd.outputs@[q], mid.outputs@[q]));
        }
    }
    assert forall|q: int, v: int|
        #![trigger post.ws(q, v)]
        pre.has_ws(q, v) implies post.ws(q, v).focused_window_idx == pre.ws(q, v).focused_window_idx
            && post.ws(q, v).window_list@.len() == pre.ws(q, v).window_list@.len() by {
        assert(mid.ws(q, v) == pre.ws(q, v));
        assert(mid.has_ws(q, v));
        if mid.overview_state is None {
            assert(output_same_but_workspaces(upd.outputs@[q], mid.outputs@[q]));
            if has_size(mid.outputs@[q]) {
                assert(ws_laid_out(upd.ws(q, v), mid.ws(q, v), mid.outputs@[q], v, mid.config, scroller));
            }
        }
    }
    assert forall|q: int, v: int, k: int|
        #![trigger post.win(q, v, k)]
        pre.has_win(q, v, k) implies post.win(q, v, k).id == pre.win(q, v, k).id by {
        assert(mid.ws(q, v) == pre.ws(q, v));
        assert(mid.has_ws(q, v));
        if mid.overview_state is None {
            assert(output_same_but_workspaces(upd.outputs@[q], mid.outputs@[q]));
            if has_size(mid.outputs@[q]) {
                assert(ws_laid_out(upd.ws(q, v), mid.ws(q, v), mid.outputs@[q], v, mid.config, scroller));
            }
        }
    }
}

/// Pressing previous-workspace twice returns home: when the remembered
/// workspace is on the focused output, the same output and workspace are
/// focused and remembered as before, every output focuses the workspace it
/// focused before, and every window is where it was with its workspace's
/// focus unchanged.
pub proof fn lemma_previous_twice_returns<S, G>(
    s0: WindowManager,
    s1: WindowManager,
    s2: WindowManager,
    e1: Effect,
    e2: Effect,
    r1: Seq<Request>,
    r2: Seq<Request>,
    bindings: Seq<XkbBinding>,
    scroller: S,
    geometry: G,
) where
    S: Fn(Vec<WindowGeom>, Option<usize>, Rectangle, Rectangle, &Config, i32) -> Vec<WindowGeom>,
    G: Fn(GeometryRequest, WindowGeom, Rectangle, Rectangle, &Config) -> Option<WindowGeom>,

    requires
        s0.spec_current_ws_idx() is Some,
        s0.previous_workspace matches Some(p) && p.output_idx == s0.spec_current_ws_idx().unwrap().0,
        dispatch_ok(s1, s0, KeybindingAction::FocusWorkspacePrevious, e1, r1, bindings, scroller, geometry),
        dispatch_ok(s2, s1, KeybindingAction::FocusWorkspacePrevious, e2, r2, bindings, scroller, geometry),
    ensures
        s2.spec_current_ws_idx() == s0.spec_current_ws_idx(),
        s2.previous_workspace == s0.previous_workspace,
        s2.outputs@.len() == s0.outputs@.len(),
        forall|q: int|
            0 <= q < s0.outputs@.len() ==> (#[trigger] s2.outputs@[q]).focused_workspace_idx
                == s0.outputs@[q].focused_workspace_idx,
        forall|q: int, v: int|
            #![trigger s2.ws(q, v)]
            s0.has_ws(q, v) ==> s2.ws(q, v).focused_window_idx == s0.ws(q, v).focused_window_idx
                && s2.ws(q, v).window_list@.len() == s0.ws(q, v).window_list@.len(),
        forall|q: int, v: int, k: int|
            #![trigger s2.win(q, v, k)]
            s0.has_win(q, v, k) ==> s2.win(q, v, k).id == s0.win(q, v, k).id,
{
    let p = s0.previous_workspace.unwrap();
    let (o, w) = s0.spec_current_ws_idx().unwrap();
    lemma_previous_step(s0, s1, e1, r1, bindings, scroller, geometry, p);
    let h = home(o as int, w as int);
    assert(h.output_idx < s1.outputs@.len());
    assert(s1.outputs@[p.output_idx as int].focused_workspace_idx == p.workspace_idx);
    assert(s1.spec_current_ws_idx() == Some((p.output_idx, p.workspace_idx)));
    lemma_previous_step(s1, s2, e2, r2, bindings, scroller, geometry, h);
    assert(home(p.output_idx as int, p.workspace_idx as int) == p);
    assert forall|q: int|
        0 <= q < s0.outputs@.len() implies (#[trigger] s2.outputs@[q]).focused_workspace_idx
            == s0.outputs@[q].focused_workspace_idx by {
        assert(s1.outputs@[q].focused_workspace_idx == s1.outputs@[q].focused_workspace_idx);
    }
    assert forall|q: int, v: int|
        #![trigger s2.ws(q, v)]
        s0.has_ws(q, v) implies s2.ws(q, v).focused_window_idx == s0.ws(q, v).focused_window_idx
            && s2.ws(q, v).window_list@.len() == s0.ws(q, v).window_list@.len() by {
        assert(s1.outputs@[q].workspace_list@.len() == s0.outputs@[q].workspace_list@.len());
        assert(s1.has_ws(q, v));
        assert(s1.ws(q, v).focused_window_idx == s0.ws(q, v).focused_window_idx);
    }
    assert forall|q: int, v: int, k: int|
        #![trigger s2.win(q, v, k)]
        s0.has_win(q, v, k) implies s2.win(q, v, k).id == s0.win(q, v, k).id by {
        assert(s1.outputs@[q].workspace_list@.len() == s0.outputs@[q].workspace_list@.len());
        assert(s1.has_ws(q, v));
        assert(s1.ws(q, v).window_list@.len() == s0.ws(q, v).window_list@.len());
        assert(s1.has_win(q, v, k));
        assert(s1.win(q, v, k).id == s0.win(q, v, k).id);
    }
}

/// Grid arithmetic behind overview navigation: the row below `cur` has an
/// entry exactly when `cur + cols` stays below the last row's end, and the
/// last entry of a partial row below sits in that row.
proof fn lemma_grid_rows(cur: int, cols: int, total: int)
    requires
        0 <= cur < total,
        cols >= 1,
    ensures
        (cur / cols + 1 < div_ceil(total, cols)) <==> (cur / cols + 1) * cols < total,
        cur + cols < total ==> (cur + cols) / cols == cur / cols + 1,
        (cur / cols + 1) * cols < total && cur + cols >= total ==> (total - 1) / cols == cur / cols + 1,
        cur >= cols ==> (cur - cols) / cols == cur / cols - 1 && (cur - cols) % cols == cur % cols,
        cur / cols > 0 <==> cur >= cols,
        cur % cols > 0 ==> (cur - 1) / cols == cur / cols,
        cur % cols + 1 < cols ==> (cur + 1) / cols == cur / cols,
        cur == (cur / cols) * cols + cur % cols,
        0 <= cur % cols < cols,
{
    let r = cur / cols;
    let c = cur % cols;
    assert(cur == r * cols + c && 0 <= c < cols) by (nonlinear_arith)
        requires
            cols >= 1,
            r == cur / cols,
            c == cur % cols,
    ;
    assert(r >= 0) by (nonlinear_arith)
        requires
            cols >= 1,
            cur >= 0,
            r == cur / cols,
    ;
    let rows = div_ceil(total, cols);
    assert((r + 1 < rows) <==> (r + 1) * cols < total) by (nonlinear_arith)
        requires
            cols >= 1,
            total >= 1,
            rows == (total + cols - 1) / cols,
            r >= 0,
    ;
    assert(cur + cols < total ==> (cur + cols) / cols == r + 1) by (nonlinear_arith)
        requires
            cols >= 1,
            cur == r * cols + c,
            0 <= c < cols,
    ;
    assert((r + 1) * cols < total && cur + cols >= total ==> (total - 1) / cols == r + 1) by (nonlinear_arith)
        requires
            cols >= 1,
            cur == r * cols + c,
            0 <= c < cols,
    ;
    assert(cur >= cols ==> (cur - cols) / cols == r - 1 && (cur - cols) % cols == c) by (nonlinear_arith)
        requires
            cols >= 1,
            cur == r * cols + c,
            0 <= c < cols,
    ;
    assert(r > 0 <==> cur >= cols) by (nonlinear_arith)
        requires
            cols >= 1,
            cur == r * cols + c,
            0 <= c < cols,
            r >= 0,
    ;
    assert(c > 0 ==> (cur - 1) / cols == r) by (nonlinear_arith)
        requires
            cols >= 1,
            cur == r * cols + c,
            0 <= c < cols,
    ;
    assert(c + 1 < cols ==> (cur + 1) / cols == r) by (nonlinear_arith)
        requires
            cols >= 1,
            cur == r * cols + c,
            0 <= c < cols,
    ;
}

/// Overview navigation moves the highlight one step on the grid of `cols`
/// columns holding `total` entries, from any highlight `cur` on it:
/// down goes to the entry below, or to the last entry when the row below
/// is partial, and stays put on the last row; up goes to the entry above
/// and stays put on the first row; left and right go to the neighbour in
/// the same row and stay put at the row's ends. So down and right never
/// lower the highlight and up and left never raise it, and going up and
/// then down comes back.
pub proof fn lemma_nav_moves_on_grid(cur: int, cols: int, total: int)
    requires
        0 <= cur < total,
        cols >= 1,
    ensures
        ({
            let down = nav_target(KeybindingAction::OverviewNavDown, cur, cols, total).unwrap();
            &&& nav_target(KeybindingAction::OverviewNavDown, cur, cols, total) is Some
            &&& down >= cur
            &&& (cur / cols + 1) * cols < total ==> {
                &&& down == if cur + cols < total { cur + cols } else { total - 1 }
                &&& down / cols == cur / cols + 1
            }
            &&& (cur / cols + 1) * cols >= total ==> down == cur
        }),
        ({
            let up = nav_target(KeybindingAction::OverviewNavUp, cur, cols, total).unwrap();
            &&& nav_target(KeybindingAction::OverviewNavUp, cur, cols, total) is Some
            &&& up <= cur
            &&& cur >= cols ==> up == cur - cols && up % cols == cur % cols
            &&& cur < cols ==> up == cur
            &&& cur >= cols ==> nav_target(KeybindingAction::OverviewNavDown, up, cols, total) == Some(cur)
        }),
        ({
            let right = nav_target(KeybindingAction::OverviewNavRight, cur, cols, total).unwrap();
            &&& nav_target(KeybindingAction::OverviewNavRight, cur, cols, total) is Some
            &&& right >= cur
            &&& right / cols == cur / cols || right == total - 1
            &&& cur % cols + 1 < cols && cur + 1 < total ==> right == cur + 1
            &&& cur % cols + 1 == cols ==> right == cur
        }),
        ({
            let left = nav_target(KeybindingAction::OverviewNavLeft, cur, cols, total).unwrap();
            &&& nav_target(KeybindingAction::OverviewNavLeft, cur, cols, total) is Some
            &&& left <= cur
            &&& cur % cols > 0 ==> left == cur - 1 && left / cols == cur / cols
            &&& cur % cols == 0 ==> left == cur
        }),
{
    lemma_grid_rows(cur, cols, total);
    if cur >= cols {
        lemma_grid_rows(cur - cols, cols, total);
        assert((cur - cols) / cols + 1 == cur / cols);
        assert(((cur - cols) / cols + 1) * cols <= cur) by (nonlinear_arith)
            requires
                cols >= 1,
                cur - cols == ((cur - cols) / cols) * cols + (cur - cols) % cols,
                (cur - cols) % cols >= 0,
        ;
    }
    if cur % cols + 1 < cols && cur + 1 >= total {
        assert(cur == total - 1);
    }
}

/// Workspace keys go to the neighbouring workspace: above is one index
/// lower and below one index higher, within the ten workspaces, and going
/// above and then below comes back; a number key `n` goes to workspace
/// index `n - 1`. The move keys target the same workspaces. Pressed on the
/// focused workspace (`o`, `w`), focusing makes the target the output's
/// focused workspace and remembers (`o`, `w`).
pub proof fn lemma_workspace_neighbours(w: int, n: usize)
    requires
        0 <= w < 10,
    ensures
        w > 0 ==> ws_target(KeybindingAction::FocusWorkspaceAbove, w) == Some(w - 1)
            && ws_target(KeybindingAction::MoveWindowToWorkspaceAbove, w) == Some(w - 1),
        w == 0 ==> ws_target(KeybindingAction::FocusWorkspaceAbove, w) is None,
        w < 9 ==> ws_target(KeybindingAction::FocusWorkspaceBelow, w) == Some(w + 1)
            && ws_target(KeybindingAction::MoveWindowToWorkspaceBelow, w) == Some(w + 1),
        w == 9 ==> ws_target(KeybindingAction::FocusWorkspaceBelow, w) is None,
        w > 0 ==> ws_target(
            KeybindingAction::FocusWorkspaceBelow,
            ws_target(KeybindingAction::FocusWorkspaceAbove, w).unwrap(),
        ) == Some(w),
        1 <= n <= 10 && n - 1 != w ==> ws_target(KeybindingAction::FocusWorkspaceNumber(n), w) == Some(
            n - 1,
        ) && ws_target(KeybindingAction::MoveWindowToWorkspaceNumber(n), w) == Some(n - 1),
{
}

/// Pressing focus-workspace-above on the focused workspace (`o`, `w`) with
/// `w > 0` focuses workspace `w - 1` of the same output and remembers
/// (`o`, `w`); below likewise focuses `w + 1` when `w < 9`.
pub proof fn lemma_focus_workspace_above_below(
    mid: WindowManager,
    pre: WindowManager,
    action: KeybindingAction,
    o: int,
    w: int,
    cont: bool,
)
    requires
        pre.has_ws(o, w),
        w < 10,
        action == KeybindingAction::FocusWorkspaceAbove || action == KeybindingAction::FocusWorkspaceBelow,
        ws_step_ok(mid, pre, action, o, w, cont),
    ensures
        action == KeybindingAction::FocusWorkspaceAbove && w > 0 ==> cont && mid.outputs@[o].focused_workspace_idx
            == w - 1,
        action == KeybindingAction::FocusWorkspaceBelow && w < 9 ==> cont && mid.outputs@[o].focused_workspace_idx
            == w + 1,
        cont ==> mid.previous_workspace == Some(home(o, w)) && mid.outputs@.len() == pre.outputs@.len(),
        !cont ==> mid == pre,
{
}

/// Focus and move keys inside a workspace step to the neighbour: with
/// window `k` focused, focus-right focuses `k + 1` and focus-left `k - 1`
/// (on a tiled workspace, when that window exists), leaving the windows in
/// place; move-right and move-left swap the focused window with that
/// neighbour and keep it focused. At the ends nothing changes.
pub proof fn lemma_nav_step_neighbour(
    mid: WindowManager,
    pre: WindowManager,
    action: KeybindingAction,
    o: int,
    w: int,
    cont: bool,
    k: int,
)
    requires
        nav_step_ok(mid, pre, action, o, w, cont),
        pre.ws(o, w).focused_window_idx == Some(k as usize),
        0 <= k < pre.ws(o, w).window_list@.len(),
    ensures
        ({
            let s = pre.ws(o, w).window_list@;
            let tiled = !pre.ws(o, w).is_floating;
            &&& action == KeybindingAction::FocusWindowRight ==> if tiled && k + 1 < s.len() {
                cont && mid.ws(o, w).focused_window_idx == Some((k + 1) as usize) && mid.ws(o, w).window_list@
                    == s
            } else {
                !cont && mid == pre
            }
            &&& action == KeybindingAction::FocusWindowLeft ==> if tiled && k > 0 {
                cont && mid.ws(o, w).focused_window_idx == Some((k - 1) as usize) && mid.ws(o, w).window_list@
                    == s
            } else {
                !cont && mid == pre
            }
            &&& action == KeybindingAction::MoveWindowRight ==> if k + 1 < s.len() {
                &&& cont
                &&& mid.ws(o, w).focused_window_idx == Some((k + 1) as usize)
                &&& mid.ws(o, w).window_list@[k + 1] == s[k]
                &&& mid.ws(o, w).window_list@[k] == s[k + 1]
                &&& mid.ws(o, w).window_list@.len() == s.len()
            } else {
                !cont && mid == pre
            }
            &&& action == KeybindingAction::MoveWindowLeft ==> if k > 0 {
                &&& cont
                &&& mid.ws(o, w).focused_window_idx == Some((k - 1) as usize)
                &&& mid.ws(o, w).window_list@[k - 1] == s[k]
                &&& mid.ws(o, w).window_list@[k] == s[k - 1]
                &&& mid.ws(o, w).window_list@.len() == s.len()
            } else {
                !cont && mid == pre
            }
        }),
{
    let s = pre.ws(o, w).window_list@;
    assert(s.len() == pre.ws(o, w).window_list.len());
    assert((k as usize) as int == k);
    if action == KeybindingAction::MoveWindowRight && k + 1 < s.len() {
        assert(ws_swapped(mid, pre, o, w, k, k + 1));
        assert(s.update(k, s[k + 1]).update(k + 1, s[k])[k] == s[k + 1]);
    }
    if action == KeybindingAction::MoveWindowLeft && k > 0 {
        assert(ws_swapped(mid, pre, o, w, k, k - 1));
        assert(s.update(k, s[k - 1]).update(k - 1, s[k])[k] == s[k - 1]);
    }
}

/// Output adjacency follows the rectangles: an output is right of output
/// `o` when its left edge is `o`'s right edge, below when its top edge is
/// `o`'s bottom edge, and left and above are the converse relations. The
/// adjacent output chosen is the first live other output so placed, and
/// there is none only when no output is so placed.
pub proof fn lemma_adjacent_output_edges(outs: Seq<Output>, o: int, i: int, j: int)
    requires
        0 <= o < outs.len(),
        0 <= i < outs.len(),
        0 <= j < outs.len(),
        !outs[i].is_removed,
        !outs[j].is_removed,
        i != j,
    ensures
        is_adjacent(outs, i, j, KeybindingAction::FocusOutputRight) <==> outs[j].rectangle.x
            == outs[i].rectangle.x.wrapping_add(outs[i].rectangle.width),
        is_adjacent(outs, i, j, KeybindingAction::FocusOutputBelow) <==> outs[j].rectangle.y
            == outs[i].rectangle.y.wrapping_add(outs[i].rectangle.height),
        is_adjacent(outs, i, j, KeybindingAction::FocusOutputRight) <==> is_adjacent(
            outs,
            j,
            i,
            KeybindingAction::FocusOutputLeft,
        ),
        is_adjacent(outs, i, j, KeybindingAction::FocusOutputBelow) <==> is_adjacent(
            outs,
            j,
            i,
            KeybindingAction::FocusOutputAbove,
        ),
        is_adjacent(outs, i, j, KeybindingAction::MoveWindowToOutputRight) == is_adjacent(
            outs,
            i,
            j,
            KeybindingAction::FocusOutputRight,
        ),
        match spec_adjacent_output(outs, o, KeybindingAction::FocusOutputRight) {
            Some(t) => {
                &&& 0 <= t < outs.len()
                &&& t != o
                &&& !outs[t].is_removed
                &&& outs[t].rectangle.x == outs[o].rectangle.x.wrapping_add(outs[o].rectangle.width)
                &&& forall|u: int|
                    0 <= u < t && u != o && !outs[u].is_removed ==> outs[u].rectangle.x
                        != outs[o].rectangle.x.wrapping_add(outs[o].rectangle.width)
            },
            None => forall|u: int|
                0 <= u < outs.len() && u != o && !outs[u].is_removed ==> outs[u].rectangle.x
                    != outs[o].rectangle.x.wrapping_add(outs[o].rectangle.width),
        },
{
    let a = KeybindingAction::FocusOutputRight;
    if spec_adjacent_output(outs, o, a) is None {
        assert forall|u: int|
            0 <= u < outs.len() && u != o && !outs[u].is_removed implies outs[u].rectangle.x
                != outs[o].rectangle.x.wrapping_add(outs[o].rectangle.width) by {
            if outs[u].rectangle.x == outs[o].rectangle.x.wrapping_add(outs[o].rectangle.width) {
                lemma_least_adjacent(outs, o, a, u);
            }
        }
    } else {
        let t = spec_adjacent_output(outs, o, a).unwrap();
        assert forall|u: int|
            0 <= u < t && u != o && !outs[u].is_removed implies outs[u].rectangle.x
                != outs[o].rectangle.x.wrapping_add(outs[o].rectangle.width) by {
            assert(!is_adjacent(outs, o, u, a));
        }
    }
}

/// If some output is adjacent, a first one is.
proof fn lemma_least_adjacent(outs: Seq<Output>, o: int, a: KeybindingAction, u: int)
    requires
        0 <= u < outs.len(),
        is_adjacent(outs, o, u, a),
    ensures
        spec_adjacent_output(outs, o, a) is Some,
    decreases u,
{
    if exists|v: int| 0 <= v < u && is_adjacent(outs, o, v, a) {
        let v = choose|v: int| 0 <= v < u && is_adjacent(outs, o, v, a);
        lemma_least_adjacent(outs, o, a, v);
    } else {
        assert(0 <= u < outs.len() && is_adjacent(outs, o, u, a) && forall|j: int|
            0 <= j < u ==> !is_adjacent(outs, o, j, a));
    }
}

} // verus!
