use vstd::prelude::*;
use crate::types::{Config, DetachedOutput, ObjectId, Output, OverviewHome, OverviewState, PendingWindow, Status, Window, WindowGeom, Workspace, WORKSPACE_COUNT};



verus! {

broadcast use vstd::seq_lib::group_seq_properties;

/// Where the target's focus (and the moved window) lands: right after the
/// target's focused window, or at the front of an unfocused list.
pub open spec fn landing_index(target_focus: Option<usize>) -> int {
    match target_focus {
        Some(f) => f + 1,
        None => 0,
    }
}

/// The source focus after the window at `idx` left a list of `len` windows:
/// cleared when the list became empty, moved to the window before the removed
/// one, and kept as it was when the first window left.
pub open spec fn source_focus_after(len: int, focus: Option<usize>, idx: int) -> Option<usize> {
    if len == 1 {
        None
    } else if idx != 0 {
        Some((idx - 1) as usize)
    } else {
        focus
    }
}

/// Move `window_idx` from `source` to `target`, fixing up both focus indices.
pub fn move_window<T>(
    source: &mut Vec<T>,
    source_focus: &mut Option<usize>,
    target: &mut Vec<T>,
    target_focus: &mut Option<usize>,
    window_idx: usize,
)
    requires
        window_idx < old(source)@.len() ==> match *old(target_focus) {
            Some(f) => f < old(target)@.len(),
            None => true,
        },
    ensures
        window_idx >= old(source)@.len() ==> {
            &&& final(source)@ == old(source)@
            &&& *final(source_focus) == *old(source_focus)
            &&& final(target)@ == old(target)@
            &&& *final(target_focus) == *old(target_focus)
        },
        window_idx < old(source)@.len() ==> {
            &&& final(source)@ == old(source)@.remove(window_idx as int)
            &&& *final(source_focus) == source_focus_after(
                old(source)@.len() as int,
                *old(source_focus),
                window_idx as int,
            )
            &&& final(target)@ == old(target)@.insert(
                landing_index(*old(target_focus)),
                old(source)@[window_idx as int],
            )
            &&& *final(target_focus) == Some(landing_index(*old(target_focus)) as usize)
        },
{
    if window_idx >= source.len() {
        return;
    }
    let window = source.remove(window_idx);

    if source.len() == 0 {
        *source_focus = None;
    } else if window_idx != 0 {
        *source_focus = Some(window_idx - 1);
    }
    let target_len = target.len();
    let target_idx: usize = match *target_focus {
        Some(i) => {
            assert(i < target_len);
            i + 1
        },
        None => 0,
    };
    target.insert(target_idx, window);
    *target_focus = Some(target_idx);
}

/// Moving a window between two lists neither loses nor duplicates anything:
/// the two lists together hold the same elements before and after.
pub proof fn lemma_move_window_conserves_windows<T>(
    source: Seq<T>,
    target: Seq<T>,
    target_focus: Option<usize>,
    window_idx: int,
)
    requires
        0 <= window_idx < source.len(),
        match target_focus {
            Some(f) => f < target.len(),
            None => true,
        },
    ensures
        source.remove(window_idx).to_multiset().add(
            target.insert(landing_index(target_focus), source[window_idx]).to_multiset(),
        ) == source.to_multiset().add(target.to_multiset()),
        source.remove(window_idx).len() + target.insert(
            landing_index(target_focus),
            source[window_idx],
        ).len() == source.len() + target.len(),
{
    broadcast use vstd::multiset::group_multiset_axioms;

    vstd::seq_lib::to_multiset_remove(source, window_idx);
    vstd::seq_lib::to_multiset_insert(target, landing_index(target_focus), source[window_idx]);
    assert(source.to_multiset().count(source[window_idx]) > 0) by {
        vstd::seq_lib::to_multiset_contains(source, source[window_idx]);
    }
    assert(source.remove(window_idx).to_multiset().add(
        target.insert(landing_index(target_focus), source[window_idx]).to_multiset(),
    ) =~= source.to_multiset().add(target.to_multiset()));
}

/// After a move the target's focus points at the moved window, and a source
/// focus that was in bounds stays in bounds unless the first window left
/// while the last one was focused.
pub proof fn lemma_move_window_focus_valid<T>(
    source: Seq<T>,
    source_focus: Option<usize>,
    target: Seq<T>,
    target_focus: Option<usize>,
    window_idx: int,
)
    requires
        0 <= window_idx < source.len(),
        match target_focus {
            Some(f) => f < target.len(),
            None => true,
        },
        match source_focus {
            Some(f) => f < source.len() && !(window_idx == 0 && f + 1 == source.len() && source.len()
                > 1),
            None => true,
        },
    ensures
        ({
            let t = landing_index(target_focus);
            &&& 0 <= t < target.insert(t, source[window_idx]).len()
            &&& target.insert(t, source[window_idx])[t] == source[window_idx]
        }),
        match source_focus_after(source.len() as int, source_focus, window_idx) {
            Some(f) => f < source.remove(window_idx).len(),
            None => true,
        },
{
}

} // verus!

verus! {

/// Which layer-shell surface holds keyboard focus.
#[derive(Clone, Copy, Debug, PartialEq, Eq, Structural)]
pub enum LayerShellFocus {
    Unfocused,
    NonExclusive,
    Exclusive,
}

/// Workspaces kept for a removed output, under the output's name.
#[derive(Clone, Debug)]
pub struct NamedDetached {
    pub name: String,
    pub detached: DetachedOutput,
}

/// The window manager's whole state.
pub struct WindowManager {
    pub config: Config,
    pub outputs: Vec<Output>,
    pub focused_output_idx: Option<usize>,
    pub previous_workspace: Option<OverviewHome>,
    pub pending_windows: Vec<PendingWindow>,
    /// Workspaces preserved when their output was removed, keyed by output
    /// name; restored when an output with the same name reappears. No name
    /// occurs twice.
    pub detached_outputs: Vec<NamedDetached>,
    pub overview_state: Option<OverviewState>,
    pub status: Status,
    pub needs_refocus: bool,
    pub needs_setup_bindings: bool,
    pub should_exit_loop: bool,
    /// Last regular window the compositor was asked to focus.
    pub last_focused_window: Option<ObjectId>,
    pub layer_shell_focus: LayerShellFocus,
    /// True while the session is locked.
    pub session_locked: bool,
    /// Window focused when the session was locked, restored on unlock.
    pub lock_focus: Option<ObjectId>,
    /// Set when the focused output changed because an output was
    /// added/removed; the next layout pass warps the pointer.
    pub needs_pointer_warp: bool,
}

/// An output owns exactly ten workspaces and focuses one of them.
pub open spec fn output_wf(o: Output) -> bool {
    &&& o.workspace_list@.len() == WORKSPACE_COUNT
    &&& o.focused_workspace_idx < WORKSPACE_COUNT
}

/// Two workspaces with the same windows, focus and layout.
pub open spec fn ws_same_view(a: Workspace, b: Workspace) -> bool {
    &&& a.window_list@ == b.window_list@
    &&& a.focused_window_idx == b.focused_window_idx
    &&& a.layout == b.layout
    &&& a.is_floating == b.is_floating
}

/// Detached workspaces keep the same shape as an output's.
pub open spec fn detached_wf(d: DetachedOutput) -> bool {
    &&& d.workspace_list@.len() == WORKSPACE_COUNT
    &&& d.focused_workspace_idx < WORKSPACE_COUNT
}

/// Two outputs that agree on everything but the contents of their workspaces.
pub open spec fn output_same_but_workspaces(a: Output, b: Output) -> bool {
    &&& output_same_fields(a, b)
    &&& a.workspace_list@.len() == b.workspace_list@.len()
}

/// Two outputs that agree on everything but their workspace lists.
pub open spec fn output_same_fields(a: Output, b: Output) -> bool {
    &&& a.id == b.id
    &&& a.has_layer_shell_output == b.has_layer_shell_output
    &&& a.wl_output_version == b.wl_output_version
    &&& a.name == b.name
    &&& a.focused_workspace_idx == b.focused_workspace_idx
    &&& a.rectangle == b.rectangle
    &&& a.non_exclusive == b.non_exclusive
    &&& a.is_removed == b.is_removed
}

impl WindowManager {
    /// The structural invariant: every output and detached entry has ten
    /// workspaces with an in-range focused one, the focused output exists,
    /// remembered workspaces are in range, detached names are distinct, and
    /// an open overview has at least one column and one entry.
    pub open spec fn inv(&self) -> bool {
        &&& forall|i: int| 0 <= i < self.outputs@.len() ==> output_wf(#[trigger] self.outputs@[i])
        &&& forall|i: int|
            0 <= i < self.detached_outputs@.len() ==> detached_wf(
                #[trigger] self.detached_outputs@[i].detached,
            )
        &&& forall|i: int, j: int|
            0 <= i < j < self.detached_outputs@.len() ==> #[trigger] self.detached_outputs@[i].name@
                != #[trigger] self.detached_outputs@[j].name@
        &&& match self.focused_output_idx {
            Some(i) => i < self.outputs@.len(),
            None => true,
        }
        &&& match self.previous_workspace {
            Some(p) => p.workspace_idx < WORKSPACE_COUNT,
            None => true,
        }
        &&& match self.overview_state {
            Some(ov) => ov.columns >= 1 && ov.entries@.len() >= 1 && match ov.previous_workspace {
                Some(p) => p.workspace_idx < WORKSPACE_COUNT,
                None => true,
            },
            None => true,
        }
    }

    /// The workspace at (`o`, `w`).
    pub open spec fn ws(&self, o: int, w: int) -> Workspace {
        self.outputs@[o].workspace_list@[w]
    }

    /// Whether (`o`, `w`) names a workspace.
    pub open spec fn has_ws(&self, o: int, w: int) -> bool {
        0 <= o < self.outputs@.len() && 0 <= w < self.outputs@[o].workspace_list@.len()
    }

    /// The window at (`o`, `w`, `k`).
    pub open spec fn win(&self, o: int, w: int, k: int) -> Window {
        self.outputs@[o].workspace_list@[w].window_list@[k]
    }

    /// Whether (`o`, `w`, `k`) names a window.
    pub open spec fn has_win(&self, o: int, w: int, k: int) -> bool {
        self.has_ws(o, w) && 0 <= k < self.ws(o, w).window_list@.len()
    }

    /// The outputs of `self` and `other` are the same but for the workspace
    /// list of output `idx`.
    pub open spec fn same_outputs_but_list(&self, other: &WindowManager, idx: int) -> bool {
        &&& self.outputs@.len() == other.outputs@.len()
        &&& forall|o: int|
            0 <= o < self.outputs@.len() && o != idx ==> #[trigger] self.outputs@[o]
                == other.outputs@[o]
        &&& output_same_fields(self.outputs@[idx], other.outputs@[idx])
    }

    /// Everything but the outputs is the same in `self` and `other`.
    pub open spec fn same_but_outputs(&self, other: &WindowManager) -> bool {
        &&& self.config == other.config
        &&& self.focused_output_idx == other.focused_output_idx
        &&& self.previous_workspace == other.previous_workspace
        &&& self.pending_windows@ == other.pending_windows@
        &&& self.detached_outputs@ == other.detached_outputs@
        &&& self.overview_state == other.overview_state
        &&& self.status == other.status
        &&& self.needs_refocus == other.needs_refocus
        &&& self.needs_setup_bindings == other.needs_setup_bindings
        &&& self.should_exit_loop == other.should_exit_loop
        &&& self.last_focused_window == other.last_focused_window
        &&& self.layer_shell_focus == other.layer_shell_focus
        &&& self.session_locked == other.session_locked
        &&& self.lock_focus == other.lock_focus
        &&& self.needs_pointer_warp == other.needs_pointer_warp
    }

    /// `self` and `other` have the same outputs, which differ at most in the
    /// workspaces for which `touched` holds.
    pub open spec fn same_but_workspaces(
        &self,
        other: &WindowManager,
        touched: spec_fn(int, int) -> bool,
    ) -> bool {
        &&& self.outputs@.len() == other.outputs@.len()
        &&& forall|o: int|
            0 <= o < self.outputs@.len() ==> output_same_but_workspaces(
                #[trigger] self.outputs@[o],
                other.outputs@[o],
            )
        &&& forall|o: int, w: int|
            #![trigger self.ws(o, w)]
            self.has_ws(o, w) && !touched(o, w) ==> self.ws(o, w) == other.ws(o, w)
    }

    /// A fresh manager with no outputs and nothing pending.
    pub fn new(config: Config) -> (wm: WindowManager)
        ensures
            wm.config == config,
            wm.outputs@.len() == 0,
            wm.focused_output_idx is None,
            wm.previous_workspace is None,
            wm.pending_windows@.len() == 0,
            wm.detached_outputs@.len() == 0,
            wm.overview_state is None,
            wm.status == Status::Idle,
            !wm.needs_refocus,
            !wm.needs_setup_bindings,
            !wm.should_exit_loop,
            wm.last_focused_window is None,
            wm.layer_shell_focus == LayerShellFocus::Unfocused,
            !wm.session_locked,
            wm.lock_focus is None,
            !wm.needs_pointer_warp,
            wm.inv(),
    {
        WindowManager {
            config,
            outputs: Vec::new(),
            focused_output_idx: None,
            previous_workspace: None,
            pending_windows: Vec::new(),
            detached_outputs: Vec::new(),
            overview_state: None,
            status: Status::Idle,
            needs_refocus: false,
            needs_setup_bindings: false,
            should_exit_loop: false,
            last_focused_window: None,
            layer_shell_focus: LayerShellFocus::Unfocused,
            session_locked: false,
            lock_focus: None,
            needs_pointer_warp: false,
        }
    }

    /// The focused output, when the focused index names one.
    pub open spec fn spec_focused_output_idx(&self) -> Option<usize> {
        match self.focused_output_idx {
            Some(i) => if i < self.outputs@.len() {
                Some(i)
            } else {
                None
            },
            None => None,
        }
    }

    /// The focused output.
    pub fn focused_output(&self) -> (r: Option<&Output>)
        ensures
            match self.spec_focused_output_idx() {
                Some(i) => r == Some(&self.outputs@[i as int]),
                None => r is None,
            },
    {
        match self.focused_output_idx {
            Some(i) => if i < self.outputs.len() {
                Some(&self.outputs[i])
            } else {
                None
            },
            None => None,
        }
    }

    /// (output index, workspace index) of the focused workspace.
    pub open spec fn spec_current_ws_idx(&self) -> Option<(usize, usize)> {
        match self.spec_focused_output_idx() {
            Some(i) => Some((i, self.outputs@[i as int].focused_workspace_idx)),
            None => None,
        }
    }

    /// (output_idx, workspace_idx) of the focused workspace.
    pub fn current_ws_idx(&self) -> (r: Option<(usize, usize)>)
        ensures
            r == self.spec_current_ws_idx(),
    {
        match self.focused_output() {
            Some(output) => Some((self.focused_output_idx.unwrap(), output.focused_workspace_idx)),
            None => None,
        }
    }

    /// The workspace at the given indices, if they name one.
    pub fn workspace(&self, output_idx: usize, workspace_idx: usize) -> (r: Option<&Workspace>)
        ensures
            self.has_ws(output_idx as int, workspace_idx as int) ==> r == Some(
                &self.ws(output_idx as int, workspace_idx as int),
            ),
            !self.has_ws(output_idx as int, workspace_idx as int) ==> r is None,
    {
        if output_idx < self.outputs.len() && workspace_idx
            < self.outputs[output_idx].workspace_list.len() {
            Some(&self.outputs[output_idx].workspace_list[workspace_idx])
        } else {
            None
        }
    }

    /// The workspace at the given indices, for changing it in place.
    pub fn workspace_mut(&mut self, output_idx: usize, workspace_idx: usize) -> (r: Option<
        &mut Workspace,
    >)
        ensures
            old(self).has_ws(output_idx as int, workspace_idx as int) <==> r is Some,
            r is None ==> *final(self) == *old(self),
            r matches Some(w) ==> {
                &&& *w == old(self).ws(output_idx as int, workspace_idx as int)
                &&& final(self).same_but_outputs(&*old(self))
                &&& final(self).same_but_workspaces(
                    &*old(self),
                    |o: int, k: int| o == output_idx && k == workspace_idx,
                )
                &&& final(self).ws(output_idx as int, workspace_idx as int) == *final(w)
            },
    {
        if output_idx < self.outputs.len() && workspace_idx
            < self.outputs[output_idx].workspace_list.len() {
            Some(&mut self.outputs[output_idx].workspace_list[workspace_idx])
        } else {
            None
        }
    }
}

} // verus!

verus! {

impl WindowManager {
    /// The focused window of the focused workspace, if there is one.
    pub open spec fn spec_focused_window(&self) -> Option<Window> {
        match self.spec_current_ws_idx() {
            Some((o, w)) => if self.has_ws(o as int, w as int) {
                self.ws(o as int, w as int).spec_focused_window()
            } else {
                None
            },
            None => None,
        }
    }

    /// The focused window.
    pub fn focused_window(&self) -> (r: Option<&Window>)
        ensures
            match r {
                Some(w) => self.spec_focused_window() == Some(*w),
                None => self.spec_focused_window() is None,
            },
    {
        let (oi, wi) = match self.current_ws_idx() {
            Some(p) => p,
            None => return None,
        };
        match self.workspace(oi, wi) {
            Some(ws) => ws.focused_window(),
            None => None,
        }
    }

    /// Where the focused window lives, when there is one.
    pub open spec fn spec_focused_position(&self) -> Option<(int, int, int)> {
        match self.spec_current_ws_idx() {
            Some((o, w)) => if self.has_ws(o as int, w as int) {
                match self.ws(o as int, w as int).focused_window_idx {
                    Some(k) => if k < self.ws(o as int, w as int).window_list@.len() {
                        Some((o as int, w as int, k as int))
                    } else {
                        None
                    },
                    None => None,
                }
            } else {
                None
            },
            None => None,
        }
    }

    /// The focused window, for changing it in place.
    pub fn focused_window_mut(&mut self) -> (r: Option<&mut Window>)
        ensures
            old(self).spec_focused_position() is Some <==> r is Some,
            r is None ==> *final(self) == *old(self),
            r matches Some(win) ==> {
                let (o, w, k) = old(self).spec_focused_position().unwrap();
                &&& *win == old(self).win(o, w, k)
                &&& final(self).same_but_outputs(&*old(self))
                &&& final(self).same_but_workspaces(
                    &*old(self),
                    |o2: int, w2: int| o2 == o && w2 == w,
                )
                &&& final(self).ws(o, w).window_list@ == old(self).ws(o, w).window_list@.update(
                    k,
                    *final(win),
                )
                &&& final(self).ws(o, w).focused_window_idx == old(self).ws(
                    o,
                    w,
                ).focused_window_idx
                &&& final(self).ws(o, w).layout == old(self).ws(o, w).layout
                &&& final(self).ws(o, w).is_floating == old(self).ws(o, w).is_floating
            },
    {
        let (oi, wi) = match self.current_ws_idx() {
            Some(p) => p,
            None => return None,
        };
        if oi >= self.outputs.len() || wi >= self.outputs[oi].workspace_list.len() {
            return None;
        }
        let k = match self.outputs[oi].workspace_list[wi].focused_window_idx {
            Some(k) => k,
            None => return None,
        };
        if k >= self.outputs[oi].workspace_list[wi].window_list.len() {
            return None;
        }
        Some(&mut self.outputs[oi].workspace_list[wi].window_list[k])
    }
}

/// `a` comes before `b` in output, workspace, window order.
pub open spec fn lex_lt(a: (int, int, int), b: (int, int, int)) -> bool {
    a.0 < b.0 || (a.0 == b.0 && (a.1 < b.1 || (a.1 == b.1 && a.2 < b.2)))
}

impl WindowManager {
    /// The window at (`o`, `w`, `k`) has `id` and no earlier window does.
    pub open spec fn is_first_at(&self, id: ObjectId, o: int, w: int, k: int) -> bool {
        &&& self.has_win(o, w, k)
        &&& self.win(o, w, k).id == id
        &&& forall|o2: int, w2: int, k2: int|
            #![trigger self.win(o2, w2, k2)]
            self.has_win(o2, w2, k2) && lex_lt((o2, w2, k2), (o, w, k)) ==> self.win(o2, w2, k2).id
                != id
    }

    /// Some window has `id`.
    pub open spec fn holds_id(&self, id: ObjectId) -> bool {
        exists|o: int, w: int, k: int| #[trigger]
            self.has_win(o, w, k) && self.win(o, w, k).id == id
    }

    /// The first place, scanning outputs, workspaces and windows in order,
    /// where a window with `id` lives.
    pub open spec fn spec_locate(&self, id: ObjectId) -> Option<(int, int, int)> {
        if exists|o: int, w: int, k: int| self.is_first_at(id, o, w, k) {
            Some(choose|o: int, w: int, k: int| self.is_first_at(id, o, w, k))
        } else {
            None
        }
    }

    /// At most one position is the first with a given id.
    pub proof fn lemma_first_at_unique(&self, id: ObjectId, a: (int, int, int), b: (int, int, int))
        requires
            self.is_first_at(id, a.0, a.1, a.2),
            self.is_first_at(id, b.0, b.1, b.2),
        ensures
            a == b,
    {
        if lex_lt(a, b) {
            assert(self.win(a.0, a.1, a.2).id != id);
        } else if lex_lt(b, a) {
            assert(self.win(b.0, b.1, b.2).id != id);
        }
    }

    /// Pins down `spec_locate` from a first position.
    pub proof fn lemma_locate_is(&self, id: ObjectId, o: int, w: int, k: int)
        requires
            self.is_first_at(id, o, w, k),
        ensures
            self.spec_locate(id) == Some((o, w, k)),
    {
        let c = choose|o2: int, w2: int, k2: int| self.is_first_at(id, o2, w2, k2);
        self.lemma_first_at_unique(id, c, (o, w, k));
    }

    /// Locate a window by its id across all outputs/workspaces.
    /// Returns (output_idx, workspace_idx, window_idx) of the first match.
    pub fn locate_window(&self, id: ObjectId) -> (r: Option<(usize, usize, usize)>)
        ensures
            match r {
                Some((o, w, k)) => self.is_first_at(id, o as int, w as int, k as int)
                    && self.spec_locate(id) == Some((o as int, w as int, k as int)),
                None => !self.holds_id(id) && self.spec_locate(id) is None,
            },
    {
        let mut o: usize = 0;
        while o < self.outputs.len()
            invariant
                o <= self.outputs@.len(),
                forall|o2: int, w2: int, k2: int|
                    #![trigger self.win(o2, w2, k2)]
                    self.has_win(o2, w2, k2) && o2 < o ==> self.win(o2, w2, k2).id != id,
            decreases self.outputs@.len() - o,
        {
            let mut w: usize = 0;
            while w < self.outputs[o].workspace_list.len()
                invariant
                    o < self.outputs@.len(),
                    w <= self.outputs@[o as int].workspace_list@.len(),
                    forall|o2: int, w2: int, k2: int|
                        #![trigger self.win(o2, w2, k2)]
                        self.has_win(o2, w2, k2) && lex_lt((o2, w2, k2), (o as int, w as int, 0))
                            ==> self.win(o2, w2, k2).id != id,
                decreases self.outputs@[o as int].workspace_list@.len() - w,
            {
                let mut k: usize = 0;
                while k < self.outputs[o].workspace_list[w].window_list.len()
                    invariant
                        o < self.outputs@.len(),
                        w < self.outputs@[o as int].workspace_list@.len(),
                        k <= self.ws(o as int, w as int).window_list@.len(),
                        forall|o2: int, w2: int, k2: int|
                            #![trigger self.win(o2, w2, k2)]
                            self.has_win(o2, w2, k2) && lex_lt(
                                (o2, w2, k2),
                                (o as int, w as int, k as int),
                            ) ==> self.win(o2, w2, k2).id != id,
                    decreases self.ws(o as int, w as int).window_list@.len() - k,
                {
                    if self.outputs[o].workspace_list[w].window_list[k].id == id {
                        proof {
                            self.lemma_locate_is(id, o as int, w as int, k as int);
                        }
                        return Some((o, w, k));
                    }
                    k = k + 1;
                }
                w = w + 1;
            }
            o = o + 1;
        }
        assert(!self.holds_id(id)) by {
            if self.holds_id(id) {
                let (o2, w2, k2) = choose|o2: int, w2: int, k2: int|
                    self.has_win(o2, w2, k2) && self.win(o2, w2, k2).id == id;
                assert(self.win(o2, w2, k2).id != id);
            }
        }
        None
    }
}


impl WindowManager {
    /// `self` is `pre` after window `window_idx` of workspace `source` moved
    /// to workspace `target`: it left the source (whose focus moved as
    /// `source_focus_after` says) and landed right after the target's
    /// focused window, which it became. The same workspace as source and
    /// target, missing workspaces or an out-of-range window change nothing.
    pub open spec fn moved_ok(
        &self,
        pre: &WindowManager,
        source: (usize, usize),
        target: (usize, usize),
        window_idx: usize,
    ) -> bool {
        let (s0, s1) = (source.0 as int, source.1 as int);
        let (t0, t1) = (target.0 as int, target.1 as int);
        let src = pre.ws(s0, s1);
        let tgt = pre.ws(t0, t1);
        let moves = source != target && pre.has_ws(s0, s1) && pre.has_ws(t0, t1) && window_idx
            < src.window_list@.len();
        &&& self.same_but_outputs(pre)
        &&& !moves ==> self.outputs@ == pre.outputs@
        &&& moves ==> {
            &&& self.same_but_workspaces(
                pre,
                |o: int, w: int| (o == s0 && w == s1) || (o == t0 && w == t1),
            )
            &&& self.ws(s0, s1).window_list@ == src.window_list@.remove(window_idx as int)
            &&& self.ws(s0, s1).focused_window_idx == source_focus_after(
                src.window_list@.len() as int,
                src.focused_window_idx,
                window_idx as int,
            )
            &&& self.ws(s0, s1).layout == src.layout
            &&& self.ws(s0, s1).is_floating == src.is_floating
            &&& self.ws(t0, t1).window_list@ == tgt.window_list@.insert(
                landing_index(tgt.focused_window_idx),
                src.window_list@[window_idx as int],
            )
            &&& self.ws(t0, t1).focused_window_idx == Some(
                landing_index(tgt.focused_window_idx) as usize,
            )
            &&& self.ws(t0, t1).layout == tgt.layout
            &&& self.ws(t0, t1).is_floating == tgt.is_floating
        }
    }
}

impl WindowManager {
    /// Move a window between workspaces, adjusting both focus indices. The
    /// moved window lands right after the target's focused window. The same
    /// workspace as source and target, missing workspaces or an
    /// out-of-range window index change nothing.
    pub fn move_window_to_workspace(
        &mut self,
        source: (usize, usize),
        target: (usize, usize),
        window_idx: usize,
    )
        requires
            ({
                let (s0, s1) = source;
                let (t0, t1) = target;
                old(self).has_ws(s0 as int, s1 as int) && old(self).has_ws(t0 as int, t1 as int)
                    && source != target && window_idx < old(self).ws(
                    s0 as int,
                    s1 as int,
                ).window_list@.len() ==> match old(self).ws(
                    t0 as int,
                    t1 as int,
                ).focused_window_idx {
                    Some(f) => f < old(self).ws(t0 as int, t1 as int).window_list@.len(),
                    None => true,
                }
            }),
        ensures
            final(self).moved_ok(&*old(self), source, target, window_idx),
    {
        let (s0, s1) = source;
        let (t0, t1) = target;
        if s0 == t0 && s1 == t1 {
            return;
        }
        if s0 >= self.outputs.len() || s1 >= self.outputs[s0].workspace_list.len() {
            return;
        }
        if t0 >= self.outputs.len() || t1 >= self.outputs[t0].workspace_list.len() {
            return;
        }
        if window_idx >= self.outputs[s0].workspace_list[s1].window_list.len() {
            return;
        }
        let ghost old_self = *self;
        let mut source_list: Vec<Window> = Vec::new();
        let mut source_focus: Option<usize> = None;
        {
            let ws = &mut self.outputs[s0].workspace_list[s1];
            std::mem::swap(&mut ws.window_list, &mut source_list);
            std::mem::swap(&mut ws.focused_window_idx, &mut source_focus);
        }
        {
            let tws = &mut self.outputs[t0].workspace_list[t1];
            move_window(
                &mut source_list,
                &mut source_focus,
                &mut tws.window_list,
                &mut tws.focused_window_idx,
                window_idx,
            );
        }
        {
            let ws = &mut self.outputs[s0].workspace_list[s1];
            ws.window_list = source_list;
            ws.focused_window_idx = source_focus;
        }
        proof {
            assert(self.outputs@.len() == old_self.outputs@.len());
        }
    }
}

} // verus!

verus! {

/// Two outputs that agree on everything but which workspace is focused and
/// the contents of their (equally many) workspaces.
pub open spec fn output_same_but_focus(a: Output, b: Output) -> bool {
    &&& a.id == b.id
    &&& a.has_layer_shell_output == b.has_layer_shell_output
    &&& a.wl_output_version == b.wl_output_version
    &&& a.name == b.name
    &&& a.rectangle == b.rectangle
    &&& a.non_exclusive == b.non_exclusive
    &&& a.is_removed == b.is_removed
    &&& a.workspace_list@.len() == b.workspace_list@.len()
}

/// Workspace `after` is `before` with each window replaced by `f` of its
/// position and itself.
pub open spec fn ws_mapped(after: Workspace, before: Workspace, f: spec_fn(int, Window) -> Window) -> bool {
    &&& after.window_list@ == before.window_list@.map(f)
    &&& after.focused_window_idx == before.focused_window_idx
    &&& after.layout == before.layout
    &&& after.is_floating == before.is_floating
}

impl WindowManager {
    /// `self` and `other` have the same outputs, workspaces and window
    /// positions, and the windows at each position have the same id.
    pub open spec fn same_ids(&self, other: &WindowManager) -> bool {
        &&& self.outputs@.len() == other.outputs@.len()
        &&& forall|o: int|
            0 <= o < self.outputs@.len() ==> (#[trigger] self.outputs@[o]).workspace_list@.len()
                == other.outputs@[o].workspace_list@.len()
        &&& forall|o: int, w: int|
            #![trigger self.ws(o, w)]
            self.has_ws(o, w) ==> self.ws(o, w).window_list@.len() == other.ws(
                o,
                w,
            ).window_list@.len()
        &&& forall|o: int, w: int, k: int|
            #![trigger self.win(o, w, k)]
            self.has_win(o, w, k) ==> self.win(o, w, k).id == other.win(o, w, k).id
    }

    /// `same_ids` goes both ways.
    pub proof fn lemma_same_ids_symmetric(&self, other: &WindowManager)
        requires
            self.same_ids(other),
        ensures
            other.same_ids(self),
    {
        assert forall|o: int, w: int| #![trigger other.ws(o, w)] other.has_ws(o, w) implies other.ws(
            o,
            w,
        ).window_list@.len() == self.ws(o, w).window_list@.len() by {
            assert(self.outputs@[o].workspace_list@.len() == other.outputs@[o].workspace_list@.len());
            assert(self.has_ws(o, w));
        }
        assert forall|o: int, w: int, k: int| #![trigger other.win(o, w, k)] other.has_win(
            o,
            w,
            k,
        ) implies other.win(o, w, k).id == self.win(o, w, k).id by {
            assert(self.outputs@[o].workspace_list@.len() == other.outputs@[o].workspace_list@.len());
            assert(self.has_ws(o, w));
            assert(self.has_win(o, w, k));
        }
    }

    proof fn lemma_first_at_transfer(&self, other: &WindowManager, id: ObjectId, o: int, w: int, k: int)
        requires
            self.same_ids(other),
            self.is_first_at(id, o, w, k),
        ensures
            other.is_first_at(id, o, w, k),
    {
        self.lemma_same_ids_symmetric(other);
        assert(self.outputs@[o].workspace_list@.len() == other.outputs@[o].workspace_list@.len());
        assert(self.win(o, w, k).id == other.win(o, w, k).id);
        assert forall|o2: int, w2: int, k2: int|
            #![trigger other.win(o2, w2, k2)]
            other.has_win(o2, w2, k2) && lex_lt((o2, w2, k2), (o, w, k)) implies other.win(
                o2,
                w2,
                k2,
            ).id != id by {
            assert(other.win(o2, w2, k2).id == self.win(o2, w2, k2).id);
            assert(self.outputs@[o2].workspace_list@.len() == other.outputs@[o2].workspace_list@.len());
            assert(self.has_ws(o2, w2));
            assert(self.has_win(o2, w2, k2));
        }
    }

    /// Where a window is found depends only on the windows' ids.
    pub proof fn lemma_same_ids_locate(&self, other: &WindowManager, id: ObjectId)
        requires
            self.same_ids(other),
        ensures
            self.spec_locate(id) == other.spec_locate(id),
    {
        self.lemma_same_ids_symmetric(other);
        if exists|o: int, w: int, k: int| self.is_first_at(id, o, w, k) {
            let (o, w, k) = choose|o: int, w: int, k: int| self.is_first_at(id, o, w, k);
            self.lemma_first_at_transfer(other, id, o, w, k);
            self.lemma_locate_is(id, o, w, k);
            other.lemma_locate_is(id, o, w, k);
        } else if exists|o: int, w: int, k: int| other.is_first_at(id, o, w, k) {
            let (o, w, k) = choose|o: int, w: int, k: int| other.is_first_at(id, o, w, k);
            other.lemma_first_at_transfer(self, id, o, w, k);
        }
    }

    /// A located window is the first with its id.
    pub proof fn lemma_locate_some(&self, id: ObjectId)
        requires
            self.spec_locate(id) is Some,
        ensures
            ({
                let (o, w, k) = self.spec_locate(id).unwrap();
                self.is_first_at(id, o, w, k)
            }),
    {
    }

    /// `self` is `pre` with the window at (`o`, `w`, `k`) focused: `o` is the
    /// focused output, `w` its focused workspace and `k` that workspace's
    /// focused window; nothing else changed.
    pub open spec fn is_focused_at(&self, pre: &WindowManager, o: int, w: int, k: int) -> bool {
        &&& self.same_but_outputs(&WindowManager { focused_output_idx: Some(o as usize), ..*pre })
        &&& self.outputs@.len() == pre.outputs@.len()
        &&& forall|p: int|
            0 <= p < pre.outputs@.len() && p != o ==> #[trigger] self.outputs@[p] == pre.outputs@[p]
        &&& output_same_but_focus(self.outputs@[o], pre.outputs@[o])
        &&& self.outputs@[o].focused_workspace_idx == w
        &&& forall|v: int|
            #![trigger self.ws(o, v)]
            0 <= v < pre.outputs@[o].workspace_list@.len() && v != w ==> self.ws(o, v) == pre.ws(o, v)
        &&& self.ws(o, w).window_list@ == pre.ws(o, w).window_list@
        &&& self.ws(o, w).focused_window_idx == Some(k as usize)
        &&& self.ws(o, w).layout == pre.ws(o, w).layout
        &&& self.ws(o, w).is_floating == pre.ws(o, w).is_floating
    }

    /// Focus the window at (`o`, `w`, `k`): its output becomes the focused
    /// output, its workspace that output's focused workspace, and it the
    /// workspace's focused window.
    pub fn focus_at(&mut self, o: usize, w: usize, k: usize)
        requires
            old(self).has_ws(o as int, w as int),
        ensures
            final(self).is_focused_at(&*old(self), o as int, w as int, k as int),
    {
        let ghost pre = *self;
        self.focused_output_idx = Some(o);
        self.outputs[o].focused_workspace_idx = w;
        self.outputs[o].workspace_list[w].focused_window_idx = Some(k);
        proof {
            assert forall|v: int|
                #![trigger self.ws(o as int, v)]
                0 <= v < pre.outputs@[o as int].workspace_list@.len() && v != w implies self.ws(
                o as int,
                v,
            ) == pre.ws(o as int, v) by {}
        }
    }
}

} // verus!

verus! {

impl WindowManager {
    /// `self` is `pre` with the window at (`o`, `w`, `k`) replaced by `win`;
    /// nothing else changed.
    pub open spec fn is_win_replaced(&self, pre: &WindowManager, o: int, w: int, k: int, win: Window) -> bool {
        &&& self.same_but_outputs(pre)
        &&& self.same_but_workspaces(pre, |o2: int, w2: int| o2 == o && w2 == w)
        &&& self.ws(o, w).window_list@ == pre.ws(o, w).window_list@.update(k, win)
        &&& self.ws(o, w).focused_window_idx == pre.ws(o, w).focused_window_idx
        &&& self.ws(o, w).layout == pre.ws(o, w).layout
        &&& self.ws(o, w).is_floating == pre.ws(o, w).is_floating
    }

    /// Where the focused window lives.
    pub fn focused_position(&self) -> (r: Option<(usize, usize, usize)>)
        ensures
            match r {
                Some((o, w, k)) => self.spec_focused_position() == Some((o as int, w as int, k as int)),
                None => self.spec_focused_position() is None,
            },
    {
        let (oi, wi) = match self.current_ws_idx() {
            Some(p) => p,
            None => return None,
        };
        if oi >= self.outputs.len() || wi >= self.outputs[oi].workspace_list.len() {
            return None;
        }
        let k = match self.outputs[oi].workspace_list[wi].focused_window_idx {
            Some(k) => k,
            None => return None,
        };
        if k >= self.outputs[oi].workspace_list[wi].window_list.len() {
            return None;
        }
        Some((oi, wi, k))
    }

    /// Give the window at (`o`, `w`, `k`) the geometry `g`.
    pub fn set_geom(&mut self, o: usize, w: usize, k: usize, g: WindowGeom)
        requires
            old(self).has_win(o as int, w as int, k as int),
        ensures
            final(self).is_win_replaced(
                &*old(self),
                o as int,
                w as int,
                k as int,
                Window { geom: g, ..old(self).win(o as int, w as int, k as int) },
            ),
    {
        let ghost pre = *self;
        self.outputs[o].workspace_list[w].window_list[k].geom = g;
        proof {
            assert forall|o2: int, w2: int|
                #![trigger self.ws(o2, w2)]
                self.has_ws(o2, w2) && !(o2 == o && w2 == w) implies self.ws(o2, w2) == pre.ws(
                o2,
                w2,
            ) by {}
            assert(self.ws(o as int, w as int).window_list@ =~= pre.ws(o as int, w as int).window_list@.update(
                k as int,
                Window { geom: g, ..pre.win(o as int, w as int, k as int) },
            ));
        }
    }
}

} // verus!

verus! {

/// A manager whose outputs keep their shape and whose other fields are
/// unchanged keeps the structural invariant.
pub proof fn lemma_inv_same_shape(post: WindowManager, pre: WindowManager)
    requires
        pre.inv(),
        post.same_but_outputs(&pre),
        post.outputs@.len() == pre.outputs@.len(),
        forall|o: int|
            0 <= o < pre.outputs@.len() ==> output_same_but_workspaces(
                #[trigger] post.outputs@[o],
                pre.outputs@[o],
            ),
    ensures
        post.inv(),
{
    assert forall|o: int| 0 <= o < post.outputs@.len() implies output_wf(#[trigger] post.outputs@[o]) by {
        assert(output_same_but_workspaces(post.outputs@[o], pre.outputs@[o]));
        assert(output_wf(pre.outputs@[o]));
    }
}

/// Replacing one window keeps the structural invariant.
pub proof fn lemma_inv_win_replaced(post: WindowManager, pre: WindowManager, o: int, w: int, k: int, win: Window)
    requires
        pre.inv(),
        post.is_win_replaced(&pre, o, w, k, win),
    ensures
        post.inv(),
{
    lemma_inv_same_shape(post, pre);
}

} // verus!

verus! {

impl WindowManager {
    /// No two windows share an id.
    pub open spec fn ids_unique(&self) -> bool {
        forall|o: int, w: int, k: int, o2: int, w2: int, k2: int|
            #![trigger self.win(o, w, k), self.win(o2, w2, k2)]
            self.has_win(o, w, k) && self.has_win(o2, w2, k2) && (o, w, k) != (o2, w2, k2) ==> self.win(
                o,
                w,
                k,
            ).id != self.win(o2, w2, k2).id
    }

    /// With unique ids a window is found where it is.
    pub proof fn lemma_unique_locate(&self, o: int, w: int, k: int)
        requires
            self.ids_unique(),
            self.has_win(o, w, k),
        ensures
            self.spec_locate(self.win(o, w, k).id) == Some((o, w, k)),
    {
        let id = self.win(o, w, k).id;
        assert forall|o2: int, w2: int, k2: int|
            #![trigger self.win(o2, w2, k2)]
            self.has_win(o2, w2, k2) && lex_lt((o2, w2, k2), (o, w, k)) implies self.win(o2, w2, k2).id
            != id by {
            assert((o2, w2, k2) != (o, w, k));
        }
        assert(self.is_first_at(id, o, w, k));
        self.lemma_locate_is(id, o, w, k);
    }
}

} // verus!
