//! The manage-sequence state machine and the window manager's global
//! events: new windows, outputs and seats, session lock and unlock.
use vstd::prelude::*;

use crate::layout::{apply, apply_ok, snap_outputs_reqs, snap_to_finish, snapped_ok};
use crate::output::added_ok;
use crate::overview::{apply_borders, apply_borders_ok};
use crate::seat::{pointer_action, pointer_action_defined, pointer_action_reqs};
use crate::types::{Config, ObjectId, PendingWindow, Rectangle, Request, Status, WindowGeom};
use crate::wm::{LayerShellFocus, WindowManager};

verus! {

/// Work a manage sequence leaves to the caller.
#[derive(Clone, Copy, Debug, PartialEq, Eq, Structural)]
pub enum ManageEffect {
    /// Nothing to do.
    Nothing,
    /// Register the key and pointer bindings of the configuration anew.
    SetupBindings,
}

/// The manager a manage sequence starts from: a pending request to set up
/// the bindings takes over the status.
pub open spec fn manage_start(pre: WindowManager) -> WindowManager {
    if pre.needs_setup_bindings {
        WindowManager { status: Status::SetupBindings, needs_setup_bindings: false, ..pre }
    } else {
        pre
    }
}

/// What a manage sequence does to `pre`, giving `post`, the effect and the
/// requests `r`. Without a focused output or a seat it stops after taking
/// over a pending binding setup. Otherwise, by status: a layout pass (and,
/// unless focus must be retried, committing the targets and going idle);
/// the overview border pass and commit; the start of a pointer operation;
/// binding setup followed by a layout pass; leaving the session; or ending
/// any pointer operation.
pub open spec fn manage_ok<S>(
    post: WindowManager,
    pre: WindowManager,
    effect: ManageEffect,
    r: Seq<Request>,
    has_seat: bool,
    scroller: S,
) -> bool where
    S: Fn(Vec<WindowGeom>, Option<usize>, Rectangle, Rectangle, &Config, i32) -> Vec<WindowGeom>,
 {
    let s0 = manage_start(pre);
    if s0.focused_output_idx is None || !has_seat {
        post == s0 && r == Seq::<Request>::empty() && effect is Nothing
    } else {
        match s0.status {
            Status::Layout => {
                &&& effect is Nothing
                &&& exists|a: WindowManager, ra: Seq<Request>|
                    #[trigger] apply_ok(a, s0, ra, scroller) && if a.needs_refocus {
                        post == WindowManager { needs_refocus: false, ..a } && r == ra + seq![
                            Request::ManageDirty,
                        ]
                    } else {
                        exists|sn: WindowManager|
                            #[trigger] snapped_ok(sn, a) && post == WindowManager {
                                status: Status::Idle,
                                ..sn
                            } && r == ra + snap_outputs_reqs(a.outputs@)
                    }
            },
            Status::Overview => {
                &&& effect is Nothing
                &&& exists|b: WindowManager, rb: Seq<Request>, sn: WindowManager|
                    #![trigger apply_borders_ok(b, s0, rb), snapped_ok(sn, b)]
                    apply_borders_ok(b, s0, rb) && snapped_ok(sn, b) && post == WindowManager {
                        status: Status::Idle,
                        ..sn
                    } && r == rb + snap_outputs_reqs(b.outputs@)
            },
            Status::PointerAction(_) => {
                &&& effect is Nothing
                &&& post == s0
                &&& r == seq![Request::OpStartPointer] + pointer_action_reqs(s0)
            },
            Status::SetupBindings => {
                &&& effect is SetupBindings
                &&& post == WindowManager { status: Status::Layout, ..s0 }
                &&& r == seq![Request::ManageDirty]
            },
            Status::Exit => effect is Nothing && post == s0 && r == seq![Request::ExitSession],
            Status::Idle => effect is Nothing && post == s0 && r == seq![Request::OpEnd],
        }
    }
}

/// A pointer operation can only start on a focus that names a window.
pub open spec fn manage_defined(pre: WindowManager) -> bool {
    manage_start(pre).status is PointerAction ==> pointer_action_defined(manage_start(pre))
}

/// The manage sequence, run when the compositor starts one. Layout passes
/// commit their targets immediately.
pub fn manage<S>(wm: &mut WindowManager, has_seat: bool, scroller: &S, reqs: &mut Vec<Request>) -> (effect: ManageEffect) where
    S: Fn(Vec<WindowGeom>, Option<usize>, Rectangle, Rectangle, &Config, i32) -> Vec<WindowGeom>,

    requires
        old(wm).inv(),
        manage_defined(*old(wm)),
        forall|v: Vec<WindowGeom>, f: Option<usize>, a: Rectangle, b: Rectangle, c: &Config, y: i32|
            #[trigger] scroller.requires((v, f, a, b, c, y)),
    ensures
        final(wm).inv(),
        final(reqs)@.len() >= old(reqs)@.len(),
        final(reqs)@.take(old(reqs)@.len() as int) == old(reqs)@,
        manage_ok(
            *final(wm),
            *old(wm),
            effect,
            final(reqs)@.skip(old(reqs)@.len() as int),
            has_seat,
            *scroller,
        ),
{
    let ghost start = old(reqs)@;
    if wm.needs_setup_bindings {
        wm.status = Status::SetupBindings;
        wm.needs_setup_bindings = false;
    }
    let ghost s0 = *wm;
    proof {
        assert(reqs@.skip(start.len() as int) =~= Seq::<Request>::empty());
        assert(reqs@.take(start.len() as int) =~= start);
    }
    if wm.focused_output_idx.is_none() || !has_seat {
        return ManageEffect::Nothing;
    }
    match wm.status {
        Status::Layout => {
            apply(wm, scroller, reqs);
            let ghost a = *wm;
            let ghost ra = reqs@.skip(start.len() as int);
            let ghost qa = reqs@;
            proof {
                assert(apply_ok(a, s0, ra, *scroller));
                assert(qa =~= start + ra);
            }
            if wm.needs_refocus {
                wm.needs_refocus = false;
                reqs.push(Request::ManageDirty);
                proof {
                    assert(reqs@.skip(start.len() as int) =~= ra + seq![Request::ManageDirty]);
                }
            } else {
                snap_to_finish(wm, reqs);
                let ghost sn = *wm;
                wm.status = Status::Idle;
                proof {
                    assert(snapped_ok(sn, a));
                    crate::wm::lemma_inv_same_shape(sn, a);
                    assert(reqs@.skip(start.len() as int) =~= ra + snap_outputs_reqs(a.outputs@));
                }
            }
            proof {
                assert(reqs@.take(start.len() as int) =~= start);
            }
            ManageEffect::Nothing
        },
        Status::Overview => {
            apply_borders(wm, reqs);
            let ghost b = *wm;
            let ghost rb = reqs@.skip(start.len() as int);
            let ghost qb = reqs@;
            proof {
                assert(qb =~= start + rb);
            }
            snap_to_finish(wm, reqs);
            let ghost sn = *wm;
            wm.status = Status::Idle;
            proof {
                assert(apply_borders_ok(b, s0, rb));
                assert(snapped_ok(sn, b));
                crate::wm::lemma_inv_same_shape(sn, b);
                assert(reqs@.skip(start.len() as int) =~= rb + snap_outputs_reqs(b.outputs@));
                assert(reqs@.take(start.len() as int) =~= start);
            }
            ManageEffect::Nothing
        },
        Status::PointerAction(_) => {
            reqs.push(Request::OpStartPointer);
            pointer_action(wm, reqs);
            proof {
                assert(reqs@.skip(start.len() as int) =~= seq![Request::OpStartPointer] + pointer_action_reqs(s0));
                assert(reqs@.take(start.len() as int) =~= start);
            }
            ManageEffect::Nothing
        },
        Status::SetupBindings => {
            wm.status = Status::Layout;
            reqs.push(Request::ManageDirty);
            proof {
                assert(reqs@.skip(start.len() as int) =~= seq![Request::ManageDirty]);
                assert(reqs@.take(start.len() as int) =~= start);
            }
            ManageEffect::SetupBindings
        },
        Status::Exit => {
            reqs.push(Request::ExitSession);
            proof {
                assert(reqs@.skip(start.len() as int) =~= seq![Request::ExitSession]);
                assert(reqs@.take(start.len() as int) =~= start);
            }
            ManageEffect::Nothing
        },
        Status::Idle => {
            reqs.push(Request::OpEnd);
            proof {
                assert(reqs@.skip(start.len() as int) =~= seq![Request::OpEnd]);
                assert(reqs@.take(start.len() as int) =~= start);
            }
            ManageEffect::Nothing
        },
    }
}

} // verus!

verus! {

/// The window manager's global events that change its state.
#[derive(Clone, Copy, Debug, PartialEq, Eq, Structural)]
pub enum WmEvent {
    /// The compositor is done with this window manager.
    Finished,
    /// A new window appeared.
    Window(ObjectId),
    /// A new output appeared; whether a layer-shell output object was made
    /// for it.
    Output(ObjectId, bool),
    /// A seat appeared.
    Seat,
    SessionLocked,
    SessionUnlocked,
}

/// What a global event does to `pre`, giving `post` and requests `r`:
/// windows wait until a layout pass prepares them; outputs are added;
/// a new seat gets the cursor theme and its bindings set up; locking the
/// session remembers the focused window, unlocking focuses it again where
/// it lives now and asks for focus to be sent anew.
pub open spec fn wm_event_ok(post: WindowManager, pre: WindowManager, event: WmEvent, r: Seq<Request>) -> bool {
    match event {
        WmEvent::Finished => post == WindowManager { should_exit_loop: true, ..pre } && r
            == Seq::<Request>::empty(),
        WmEvent::Window(id) => {
            &&& post.pending_windows@ == pre.pending_windows@.push(
                PendingWindow { id, initialized: false, title: None, app_id: None },
            )
            &&& post == WindowManager {
                pending_windows: post.pending_windows,
                status: Status::Layout,
                ..pre
            }
            &&& r == Seq::<Request>::empty()
        },
        WmEvent::Output(id, has_layer_shell) => added_ok(post, pre, id, has_layer_shell) && r
            == Seq::<Request>::empty(),
        WmEvent::Seat => {
            &&& post == WindowManager { status: Status::SetupBindings, ..pre }
            &&& r == match pre.config.cursor {
                Some(c) => seq![Request::SetXcursorTheme(c.theme, c.size)],
                None => Seq::empty(),
            }
        },
        WmEvent::SessionLocked => {
            &&& post == WindowManager {
                session_locked: true,
                lock_focus: match pre.spec_focused_window() {
                    Some(w) => Some(w.id),
                    None => None,
                },
                ..pre
            }
            &&& r == Seq::<Request>::empty()
        },
        WmEvent::SessionUnlocked => {
            let after = |m: WindowManager|
                WindowManager {
                    session_locked: false,
                    lock_focus: None,
                    layer_shell_focus: LayerShellFocus::Unfocused,
                    last_focused_window: None,
                    needs_refocus: true,
                    status: Status::Layout,
                    ..m
                };
            &&& r == seq![Request::ManageDirty]
            &&& match pre.lock_focus {
                Some(l) => match pre.spec_locate(l) {
                    Some((o, w, k)) => exists|f: WindowManager|
                        #[trigger] f.is_focused_at(&pre, o, w, k) && post == after(f),
                    None => post == after(pre),
                },
                None => post == after(pre),
            }
        },
    }
}

/// Handle a global event of the window manager.
pub fn window_manager_event(wm: &mut WindowManager, event: WmEvent, reqs: &mut Vec<Request>)
    requires
        old(wm).inv(),
    ensures
        final(wm).inv(),
        final(reqs)@.len() >= old(reqs)@.len(),
        final(reqs)@.take(old(reqs)@.len() as int) == old(reqs)@,
        wm_event_ok(*final(wm), *old(wm), event, final(reqs)@.skip(old(reqs)@.len() as int)),
{
    let ghost pre = *wm;
    let ghost start = old(reqs)@;
    proof {
        assert(reqs@.skip(start.len() as int) =~= Seq::<Request>::empty());
        assert(reqs@.take(start.len() as int) =~= start);
    }
    match event {
        WmEvent::Finished => {
            wm.should_exit_loop = true;
            proof {
                assert(wm_event_ok(*wm, pre, event, reqs@.skip(start.len() as int)));
            }
        },
        WmEvent::Window(id) => {
            wm.pending_windows.push(
                PendingWindow { id, initialized: false, title: None, app_id: None },
            );
            wm.status = Status::Layout;
            proof {
                assert(wm_event_ok(*wm, pre, event, reqs@.skip(start.len() as int)));
            }
        },
        WmEvent::Output(id, has_layer_shell) => {
            crate::output::add(wm, id, has_layer_shell);
            proof {
                assert(wm_event_ok(*wm, pre, event, reqs@.skip(start.len() as int)));
            }
        },
        WmEvent::Seat => {
            crate::seat::seat_added(wm, reqs);
            wm.status = Status::SetupBindings;
            proof {
                assert(reqs@.skip(start.len() as int) =~= match pre.config.cursor {
                    Some(c) => seq![Request::SetXcursorTheme(c.theme, c.size)],
                    None => Seq::empty(),
                });
                assert(reqs@.take(start.len() as int) =~= start);
                assert(wm_event_ok(*wm, pre, event, reqs@.skip(start.len() as int)));
            }
        },
        WmEvent::SessionLocked => {
            wm.session_locked = true;
            let focus = match wm.focused_window() {
                Some(w) => Some(w.id),
                None => None,
            };
            wm.lock_focus = focus;
            proof {
                assert(wm_event_ok(*wm, pre, event, reqs@.skip(start.len() as int)));
            }
        },
        WmEvent::SessionUnlocked => {
            let ghost unlocked = *wm;
            match wm.lock_focus {
                Some(l) => {
                    match wm.locate_window(l) {
                        Some((o, w, k)) => {
                            proof {
                                assert(unlocked.has_win(o as int, w as int, k as int));
                            }
                            wm.focus_at(o, w, k);
                            let ghost f = *wm;
                            proof {
                                assert forall|q: int| 0 <= q < f.outputs@.len() implies crate::wm::output_wf(#[trigger] f.outputs@[q]) by {
                                    assert(crate::wm::output_wf(unlocked.outputs@[q]));
                                }
                            }
                        },
                        None => {},
                    }
                },
                None => {},
            }
            let ghost focused = *wm;
            wm.session_locked = false;
            wm.lock_focus = None;
            wm.layer_shell_focus = LayerShellFocus::Unfocused;
            wm.last_focused_window = None;
            wm.needs_refocus = true;
            wm.status = Status::Layout;
            reqs.push(Request::ManageDirty);
            proof {
                assert(reqs@.skip(start.len() as int) =~= seq![Request::ManageDirty]);
                assert(reqs@.take(start.len() as int) =~= start);
                assert(*wm == WindowManager {
                    session_locked: false,
                    lock_focus: None,
                    layer_shell_focus: LayerShellFocus::Unfocused,
                    last_focused_window: None,
                    needs_refocus: true,
                    status: Status::Layout,
                    ..focused
                });
                match pre.lock_focus {
                    Some(l) => match pre.spec_locate(l) {
                        Some((o, w, k)) => {
                            assert(focused.is_focused_at(&pre, o, w, k));
                        },
                        None => {
                            assert(focused == pre);
                        },
                    },
                    None => {
                        assert(focused == pre);
                    },
                }
                assert(wm_event_ok(*wm, pre, event, reqs@.skip(start.len() as int)));
            }
        },
    }
}

} // verus!

verus! {

/// Whether a manage sequence can run on `wm` (see `manage_defined`).
pub fn manage_is_defined(wm: &WindowManager) -> (r: bool)
    requires
        wm.inv(),
    ensures
        r == manage_defined(*wm),
{
    let pointer = if wm.needs_setup_bindings {
        false
    } else {
        match wm.status {
            Status::PointerAction(_) => true,
            _ => false,
        }
    };
    if !pointer {
        return true;
    }
    crate::seat::pointer_action_is_defined(wm)
}

} // verus!

verus! {

/// Locking and unlocking the session gives focus back to the window that
/// had it: when window ids are unique and a window was focused, after a
/// lock followed by an unlock the same window, at the same place, is
/// focused again.
pub proof fn lemma_lock_unlock_restores_focus(
    pre: WindowManager,
    locked: WindowManager,
    post: WindowManager,
    r1: Seq<Request>,
    r2: Seq<Request>,
)
    requires
        pre.inv(),
        pre.ids_unique(),
        pre.spec_focused_position() is Some,
        wm_event_ok(locked, pre, WmEvent::SessionLocked, r1),
        wm_event_ok(post, locked, WmEvent::SessionUnlocked, r2),
    ensures
        post.spec_focused_position() == pre.spec_focused_position(),
        post.spec_focused_window() == pre.spec_focused_window(),
        !post.session_locked,
{
    let (o, w, k) = pre.spec_focused_position().unwrap();
    let id = pre.win(o, w, k).id;
    assert(pre.spec_focused_window() == Some(pre.win(o, w, k)));
    assert(locked.lock_focus == Some(id));
    assert(locked.outputs == pre.outputs);
    pre.lemma_unique_locate(o, w, k);
    assert(locked.same_ids(&pre));
    locked.lemma_same_ids_locate(&pre, id);
    assert(locked.spec_locate(id) == Some((o, w, k)));
    let f = choose|f: WindowManager| #[trigger] f.is_focused_at(&locked, o, w, k) && post == WindowManager {
        session_locked: false,
        lock_focus: None,
        layer_shell_focus: LayerShellFocus::Unfocused,
        last_focused_window: None,
        needs_refocus: true,
        status: Status::Layout,
        ..f
    };
    assert(f.outputs@[o] == f.outputs@[o]);
    assert(post.outputs == f.outputs);
    assert(post.focused_output_idx == Some(o as usize));
    assert(post.outputs@[o].focused_workspace_idx == w);
    assert(post.ws(o, w).focused_window_idx == Some(k as usize));
    assert(post.ws(o, w).window_list@ == pre.ws(o, w).window_list@);
}

/// Unlocking focuses the window that was focused when the session was
/// locked, wherever it lives by then (`cur` is the state at unlock, with
/// the window remembered at lock), and asks for focus to be sent anew.
pub proof fn lemma_unlock_focuses_locked_window(
    pre: WindowManager,
    locked: WindowManager,
    cur: WindowManager,
    post: WindowManager,
    r1: Seq<Request>,
    r2: Seq<Request>,
    x: crate::types::Window,
    o: int,
    w: int,
    k: int,
)
    requires
        pre.spec_focused_window() == Some(x),
        wm_event_ok(locked, pre, WmEvent::SessionLocked, r1),
        cur.lock_focus == locked.lock_focus,
        cur.spec_locate(x.id) == Some((o, w, k)),
        wm_event_ok(post, cur, WmEvent::SessionUnlocked, r2),
    ensures
        !post.session_locked,
        post.focused_output_idx == Some(o as usize),
        post.outputs@[o].focused_workspace_idx == w,
        post.ws(o, w).focused_window_idx == Some(k as usize),
        post.win(o, w, k).id == x.id,
        post.lock_focus is None,
        post.last_focused_window is None,
        post.needs_refocus,
        post.layer_shell_focus == LayerShellFocus::Unfocused,
        post.status == Status::Layout,
        r2 == seq![Request::ManageDirty],
{
    assert(locked.lock_focus == Some(x.id));
    cur.lemma_locate_some(x.id);
    let f = choose|f: WindowManager| #[trigger] f.is_focused_at(&cur, o, w, k) && post == WindowManager {
        session_locked: false,
        lock_focus: None,
        layer_shell_focus: LayerShellFocus::Unfocused,
        last_focused_window: None,
        needs_refocus: true,
        status: Status::Layout,
        ..f
    };
    assert(post.outputs == f.outputs);
    assert(post.ws(o, w).window_list@ == cur.ws(o, w).window_list@);
}

} // verus!
