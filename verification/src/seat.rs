//! Seat handling: pointer bindings, pointer operations (move and resize of
//! floating windows), hover and click during the overview, click-to-focus,
//! and layer-shell keyboard focus tracking.
use vstd::prelude::*;

use crate::actions::PointerAction;
use crate::keybinding::{PointerBindingEntry, XkbBinding};
use crate::layout::{update, update_ok};
use crate::keybinding::relaid_out;
use crate::overview::{leave_reqs, select_index, spec_select};
use crate::types::{Config, ObjectId, OverviewHome, OverviewState, Rectangle, Request, Status, Window, WindowGeom};
use crate::wm::{lemma_inv_same_shape, lemma_inv_win_replaced, LayerShellFocus, WindowManager};

verus! {

/// What the seat reports.
#[derive(Clone, Copy, Debug, PartialEq, Eq, Structural)]
pub enum SeatEvent {
    /// The pointer entered a window.
    PointerEnter(ObjectId),
    /// The pointer left the window it was in.
    PointerLeave,
    /// The user clicked (or otherwise interacted with) a window.
    WindowInteraction(ObjectId),
    /// The pointer moved by (dx, dy) since the pointer operation started.
    OpDelta(i32, i32),
    /// The pointer operation ended.
    OpRelease,
    /// Any other seat event; none changes the window manager.
    Other,
}

/// The first index of an entry of `entries` showing window `id`.
pub open spec fn entry_index(entries: Seq<crate::types::OverviewEntry>, id: ObjectId) -> Option<int> {
    if exists|i: int|
        0 <= i < entries.len() && entries[i].window == id && forall|j: int|
            0 <= j < i ==> entries[j].window != id {
        Some(
            choose|i: int|
                0 <= i < entries.len() && entries[i].window == id && forall|j: int|
                    0 <= j < i ==> entries[j].window != id,
        )
    } else {
        None
    }
}

fn entry_index_exec(entries: &Vec<crate::types::OverviewEntry>, id: ObjectId) -> (r: Option<usize>)
    ensures
        match r {
            Some(i) => entry_index(entries@, id) == Some(i as int) && i < entries@.len(),
            None => entry_index(entries@, id) is None,
        },
{
    let mut i: usize = 0;
    while i < entries.len()
        invariant
            i <= entries@.len(),
            forall|j: int| 0 <= j < i ==> entries@[j].window != id,
        decreases entries@.len() - i,
    {
        if entries[i].window == id {
            proof {
                let c = choose|c: int|
                    0 <= c < entries@.len() && entries@[c].window == id && forall|j: int|
                        0 <= j < c ==> entries@[j].window != id;
                assert(0 <= i < entries@.len() && entries@[i as int].window == id && forall|j: int|
                    0 <= j < i ==> entries@[j].window != id);
                if c < i {
                    assert(entries@[c].window != id);
                } else if c > i {
                    assert(entries@[i as int].window != id);
                }
            }
            return Some(i);
        }
        i = i + 1;
    }
    None
}

/// The first position of a window with id `id` in `ws`.
pub open spec fn window_index(ws: Seq<Window>, id: ObjectId) -> Option<int> {
    if exists|i: int|
        0 <= i < ws.len() && ws[i].id == id && forall|j: int| 0 <= j < i ==> ws[j].id != id {
        Some(
            choose|i: int|
                0 <= i < ws.len() && ws[i].id == id && forall|j: int| 0 <= j < i ==> ws[j].id != id,
        )
    } else {
        None
    }
}

fn window_index_exec(ws: &Vec<Window>, id: ObjectId) -> (r: Option<usize>)
    ensures
        match r {
            Some(i) => window_index(ws@, id) == Some(i as int) && i < ws@.len(),
            None => window_index(ws@, id) is None,
        },
{
    let mut i: usize = 0;
    while i < ws.len()
        invariant
            i <= ws@.len(),
            forall|j: int| 0 <= j < i ==> ws@[j].id != id,
        decreases ws@.len() - i,
    {
        if ws[i].id == id {
            proof {
                let c = choose|c: int|
                    0 <= c < ws@.len() && ws@[c].id == id && forall|j: int| 0 <= j < c ==> ws@[j].id != id;
                assert(0 <= i < ws@.len() && ws@[i as int].id == id && forall|j: int|
                    0 <= j < i ==> ws@[j].id != id);
                if c < i {
                    assert(ws@[c].id != id);
                } else if c > i {
                    assert(ws@[i as int].id != id);
                }
            }
            return Some(i);
        }
        i = i + 1;
    }
    None
}

/// Whether window `id` is in the focused workspace of output `t` of `wm`.
pub open spec fn shown_on(wm: WindowManager, t: int, id: ObjectId) -> bool {
    window_index(wm.ws(t, wm.outputs@[t].focused_workspace_idx as int).window_list@, id) is Some
}

/// The first output whose focused workspace holds window `id`.
pub open spec fn interaction_output(wm: WindowManager, id: ObjectId) -> Option<int> {
    if exists|t: int|
        0 <= t < wm.outputs@.len() && shown_on(wm, t, id) && forall|u: int|
            0 <= u < t ==> !shown_on(wm, u, id) {
        Some(
            choose|t: int|
                0 <= t < wm.outputs@.len() && shown_on(wm, t, id) && forall|u: int|
                    0 <= u < t ==> !shown_on(wm, u, id),
        )
    } else {
        None
    }
}

/// Clamp `v` into [`lo`, `hi`].
pub open spec fn clamp(v: i32, lo: i32, hi: i32) -> i32 {
    if v < lo {
        lo
    } else if v > hi {
        hi
    } else {
        v
    }
}

fn clamp_exec(v: i32, lo: i32, hi: i32) -> (r: i32)
    requires
        lo <= hi,
    ensures
        r == clamp(v, lo, hi),
{
    if v < lo {
        lo
    } else if v > hi {
        hi
    } else {
        v
    }
}

/// The geometry of the dragged window after the pointer moved by
/// (`dx`, `dy`) from where the drag started (`origin`): a move keeps the
/// window on the output, a resize keeps its far edges on the output; the
/// window is shown where its floating rectangle now is. Sums are taken in
/// 32-bit wrapping arithmetic, as the release build computes them.
pub open spec fn dragged(
    g: WindowGeom,
    action: PointerAction,
    origin: Rectangle,
    out: Rectangle,
    dx: i32,
    dy: i32,
) -> WindowGeom {
    let right = out.x.wrapping_add(out.width);
    let bottom = out.y.wrapping_add(out.height);
    let floating = match action {
        PointerAction::MoveWindow => Rectangle {
            x: clamp(origin.x.wrapping_add(dx), out.x, right.wrapping_sub(g.current.width)),
            y: clamp(origin.y.wrapping_add(dy), out.y, bottom.wrapping_sub(g.current.height)),
            ..g.floating
        },
        PointerAction::ResizeWindow => Rectangle {
            width: clamp(origin.width.wrapping_add(dx), 0, right.wrapping_sub(g.current.x)),
            height: clamp(origin.height.wrapping_add(dy), 0, bottom.wrapping_sub(g.current.y)),
            ..g.floating
        },
    };
    WindowGeom { floating: floating, current: floating, ..g }
}

/// The clamping bounds of a drag are ordered.
pub open spec fn drag_defined(g: WindowGeom, action: PointerAction, out: Rectangle) -> bool {
    let right = out.x.wrapping_add(out.width);
    let bottom = out.y.wrapping_add(out.height);
    match action {
        PointerAction::MoveWindow => out.x <= right.wrapping_sub(g.current.width) && out.y
            <= bottom.wrapping_sub(g.current.height),
        PointerAction::ResizeWindow => 0 <= right.wrapping_sub(g.current.x) && 0
            <= bottom.wrapping_sub(g.current.y),
    }
}

/// The manager a click focuses from: the workspace left is remembered when
/// the click moves focus to another output `t`.
pub open spec fn click_base(pre: WindowManager, o: usize, w: usize, t: int) -> WindowManager {
    if t != o {
        WindowManager {
            previous_workspace: Some(OverviewHome { output_idx: o, workspace_idx: w }),
            ..pre
        }
    } else {
        pre
    }
}

/// `post` is `pre` after a click on window `id` outside the overview, the
/// focused workspace being (`o`, `w`): a click on the focused window does
/// nothing; a click on a window of a shown workspace (the first output
/// showing it) focuses it and lays out again, remembering the workspace left
/// when the focused output changes; any other click does nothing.
pub open spec fn click_focused<S>(post: WindowManager, pre: WindowManager, o: usize, w: usize, id: ObjectId, scroller: S) -> bool where
    S: Fn(Vec<WindowGeom>, Option<usize>, Rectangle, Rectangle, &Config, i32) -> Vec<WindowGeom>,
 {
    if pre.spec_focused_window() matches Some(fw) && fw.id == id {
        post == pre
    } else {
        match interaction_output(pre, id) {
            None => post == pre,
            Some(t) => {
                let tws = pre.outputs@[t].focused_workspace_idx as int;
                let i = window_index(pre.ws(t, tws).window_list@, id).unwrap();
                exists|f: WindowManager|
                    #[trigger] f.is_focused_at(&click_base(pre, o, w, t), t, tws, i) && relaid_out(
                        post,
                        f,
                        scroller,
                    )
            },
        }
    }
}

/// `post` is `pre` after a click on the entry `i` of its open overview
/// `ov`: the entry is selected and the layout recomputed.
pub open spec fn click_selected<S>(post: WindowManager, pre: WindowManager, ov: OverviewState, i: int, scroller: S) -> bool where
    S: Fn(Vec<WindowGeom>, Option<usize>, Rectangle, Rectangle, &Config, i32) -> Vec<WindowGeom>,
 {
    exists|c: WindowManager|
        #[trigger] spec_select(
            c,
            WindowManager { overview_state: Some(OverviewState { highlighted: i as usize, ..ov }), ..pre },
        ) && relaid_out(post, c, scroller)
}

/// What a seat event does to `pre`, giving `post`, the returned flag
/// `ret` (whether a manage sequence is wanted) and the requests `r`. Every
/// event needs a focused workspace with a focus index, else nothing
/// happens.
pub open spec fn seat_event_ok<S>(
    post: WindowManager,
    pre: WindowManager,
    event: SeatEvent,
    ret: bool,
    r: Seq<Request>,
    bindings: Seq<XkbBinding>,
    scroller: S,
) -> bool where
    S: Fn(Vec<WindowGeom>, Option<usize>, Rectangle, Rectangle, &Config, i32) -> Vec<WindowGeom>,
 {
    match pre.spec_current_ws_idx() {
        None => post == pre && !ret && r == Seq::<Request>::empty(),
        Some((o, w)) => match pre.ws(o as int, w as int).focused_window_idx {
            None => post == pre && !ret && r == Seq::<Request>::empty(),
            Some(k) => match event {
                SeatEvent::PointerEnter(id) => match pre.overview_state {
                    Some(ov) => match entry_index(ov.entries@, id) {
                        Some(i) => if ov.highlighted != i {
                            &&& post == WindowManager {
                                overview_state: Some(OverviewState { highlighted: i as usize, ..ov }),
                                status: Status::Overview,
                                ..pre
                            }
                            &&& ret
                            &&& r == Seq::<Request>::empty()
                        } else {
                            post == pre && !ret && r == Seq::<Request>::empty()
                        },
                        None => post == pre && !ret && r == Seq::<Request>::empty(),
                    },
                    None => post == pre && !ret && r == Seq::<Request>::empty(),
                },
                SeatEvent::WindowInteraction(id) => !ret && match pre.overview_state {
                    Some(ov) => match entry_index(ov.entries@, id) {
                        Some(i) => {
                            &&& r == leave_reqs(pre, bindings)
                            &&& click_selected(post, pre, ov, i, scroller)
                        },
                        None => post == pre && r == Seq::<Request>::empty(),
                    },
                    None => {
                        &&& r == Seq::<Request>::empty()
                        &&& click_focused(post, pre, o, w, id, scroller)
                    },
                },
                SeatEvent::OpDelta(dx, dy) => {
                    &&& !ret
                    &&& r == Seq::<Request>::empty()
                    &&& match pre.status {
                        Status::PointerAction(action) => if k < pre.ws(o as int, w as int).window_list@.len()
                            && pre.win(o as int, w as int, k as int).geom.drag_origin is Some {
                            let win = pre.win(o as int, w as int, k as int);
                            post.is_win_replaced(
                                &pre,
                                o as int,
                                w as int,
                                k as int,
                                Window {
                                    geom: dragged(
                                        win.geom,
                                        action,
                                        win.geom.drag_origin.unwrap(),
                                        pre.outputs@[o as int].rectangle,
                                        dx,
                                        dy,
                                    ),
                                    ..win
                                },
                            )
                        } else {
                            post == pre
                        },
                        _ => post == pre,
                    }
                },
                SeatEvent::OpRelease => {
                    &&& !ret
                    &&& r == Seq::<Request>::empty()
                    &&& if k < pre.ws(o as int, w as int).window_list@.len() {
                        let win = pre.win(o as int, w as int, k as int);
                        post.is_win_replaced(
                            &WindowManager { status: Status::Idle, ..pre },
                            o as int,
                            w as int,
                            k as int,
                            Window { geom: WindowGeom { drag_origin: None, ..win.geom }, ..win },
                        )
                    } else {
                        post == WindowManager { status: Status::Idle, ..pre }
                    }
                },
                SeatEvent::PointerLeave | SeatEvent::Other => post == pre && !ret && r
                    == Seq::<Request>::empty(),
            },
        },
    }
}

/// A seat event can be handled: a drag's clamping bounds are ordered, and a
/// click during the overview on a shown window can be confirmed.
pub open spec fn seat_event_defined(pre: WindowManager, event: SeatEvent) -> bool {
    match pre.spec_current_ws_idx() {
        None => true,
        Some((o, w)) => match pre.ws(o as int, w as int).focused_window_idx {
            None => true,
            Some(k) => match event {
                SeatEvent::OpDelta(dx, dy) => match pre.status {
                    Status::PointerAction(action) => k < pre.ws(o as int, w as int).window_list@.len()
                        && pre.win(o as int, w as int, k as int).geom.drag_origin is Some ==> drag_defined(
                        pre.win(o as int, w as int, k as int).geom,
                        action,
                        pre.outputs@[o as int].rectangle,
                    ),
                    _ => true,
                },
                _ => true,
            },
        },
    }
}

fn interaction<S>(
    wm: &mut WindowManager,
    bindings: &Vec<XkbBinding>,
    id: ObjectId,
    o: usize,
    w: usize,
    scroller: &S,
    reqs: &mut Vec<Request>,
) where
    S: Fn(Vec<WindowGeom>, Option<usize>, Rectangle, Rectangle, &Config, i32) -> Vec<WindowGeom>,

    requires
        old(wm).inv(),
        old(wm).spec_current_ws_idx() == Some((o, w)),
        forall|v: Vec<WindowGeom>, f: Option<usize>, a: Rectangle, b: Rectangle, c: &Config, y: i32|
            #[trigger] scroller.requires((v, f, a, b, c, y)),
    ensures
        final(wm).inv(),
        final(reqs)@.len() >= old(reqs)@.len(),
        final(reqs)@.take(old(reqs)@.len() as int) == old(reqs)@,
        ({
            let pre = *old(wm);
            let post = *final(wm);
            let r = final(reqs)@.skip(old(reqs)@.len() as int);
            match pre.overview_state {
                Some(ov) => match entry_index(ov.entries@, id) {
                    Some(i) => {
                        &&& r == leave_reqs(pre, bindings@)
                        &&& click_selected(post, pre, ov, i, *scroller)
                    },
                    None => post == pre && r == Seq::<Request>::empty(),
                },
                None => {
                    &&& r == Seq::<Request>::empty()
                    &&& click_focused(post, pre, o, w, id, *scroller)
                },
            }
        }),
{
    let ghost pre = *wm;
    let ghost start = old(reqs)@;
    proof {
        assert(reqs@.skip(start.len() as int) =~= Seq::<Request>::empty());
        assert(reqs@.take(start.len() as int) =~= start);
    }
    if wm.overview_state.is_some() {
        let idx = match &wm.overview_state {
            Some(ov) => entry_index_exec(&ov.entries, id),
            None => None,
        };
        if let Some(i) = idx {
            select_index(wm, bindings, i, reqs);
            let ghost c = *wm;
            update(wm, scroller);
            let ghost upd = *wm;
            wm.status = Status::Layout;
            proof {
                assert(update_ok(upd, c, *scroller));
                lemma_inv_same_shape(upd, c);
                assert(relaid_out(*wm, c, *scroller));
                assert(reqs@.skip(start.len() as int) =~= leave_reqs(pre, bindings@));
                assert(reqs@.take(start.len() as int) =~= start);
            }
        }
        return;
    }
    match wm.focused_window() {
        Some(fw) => {
            if fw.id == id {
                return;
            }
        },
        None => {},
    }
    proof {
        assert(!(pre.spec_focused_window() matches Some(fw) && fw.id == id));
    }
    let mut t: usize = 0;
    while t < wm.outputs.len()
        invariant
            *wm == pre,
            reqs@ == start,
            start == old(reqs)@,
            pre == *old(wm),
            pre.overview_state is None,
            !(pre.spec_focused_window() matches Some(fw) && fw.id == id),
            pre.inv(),
            pre.spec_current_ws_idx() == Some((o, w)),
            forall|v: Vec<WindowGeom>, f: Option<usize>, a: Rectangle, b: Rectangle, c: &Config, y: i32|
                #[trigger] scroller.requires((v, f, a, b, c, y)),
            t <= pre.outputs@.len(),
            forall|u: int| 0 <= u < t ==> !shown_on(pre, u, id),
        decreases pre.outputs@.len() - t,
    {
        let tws = wm.outputs[t].focused_workspace_idx;
        proof {
            assert(crate::wm::output_wf(pre.outputs@[t as int]));
            assert(pre.has_ws(t as int, tws as int));
        }
        match window_index_exec(&wm.outputs[t].workspace_list[tws].window_list, id) {
            Some(i) => {
                proof {
                    assert(shown_on(pre, t as int, id));
                    let c = choose|c: int|
                        0 <= c < pre.outputs@.len() && shown_on(pre, c, id) && forall|u: int|
                            0 <= u < c ==> !shown_on(pre, u, id);
                    if c < t {
                        assert(!shown_on(pre, c, id));
                    } else if c > t {
                        assert(!shown_on(pre, t as int, id));
                    }
                    assert(interaction_output(pre, id) == Some(t as int));
                }
                if t != o {
                    wm.previous_workspace = Some(OverviewHome { output_idx: o, workspace_idx: w });
                }
                let ghost base = *wm;
                wm.focus_at(t, tws, i);
                let ghost f = *wm;
                proof {
                    assert forall|q: int| 0 <= q < f.outputs@.len() implies crate::wm::output_same_but_focus(#[trigger] f.outputs@[q], base.outputs@[q]) by {
                        if q == t {
                        } else {
                            assert(f.outputs@[q] == base.outputs@[q]);
                        }
                    }
                    assert(f.inv()) by {
                        assert forall|q: int| 0 <= q < f.outputs@.len() implies crate::wm::output_wf(#[trigger] f.outputs@[q]) by {
                            assert(crate::wm::output_wf(base.outputs@[q]));
                        }
                    }
                }
                update(wm, scroller);
                let ghost upd = *wm;
                wm.status = Status::Layout;
                proof {
                    assert(update_ok(upd, f, *scroller));
                    lemma_inv_same_shape(upd, f);
                    assert(reqs@.skip(start.len() as int) =~= Seq::<Request>::empty());
                    assert(reqs@.take(start.len() as int) =~= start);
                    let sbase = click_base(pre, o, w, t as int);
                    assert(sbase == base);
                    assert(window_index(pre.ws(t as int, tws as int).window_list@, id).unwrap() == i);
                    assert(f.is_focused_at(&sbase, t as int, tws as int, i as int));
                    assert(relaid_out(*wm, f, *scroller));
                    assert(!(pre.spec_focused_window() matches Some(fw) && fw.id == id));
                }
                return;
            },
            None => {},
        }
        t = t + 1;
    }
}

fn drag(wm: &mut WindowManager, o: usize, w: usize, k: usize, dx: i32, dy: i32)
    requires
        old(wm).inv(),
        old(wm).has_ws(o as int, w as int),
        match old(wm).status {
            Status::PointerAction(action) => k < old(wm).ws(o as int, w as int).window_list@.len()
                && old(wm).win(o as int, w as int, k as int).geom.drag_origin is Some ==> drag_defined(
                old(wm).win(o as int, w as int, k as int).geom,
                action,
                old(wm).outputs@[o as int].rectangle,
            ),
            _ => true,
        },
    ensures
        final(wm).inv(),
        match old(wm).status {
            Status::PointerAction(action) => if k < old(wm).ws(o as int, w as int).window_list@.len()
                && old(wm).win(o as int, w as int, k as int).geom.drag_origin is Some {
                let win = old(wm).win(o as int, w as int, k as int);
                final(wm).is_win_replaced(
                    &*old(wm),
                    o as int,
                    w as int,
                    k as int,
                    Window {
                        geom: dragged(
                            win.geom,
                            action,
                            win.geom.drag_origin.unwrap(),
                            old(wm).outputs@[o as int].rectangle,
                            dx,
                            dy,
                        ),
                        ..win
                    },
                )
            } else {
                *final(wm) == *old(wm)
            },
            _ => *final(wm) == *old(wm),
        },
{
    let ghost pre = *wm;
    let action = match wm.status {
        Status::PointerAction(a) => a,
        _ => return,
    };
    if k >= wm.outputs[o].workspace_list[w].window_list.len() {
        return;
    }
    let origin = match wm.outputs[o].workspace_list[w].window_list[k].geom.drag_origin {
        Some(r) => r,
        None => return,
    };
    let out = wm.outputs[o].rectangle;
    let mut g = wm.outputs[o].workspace_list[w].window_list[k].geom.duplicate();
    let right = out.x.wrapping_add(out.width);
    let bottom = out.y.wrapping_add(out.height);
    match action {
        PointerAction::MoveWindow => {
            let width = g.current.width;
            let height = g.current.height;
            g.floating.x = clamp_exec(origin.x.wrapping_add(dx), out.x, right.wrapping_sub(width));
            g.floating.y = clamp_exec(origin.y.wrapping_add(dy), out.y, bottom.wrapping_sub(height));
        },
        PointerAction::ResizeWindow => {
            g.floating.width = clamp_exec(origin.width.wrapping_add(dx), 0, right.wrapping_sub(g.current.x));
            g.floating.height = clamp_exec(origin.height.wrapping_add(dy), 0, bottom.wrapping_sub(g.current.y));
        },
    }
    g.current = g.floating;
    proof {
        let win = pre.win(o as int, w as int, k as int);
        assert(g == dragged(win.geom, action, origin, out, dx, dy));
    }
    wm.set_geom(o, w, k, g);
    proof {
        lemma_inv_win_replaced(*wm, pre, o as int, w as int, k as int, Window { geom: g, ..pre.win(o as int, w as int, k as int) });
    }
}

/// Handle a seat event; returns whether a manage sequence is wanted.
/// During the overview, hovering a window highlights it and clicking it
/// selects it; otherwise clicking a window on a shown workspace focuses it.
/// Pointer operations drag the focused floating window until released.
pub fn seat_event<S>(
    wm: &mut WindowManager,
    bindings: &Vec<XkbBinding>,
    event: SeatEvent,
    scroller: &S,
    reqs: &mut Vec<Request>,
) -> (ret: bool) where
    S: Fn(Vec<WindowGeom>, Option<usize>, Rectangle, Rectangle, &Config, i32) -> Vec<WindowGeom>,

    requires
        old(wm).inv(),
        seat_event_defined(*old(wm), event),
        forall|v: Vec<WindowGeom>, f: Option<usize>, a: Rectangle, b: Rectangle, c: &Config, y: i32|
            #[trigger] scroller.requires((v, f, a, b, c, y)),
    ensures
        final(wm).inv(),
        final(reqs)@.len() >= old(reqs)@.len(),
        final(reqs)@.take(old(reqs)@.len() as int) == old(reqs)@,
        seat_event_ok(
            *final(wm),
            *old(wm),
            event,
            ret,
            final(reqs)@.skip(old(reqs)@.len() as int),
            bindings@,
            *scroller,
        ),
{
    let ghost pre = *wm;
    let ghost start = old(reqs)@;
    proof {
        assert(reqs@.skip(start.len() as int) =~= Seq::<Request>::empty());
        assert(reqs@.take(start.len() as int) =~= start);
    }
    let (o, w) = match wm.current_ws_idx() {
        Some(p) => p,
        None => return false,
    };
    proof {
        assert(crate::wm::output_wf(pre.outputs@[o as int]));
        assert(pre.has_ws(o as int, w as int));
    }
    let k = match wm.outputs[o].workspace_list[w].focused_window_idx {
        Some(k) => k,
        None => return false,
    };
    match event {
        SeatEvent::PointerEnter(id) => {
            match &mut wm.overview_state {
                Some(ov) => {
                    match entry_index_exec(&ov.entries, id) {
                        Some(i) => {
                            if ov.highlighted != i {
                                ov.highlighted = i;
                                wm.status = Status::Overview;
                                return true;
                            }
                        },
                        None => {},
                    }
                },
                None => {},
            }
            false
        },
        SeatEvent::WindowInteraction(id) => {
            interaction(wm, bindings, id, o, w, scroller, reqs);
            false
        },
        SeatEvent::OpDelta(dx, dy) => {
            drag(wm, o, w, k, dx, dy);
            false
        },
        SeatEvent::OpRelease => {
            wm.status = Status::Idle;
            let ghost base = *wm;
            if k < wm.outputs[o].workspace_list[w].window_list.len() {
                let mut g = wm.outputs[o].workspace_list[w].window_list[k].geom.duplicate();
                g.drag_origin = None;
                wm.set_geom(o, w, k, g);
                proof {
                    lemma_inv_win_replaced(*wm, base, o as int, w as int, k as int, Window { geom: g, ..base.win(o as int, w as int, k as int) });
                }
            }
            false
        },
        _ => false,
    }
}

} // verus!

verus! {

/// Where the layer shell says keyboard focus went.
#[derive(Clone, Copy, Debug, PartialEq, Eq, Structural)]
pub enum LayerShellSeatEvent {
    FocusExclusive,
    FocusNonExclusive,
    FocusNone,
}

/// Track layer-shell keyboard focus; returns whether a manage sequence is
/// wanted. When exclusive focus is revoked, the cached focus is forgotten so
/// that the focused window is focused again.
pub fn layer_shell_seat_event(wm: &mut WindowManager, event: LayerShellSeatEvent) -> (ret: bool)
    requires
        old(wm).inv(),
    ensures
        final(wm).inv(),
        match event {
            LayerShellSeatEvent::FocusExclusive => {
                &&& *final(wm) == WindowManager {
                    layer_shell_focus: LayerShellFocus::Exclusive,
                    status: Status::Layout,
                    ..*old(wm)
                }
                &&& !ret
            },
            LayerShellSeatEvent::FocusNonExclusive => {
                &&& *final(wm) == WindowManager {
                    layer_shell_focus: LayerShellFocus::NonExclusive,
                    status: Status::Layout,
                    ..*old(wm)
                }
                &&& !ret
            },
            LayerShellSeatEvent::FocusNone => {
                &&& *final(wm) == WindowManager {
                    layer_shell_focus: LayerShellFocus::Unfocused,
                    last_focused_window: None,
                    needs_refocus: true,
                    status: Status::Layout,
                    ..*old(wm)
                }
                &&& ret
            },
        },
{
    match event {
        LayerShellSeatEvent::FocusExclusive => {
            wm.layer_shell_focus = LayerShellFocus::Exclusive;
            wm.status = Status::Layout;
            false
        },
        LayerShellSeatEvent::FocusNonExclusive => {
            wm.layer_shell_focus = LayerShellFocus::NonExclusive;
            wm.status = Status::Layout;
            false
        },
        LayerShellSeatEvent::FocusNone => {
            wm.layer_shell_focus = LayerShellFocus::Unfocused;
            wm.last_focused_window = None;
            wm.needs_refocus = true;
            wm.status = Status::Layout;
            true
        },
    }
}

/// `v`, or zero when negative.
pub open spec fn non_negative(v: i32) -> i32 {
    if v < 0 {
        0
    } else {
        v
    }
}

/// The requests that start a pointer operation on window `win` with border
/// width `bw`: no clipping, its size proposed without the borders (none
/// when fullscreen), and its content placed inside them (in 32-bit wrapping
/// arithmetic, as the release build computes it).
pub open spec fn op_reqs(win: Window, bw: i32) -> Seq<Request> {
    let border = if win.geom.is_fullscreen {
        0i32
    } else {
        bw
    };
    let c = win.geom.current;
    seq![
        Request::SetClipBox(win.id, 0, 0, 0, 0),
        Request::ProposeDimensions(
            win.id,
            non_negative(c.width.wrapping_sub(border.wrapping_mul(2))),
            non_negative(c.height.wrapping_sub(border.wrapping_mul(2))),
        ),
        Request::SetPosition(win.id, c.x.wrapping_add(border), c.y.wrapping_add(border)),
    ]
}

/// The requests of the pointer operation on the focused window of `wm`.
pub open spec fn pointer_action_reqs(wm: WindowManager) -> Seq<Request> {
    match wm.spec_current_ws_idx() {
        Some((o, w)) => match wm.ws(o as int, w as int).focused_window_idx {
            Some(k) => op_reqs(wm.win(o as int, w as int, k as int), wm.config.border.width as i32),
            None => Seq::empty(),
        },
        None => Seq::empty(),
    }
}

/// The focused workspace's focus names a window.
pub open spec fn pointer_action_defined(wm: WindowManager) -> bool {
    match wm.spec_current_ws_idx() {
        Some((o, w)) => match wm.ws(o as int, w as int).focused_window_idx {
            Some(k) => k < wm.ws(o as int, w as int).window_list@.len(),
            None => true,
        },
        None => true,
    }
}

/// Send the current geometry of the focused window for a pointer operation
/// (called at the start of the manage sequence).
pub fn pointer_action(wm: &mut WindowManager, reqs: &mut Vec<Request>)
    requires
        old(wm).inv(),
        pointer_action_defined(*old(wm)),
    ensures
        *final(wm) == *old(wm),
        final(reqs)@ == old(reqs)@ + pointer_action_reqs(*old(wm)),
{
    let ghost start = old(reqs)@;
    let (o, w) = match wm.current_ws_idx() {
        Some(p) => p,
        None => {
            proof {
                assert(reqs@ =~= start + pointer_action_reqs(*wm));
            }
            return;
        },
    };
    proof {
        assert(crate::wm::output_wf(wm.outputs@[o as int]));
    }
    let k = match wm.outputs[o].workspace_list[w].focused_window_idx {
        Some(k) => k,
        None => {
            proof {
                assert(reqs@ =~= start + pointer_action_reqs(*wm));
            }
            return;
        },
    };
    let bw = wm.config.border.width as i32;
    let win = &wm.outputs[o].workspace_list[w].window_list[k];
    reqs.push(Request::SetClipBox(win.id, 0, 0, 0, 0));
    let border: i32 = if win.geom.is_fullscreen {
        0
    } else {
        bw
    };
    let c = win.geom.current;
    let width = c.width.wrapping_sub(border.wrapping_mul(2));
    let height = c.height.wrapping_sub(border.wrapping_mul(2));
    reqs.push(
        Request::ProposeDimensions(
            win.id,
            if width < 0 {
                0
            } else {
                width
            },
            if height < 0 {
                0
            } else {
                height
            },
        ),
    );
    reqs.push(Request::SetPosition(win.id, c.x.wrapping_add(border), c.y.wrapping_add(border)));
    proof {
        assert(reqs@ =~= start + pointer_action_reqs(*wm));
    }
}

/// The index of the first pointer binding registered under `proxy`.
pub open spec fn pointer_binding_index(bindings: Seq<PointerBindingEntry>, proxy: ObjectId) -> Option<int> {
    if exists|i: int|
        0 <= i < bindings.len() && bindings[i].proxy == proxy && forall|j: int|
            0 <= j < i ==> bindings[j].proxy != proxy {
        Some(
            choose|i: int|
                0 <= i < bindings.len() && bindings[i].proxy == proxy && forall|j: int|
                    0 <= j < i ==> bindings[j].proxy != proxy,
        )
    } else {
        None
    }
}

proof fn lemma_pointer_binding_index(bindings: Seq<PointerBindingEntry>, proxy: ObjectId, i: int)
    requires
        0 <= i < bindings.len(),
        bindings[i].proxy == proxy,
        forall|j: int| 0 <= j < i ==> bindings[j].proxy != proxy,
    ensures
        pointer_binding_index(bindings, proxy) == Some(i),
{
    let c = choose|c: int|
        0 <= c < bindings.len() && bindings[c].proxy == proxy && forall|j: int|
            0 <= j < c ==> bindings[j].proxy != proxy;
    if c < i {
        assert(bindings[c].proxy != proxy);
    } else if c > i {
        assert(bindings[i].proxy != proxy);
    }
}

/// The action of the pointer binding registered under `proxy`, if any.
pub fn pointer_binding_action(bindings: &Vec<PointerBindingEntry>, proxy: ObjectId) -> (r: Option<PointerAction>)
    ensures
        match pointer_binding_index(bindings@, proxy) {
            Some(i) => 0 <= i < bindings@.len() && r == Some(bindings@[i].action),
            None => r is None,
        },
{
    let mut i: usize = 0;
    while i < bindings.len()
        invariant
            i <= bindings@.len(),
            forall|j: int| 0 <= j < i ==> bindings@[j].proxy != proxy,
        decreases bindings@.len() - i,
    {
        if bindings[i].proxy == proxy {
            proof {
                lemma_pointer_binding_index(bindings@, proxy, i as int);
            }
            return Some(bindings[i].action);
        }
        i = i + 1;
    }
    None
}

/// A pointer binding pressed on `pre`: the focused window, when it is
/// floating and not fullscreen, starts being dragged from where it is now,
/// and the pointer operation of the binding's action begins.
pub open spec fn pointer_press_ok(post: WindowManager, pre: WindowManager, action: Option<PointerAction>) -> bool {
    match action {
        Some(a) => match pre.spec_focused_position() {
            Some((o, w, k)) => {
                let win = pre.win(o, w, k);
                if !win.geom.is_floating || win.geom.is_fullscreen {
                    post == pre
                } else {
                    post.is_win_replaced(
                        &WindowManager { status: Status::PointerAction(a), ..pre },
                        o,
                        w,
                        k,
                        Window {
                            geom: WindowGeom { drag_origin: Some(win.geom.current), ..win.geom },
                            ..win
                        },
                    )
                }
            },
            None => post == pre,
        },
        None => post == pre,
    }
}

/// Start dragging the focused window with a pressed pointer binding; only a
/// floating, non-fullscreen window can be dragged.
pub fn pointer_binding_pressed(wm: &mut WindowManager, bindings: &Vec<PointerBindingEntry>, proxy: ObjectId)
    requires
        old(wm).inv(),
    ensures
        final(wm).inv(),
        pointer_press_ok(
            *final(wm),
            *old(wm),
            match pointer_binding_index(bindings@, proxy) {
                Some(i) => Some(bindings@[i].action),
                None => None,
            },
        ),
{
    let action = match pointer_binding_action(bindings, proxy) {
        Some(a) => a,
        None => return,
    };
    let (o, w, k) = match wm.focused_position() {
        Some(p) => p,
        None => return,
    };
    let g = wm.outputs[o].workspace_list[w].window_list[k].geom.duplicate();
    if !g.is_floating || g.is_fullscreen {
        return;
    }
    wm.status = Status::PointerAction(action);
    let ghost base = *wm;
    let current = g.current;
    wm.set_geom(o, w, k, WindowGeom { drag_origin: Some(current), ..g });
    proof {
        lemma_inv_win_replaced(*wm, base, o as int, w as int, k as int, Window { geom: WindowGeom { drag_origin: Some(current), ..g }, ..base.win(o as int, w as int, k as int) });
    }
}

} // verus!

verus! {

/// A new seat appeared: the configured cursor theme is sent to it.
pub fn seat_added(wm: &WindowManager, reqs: &mut Vec<Request>)
    ensures
        final(reqs)@ == old(reqs)@ + match wm.config.cursor {
            Some(c) => seq![Request::SetXcursorTheme(c.theme, c.size)],
            None => Seq::empty(),
        },
{
    let ghost start = old(reqs)@;
    match &wm.config.cursor {
        Some(cursor) => {
            reqs.push(Request::SetXcursorTheme(cursor.theme.clone(), cursor.size));
        },
        None => {},
    }
    proof {
        assert(reqs@ =~= start + match wm.config.cursor {
            Some(c) => seq![Request::SetXcursorTheme(c.theme, c.size)],
            None => Seq::empty(),
        });
    }
}

} // verus!

verus! {

/// Whether a seat event can be handled (see `seat_event_defined`).
pub fn seat_event_is_defined(wm: &WindowManager, event: SeatEvent) -> (r: bool)
    requires
        wm.inv(),
    ensures
        r == seat_event_defined(*wm, event),
{
    let (o, w) = match wm.current_ws_idx() {
        Some(p) => p,
        None => return true,
    };
    proof {
        assert(crate::wm::output_wf(wm.outputs@[o as int]));
    }
    let k = match wm.outputs[o].workspace_list[w].focused_window_idx {
        Some(k) => k,
        None => return true,
    };
    match event {
        SeatEvent::OpDelta(_, _) => {
            let action = match wm.status {
                Status::PointerAction(a) => a,
                _ => return true,
            };
            if k >= wm.outputs[o].workspace_list[w].window_list.len() {
                return true;
            }
            let g = &wm.outputs[o].workspace_list[w].window_list[k].geom;
            if g.drag_origin.is_none() {
                return true;
            }
            let out = wm.outputs[o].rectangle;
            let right = out.x.wrapping_add(out.width);
            let bottom = out.y.wrapping_add(out.height);
            match action {
                PointerAction::MoveWindow => out.x <= right.wrapping_sub(g.current.width) && out.y
                    <= bottom.wrapping_sub(g.current.height),
                PointerAction::ResizeWindow => 0 <= right.wrapping_sub(g.current.x) && 0
                    <= bottom.wrapping_sub(g.current.y),
            }
        },
        _ => true,
    }
}

/// Whether a pointer operation can start on the focused window (see
/// `pointer_action_defined`).
pub fn pointer_action_is_defined(wm: &WindowManager) -> (r: bool)
    requires
        wm.inv(),
    ensures
        r == pointer_action_defined(*wm),
{
    let (o, w) = match wm.current_ws_idx() {
        Some(p) => p,
        None => return true,
    };
    proof {
        assert(crate::wm::output_wf(wm.outputs@[o as int]));
    }
    match wm.outputs[o].workspace_list[w].focused_window_idx {
        Some(k) => k < wm.outputs[o].workspace_list[w].window_list.len(),
        None => true,
    }
}

/// Dragging follows the pointer: while a move keeps the window on the
/// output, its position is the drag origin moved by exactly the pointer's
/// delta, and it never leaves the output; a larger delta never moves it
/// less far. Resizing likewise grows the size by exactly the delta while
/// the far edges stay on the output. (Sums are assumed to fit in 32 bits.)
pub proof fn lemma_drag_follows_pointer(
    g: WindowGeom,
    origin: Rectangle,
    out: Rectangle,
    dx: i32,
    dy: i32,
    dx2: i32,
)
    requires
        drag_defined(g, PointerAction::MoveWindow, out),
        i32::MIN <= out.x + out.width <= i32::MAX,
        i32::MIN <= out.y + out.height <= i32::MAX,
        i32::MIN <= out.x + out.width - g.current.width <= i32::MAX,
        i32::MIN <= out.y + out.height - g.current.height <= i32::MAX,
        i32::MIN <= origin.x + dx <= i32::MAX,
        i32::MIN <= origin.y + dy <= i32::MAX,
        i32::MIN <= origin.x + dx2 <= i32::MAX,
        i32::MIN <= origin.width + dx <= i32::MAX,
        i32::MIN <= origin.height + dy <= i32::MAX,
        i32::MIN <= out.x + out.width - g.current.x <= i32::MAX,
        i32::MIN <= out.y + out.height - g.current.y <= i32::MAX,
    ensures
        ({
            let m = dragged(g, PointerAction::MoveWindow, origin, out, dx, dy).floating;
            &&& out.x <= m.x <= out.x + out.width - g.current.width
            &&& out.y <= m.y <= out.y + out.height - g.current.height
            &&& out.x <= origin.x + dx <= out.x + out.width - g.current.width ==> m.x == origin.x + dx
            &&& out.y <= origin.y + dy <= out.y + out.height - g.current.height ==> m.y == origin.y + dy
            &&& m.width == g.floating.width && m.height == g.floating.height
            &&& dragged(g, PointerAction::MoveWindow, origin, out, dx, dy).current == m
        }),
        dx <= dx2 ==> dragged(g, PointerAction::MoveWindow, origin, out, dx, dy).floating.x <= dragged(
            g,
            PointerAction::MoveWindow,
            origin,
            out,
            dx2,
            dy,
        ).floating.x,
        ({
            let z = dragged(g, PointerAction::ResizeWindow, origin, out, dx, dy).floating;
            &&& 0 <= origin.width + dx <= out.x + out.width - g.current.x ==> z.width == origin.width + dx
            &&& 0 <= origin.height + dy <= out.y + out.height - g.current.y ==> z.height == origin.height + dy
            &&& z.x == g.floating.x && z.y == g.floating.y
        }),
{
}

} // verus!
