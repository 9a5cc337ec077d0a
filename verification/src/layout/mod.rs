//! Layout coordinator: removed-output handling, detached restore, window
//! migration, focus and borders, and committing layout targets.
use vstd::prelude::*;

use crate::traversal::{
    lemma_reqs_outputs_step, lemma_reqs_windows_step, lemma_reqs_workspaces_step, lemma_take_all,
    reqs_outputs, reqs_windows, reqs_workspaces,
};
use crate::types::{Config, Output, PendingWindow, Rectangle, Request, Window, WindowGeom, Workspace, ObjectId};
use crate::wm::{lex_lt, output_same_but_workspaces, output_same_fields, output_wf, LayerShellFocus, WindowManager};
use crate::types::{name_view, DetachedOutput, WORKSPACE_COUNT};
use crate::wm::{detached_wf, ws_same_view, NamedDetached};

pub mod common;
pub mod floating;

verus! {

/// Floating windows are raised above the tiled ones.
pub open spec fn raise_req(win: Window) -> Seq<Request> {
    if win.geom.is_floating {
        seq![Request::PlaceTop(win.id)]
    } else {
        Seq::empty()
    }
}

/// Raise every floating window above all tiled windows, in output,
/// workspace, window order.
pub fn raise_floating_windows(wm: &WindowManager, reqs: &mut Vec<Request>)
    ensures
        final(reqs)@ == old(reqs)@ + reqs_outputs(
            wm.outputs@,
            |o: int, w: int, k: int, win: Window| raise_req(win),
        ),
{
    let ghost f = |o: int, w: int, k: int, win: Window| raise_req(win);
    let ghost start = old(reqs)@;
    let mut o: usize = 0;
    while o < wm.outputs.len()
        invariant
            o <= wm.outputs@.len(),
            f == (|o: int, w: int, k: int, win: Window| raise_req(win)),
            reqs@ == start + reqs_outputs(wm.outputs@.take(o as int), f),
        decreases wm.outputs@.len() - o,
    {
        let ghost fo = |w: int, k: int, win: Window| f(o as int, w, k, win);
        let ghost wss = wm.outputs@[o as int].workspace_list@;
        let mut w: usize = 0;
        while w < wm.outputs[o].workspace_list.len()
            invariant
                o < wm.outputs@.len(),
                wss == wm.outputs@[o as int].workspace_list@,
                w <= wss.len(),
                f == (|o: int, w: int, k: int, win: Window| raise_req(win)),
                fo == (|w: int, k: int, win: Window| f(o as int, w, k, win)),
                reqs@ == start + reqs_outputs(wm.outputs@.take(o as int), f) + reqs_workspaces(
                    wss.take(w as int),
                    fo,
                ),
            decreases wss.len() - w,
        {
            let ghost fow = |k: int, win: Window| fo(w as int, k, win);
            let ghost ws = wss[w as int].window_list@;
            let mut k: usize = 0;
            while k < wm.outputs[o].workspace_list[w].window_list.len()
                invariant
                    o < wm.outputs@.len(),
                    wss == wm.outputs@[o as int].workspace_list@,
                    w < wss.len(),
                    ws == wss[w as int].window_list@,
                    k <= ws.len(),
                    f == (|o: int, w: int, k: int, win: Window| raise_req(win)),
                    fo == (|w: int, k: int, win: Window| f(o as int, w, k, win)),
                    fow == (|k: int, win: Window| fo(w as int, k, win)),
                    reqs@ == start + reqs_outputs(wm.outputs@.take(o as int), f) + reqs_workspaces(
                        wss.take(w as int),
                        fo,
                    ) + reqs_windows(ws.take(k as int), fow),
                decreases ws.len() - k,
            {
                let win = &wm.outputs[o].workspace_list[w].window_list[k];
                if win.geom.is_floating {
                    reqs.push(Request::PlaceTop(win.id));
                }
                proof {
                    lemma_reqs_windows_step(ws, fow, k as int);
                    assert(fow(k as int, ws[k as int]) == raise_req(ws[k as int]));
                }
                k = k + 1;
            }
            proof {
                lemma_take_all(ws);
                lemma_reqs_workspaces_step(wss, fo, w as int);
            }
            w = w + 1;
        }
        proof {
            lemma_take_all(wss);
            lemma_reqs_outputs_step(wm.outputs@, f, o as int);
        }
        o = o + 1;
    }
    proof {
        lemma_take_all(wm.outputs@);
    }
}


/// The focused index after the entry at `removed_idx` is swap-removed from
/// a list of `old_len` entries: a focus on the removed entry moves to the
/// entry now at that place (or the new last one), or is cleared when
/// nothing is left; a focus past it moves down by one.
pub open spec fn spec_fixup(focused: Option<usize>, removed_idx: usize, old_len: usize) -> Option<
    usize,
> {
    match focused {
        Some(foi) => if foi == removed_idx {
            if old_len > 1 {
                Some(if removed_idx <= (old_len - 2) as usize {
                    removed_idx
                } else {
                    (old_len - 2) as usize
                })
            } else {
                None
            }
        } else if foi > removed_idx {
            Some((foi - 1) as usize)
        } else {
            Some(foi)
        },
        None => None,
    }
}

/// Fix up `focused` after `removed_idx` is swap-removed from a list of
/// `old_len` entries.
pub fn fixup_indices_after_output_removal(
    focused: &mut Option<usize>,
    removed_idx: usize,
    old_len: usize,
)
    ensures
        *final(focused) == spec_fixup(*old(focused), removed_idx, old_len),
{
    if let Some(foi) = *focused {
        if foi == removed_idx {
            if old_len > 1 {
                let last = old_len - 2;
                *focused = Some(if removed_idx <= last {
                    removed_idx
                } else {
                    last
                });
            } else {
                *focused = None;
            }
        } else if foi > removed_idx {
            *focused = Some(foi - 1);
        }
    }
}

/// A focused index that was valid before a swap-remove is valid after it,
/// and it is cleared only when the last entry went away.
pub proof fn lemma_fixup_keeps_focus_valid(focused: Option<usize>, removed_idx: usize, old_len: usize)
    requires
        removed_idx < old_len,
        match focused {
            Some(f) => f < old_len,
            None => true,
        },
    ensures
        match spec_fixup(focused, removed_idx, old_len) {
            Some(f) => f < old_len - 1,
            None => focused is None || old_len == 1,
        },
{
}

/// The caches of what was sent for a window, cleared.
pub open spec fn spec_reset_sent_caches(g: WindowGeom) -> WindowGeom {
    WindowGeom {
        sent_visible: None,
        sent_current: None,
        sent_clip: None,
        sent_border_focused: None,
        sent_border_width: None,
        ..g
    }
}

/// Forget what was sent for a window, so that everything is sent anew.
pub fn reset_sent_caches(geom: &mut WindowGeom)
    ensures
        *final(geom) == spec_reset_sent_caches(*old(geom)),
{
    geom.sent_visible = None;
    geom.sent_current = None;
    geom.sent_clip = None;
    geom.sent_border_focused = None;
    geom.sent_border_width = None;
}

/// Whether the border of a window must be (re)sent.
pub open spec fn border_needed(g: WindowGeom, is_focused: bool, config: Config) -> bool {
    g.sent_border_focused != Some(is_focused) || g.sent_border_width != Some(config.border.width)
}

/// The border request for a window, when one is needed.
pub open spec fn border_reqs(id: ObjectId, g: WindowGeom, is_focused: bool, config: Config) -> Seq<
    Request,
> {
    if border_needed(g, is_focused, config) {
        seq![Request::SetBorders { window: id, width: config.border.width as i32, focused: is_focused }]
    } else {
        Seq::empty()
    }
}

/// The window's caches after its border was brought up to date.
pub open spec fn spec_border_geom(g: WindowGeom, is_focused: bool, config: Config) -> WindowGeom {
    if border_needed(g, is_focused, config) {
        WindowGeom {
            sent_border_focused: Some(is_focused),
            sent_border_width: Some(config.border.width),
            ..g
        }
    } else {
        g
    }
}

/// Send the window's border when its focus state or the border width
/// changed since the last time.
pub fn apply_window_border(
    window: ObjectId,
    geom: &mut WindowGeom,
    is_focused: bool,
    config: &Config,
    reqs: &mut Vec<Request>,
)
    ensures
        *final(geom) == spec_border_geom(*old(geom), is_focused, *config),
        final(reqs)@ == old(reqs)@ + border_reqs(window, *old(geom), is_focused, *config),
{
    let need = match geom.sent_border_focused {
        Some(b) => b != is_focused,
        None => true,
    } || match geom.sent_border_width {
        Some(w) => w != config.border.width,
        None => true,
    };
    if !need {
        return;
    }
    reqs.push(
        Request::SetBorders { window, width: config.border.width as i32, focused: is_focused },
    );
    geom.sent_border_focused = Some(is_focused);
    geom.sent_border_width = Some(config.border.width);
}

/// `a` and `b` differ by at most 4.
pub open spec fn near(a: i32, b: i32) -> bool {
    -4 <= a - b <= 4
}

fn near_exec(a: i32, b: i32) -> (r: bool)
    ensures
        r == near(a, b),
{
    let d: i64 = a as i64 - b as i64;
    -4 <= d && d <= 4
}

/// A window sitting at (or within 4 pixels of) the output rectangle still
/// holds compositor-side fullscreen.
pub open spec fn at_fullscreen_rect(g: WindowGeom, output_rect: Rectangle) -> bool {
    g.is_fullscreen || (near(g.current.x, output_rect.x) && near(g.current.y, output_rect.y) && near(
        g.current.width,
        output_rect.width,
    ) && near(g.current.height, output_rect.height))
}

/// Release fullscreen where it may still be held; close windows that are
/// closing.
pub open spec fn release_reqs(win: Window, output_rect: Rectangle) -> Seq<Request> {
    (if at_fullscreen_rect(win.geom, output_rect) {
        seq![Request::ExitFullscreen(win.id)]
    } else {
        Seq::empty()
    }) + (if win.geom.is_closing {
        seq![Request::Close(win.id)]
    } else {
        Seq::empty()
    })
}

/// On a surviving output, release stale fullscreen and close the windows
/// that are closing, in workspace and window order.
pub fn exit_fullscreen_and_close_closing(
    wm: &WindowManager,
    output_idx: usize,
    reqs: &mut Vec<Request>,
)
    requires
        output_idx < wm.outputs@.len(),
    ensures
        final(reqs)@ == old(reqs)@ + reqs_workspaces(
            wm.outputs@[output_idx as int].workspace_list@,
            |w: int, k: int, win: Window| release_reqs(win, wm.outputs@[output_idx as int].rectangle),
        ),
{
    let output_rect = wm.outputs[output_idx].rectangle;
    let ghost wss = wm.outputs@[output_idx as int].workspace_list@;
    let ghost f = |w: int, k: int, win: Window| release_reqs(win, output_rect);
    let ghost start = old(reqs)@;
    let mut w: usize = 0;
    while w < wm.outputs[output_idx].workspace_list.len()
        invariant
            output_idx < wm.outputs@.len(),
            wss == wm.outputs@[output_idx as int].workspace_list@,
            output_rect == wm.outputs@[output_idx as int].rectangle,
            f == (|w: int, k: int, win: Window| release_reqs(win, output_rect)),
            w <= wss.len(),
            reqs@ == start + reqs_workspaces(wss.take(w as int), f),
        decreases wss.len() - w,
    {
        let ghost fw = |k: int, win: Window| f(w as int, k, win);
        let ghost ws = wss[w as int].window_list@;
        let mut k: usize = 0;
        while k < wm.outputs[output_idx].workspace_list[w].window_list.len()
            invariant
                output_idx < wm.outputs@.len(),
                wss == wm.outputs@[output_idx as int].workspace_list@,
                output_rect == wm.outputs@[output_idx as int].rectangle,
                f == (|w: int, k: int, win: Window| release_reqs(win, output_rect)),
                fw == (|k: int, win: Window| f(w as int, k, win)),
                w < wss.len(),
                ws == wss[w as int].window_list@,
                k <= ws.len(),
                reqs@ == start + reqs_workspaces(wss.take(w as int), f) + reqs_windows(
                    ws.take(k as int),
                    fw,
                ),
            decreases ws.len() - k,
        {
            let window = &wm.outputs[output_idx].workspace_list[w].window_list[k];
            let pos = window.geom.current;
            let at_fullscreen_rect = window.geom.is_fullscreen || (near_exec(pos.x, output_rect.x)
                && near_exec(pos.y, output_rect.y) && near_exec(pos.width, output_rect.width)
                && near_exec(pos.height, output_rect.height));
            let ghost before = reqs@;
            if at_fullscreen_rect {
                reqs.push(Request::ExitFullscreen(window.id));
            }
            if window.geom.is_closing {
                reqs.push(Request::Close(window.id));
            }
            proof {
                lemma_reqs_windows_step(ws, fw, k as int);
                assert(reqs@ == before + release_reqs(ws[k as int], output_rect));
            }
            k = k + 1;
        }
        proof {
            lemma_take_all(ws);
            lemma_reqs_workspaces_step(wss, f, w as int);
        }
        w = w + 1;
    }
    proof {
        lemma_take_all(wss);
    }
}


/// The window carrying `name` as the output it came from; with
/// `keep_existing`, a name it already carries stays.
pub open spec fn retag(win: Window, name: Option<String>, keep_existing: bool) -> Window {
    let new_name = if keep_existing && win.geom.former_output_name is Some {
        win.geom.former_output_name
    } else {
        name
    };
    Window { geom: WindowGeom { former_output_name: new_name, ..win.geom }, ..win }
}

/// A migrating fullscreen window is asked to leave fullscreen.
pub open spec fn migrate_exit_reqs(win: Window) -> Seq<Request> {
    if win.geom.is_fullscreen {
        seq![Request::ExitFullscreen(win.id)]
    } else {
        Seq::empty()
    }
}

/// The focus of a workspace after windows were appended to it: an
/// unfocused workspace focuses the first appended window.
pub open spec fn focus_after_append(focus: Option<usize>, len: nat, added: nat) -> Option<usize> {
    match focus {
        Some(f) => Some(f),
        None => if added > 0 {
            Some(len as usize)
        } else {
            None
        },
    }
}

/// Move every window of `src` to the end of `dst`, in order, tagging each
/// with `name`; an unfocused `dst` focuses the first one that arrives.
fn move_all_windows(
    src: &mut Vec<Window>,
    dst: &mut Workspace,
    name: &Option<String>,
    keep_existing: bool,
    reqs: &mut Vec<Request>,
)
    ensures
        final(src)@.len() == 0,
        final(dst).window_list@ == old(dst).window_list@ + old(src)@.map_values(
            |win: Window| retag(win, *name, keep_existing),
        ),
        final(dst).focused_window_idx == focus_after_append(
            old(dst).focused_window_idx,
            old(dst).window_list@.len(),
            old(src)@.len(),
        ),
        final(dst).layout == old(dst).layout,
        final(dst).is_floating == old(dst).is_floating,
        final(reqs)@ == old(reqs)@ + reqs_windows(
            old(src)@,
            |k: int, win: Window| migrate_exit_reqs(win),
        ),
{
    let ghost src0 = old(src)@;
    let ghost dst0 = old(dst).window_list@;
    let ghost focus0 = old(dst).focused_window_idx;
    let ghost start = old(reqs)@;
    let ghost f = |k: int, win: Window| migrate_exit_reqs(win);
    let ghost g = |win: Window| retag(win, *name, keep_existing);
    let total = src.len();
    let mut n: usize = 0;
    while src.len() > 0
        invariant
            n <= src0.len(),
            total == src0.len(),
            src@ == src0.skip(n as int),
            dst.window_list@ == dst0 + src0.take(n as int).map_values(g),
            dst.focused_window_idx == focus_after_append(focus0, dst0.len(), n as nat),
            dst.layout == old(dst).layout,
            dst.is_floating == old(dst).is_floating,
            f == (|k: int, win: Window| migrate_exit_reqs(win)),
            g == (|win: Window| retag(win, *name, keep_existing)),
            reqs@ == start + reqs_windows(src0.take(n as int), f),
        decreases src@.len(),
    {
        let mut window = src.remove(0);
        proof {
            assert(window == src0[n as int]);
            lemma_reqs_windows_step(src0, f, n as int);
            assert(src0.skip(n as int).drop_first() =~= src0.skip(n + 1));
        }
        if window.geom.is_fullscreen {
            reqs.push(Request::ExitFullscreen(window.id));
        }
        let keep = keep_existing && window.geom.former_output_name.is_some();
        if !keep {
            window.geom.former_output_name = name.clone();
        }
        let ghost dst_before = dst.window_list@;
        dst.window_list.push(window);
        if dst.focused_window_idx.is_none() {
            dst.focused_window_idx = Some(dst.window_list.len() - 1);
        }
        proof {
            assert(src0.take(n + 1).map_values(g) =~= src0.take(n as int).map_values(g).push(
                g(src0[n as int]),
            ));
        }
        n = n + 1;
    }
    proof {
        lemma_take_all(src0);
    }
}


/// Workspace `w` of `dst` after the windows of workspace `w` of `src` were
/// appended to it with their names tagged.
pub open spec fn merged_ws_ok(
    after: Workspace,
    dst: Workspace,
    src: Workspace,
    name: Option<String>,
    keep_existing: bool,
) -> bool {
    &&& after.window_list@ == dst.window_list@ + src.window_list@.map_values(
        |win: Window| retag(win, name, keep_existing),
    )
    &&& after.focused_window_idx == focus_after_append(
        dst.focused_window_idx,
        dst.window_list@.len(),
        src.window_list@.len(),
    )
    &&& after.layout == dst.layout
    &&& after.is_floating == dst.is_floating
}

/// A workspace emptied of its windows, with no focus.
pub open spec fn emptied_ws_ok(after: Workspace, before: Workspace) -> bool {
    &&& after.window_list@.len() == 0
    &&& after.focused_window_idx is None
    &&& after.layout == before.layout
    &&& after.is_floating == before.is_floating
}

/// Migrate all windows of a removed output to a surviving output,
/// workspace by workspace, tagging each with the removed output's name.
pub fn migrate_output_windows(
    wm: &mut WindowManager,
    removed_idx: usize,
    survivor_idx: usize,
    reqs: &mut Vec<Request>,
)
    requires
        removed_idx < old(wm).outputs@.len(),
        survivor_idx < old(wm).outputs@.len(),
        removed_idx != survivor_idx,
        output_wf(old(wm).outputs@[removed_idx as int]),
        output_wf(old(wm).outputs@[survivor_idx as int]),
    ensures
        final(wm).same_but_outputs(&*old(wm)),
        final(wm).same_but_workspaces(
            &*old(wm),
            |o: int, w: int| o == removed_idx || o == survivor_idx,
        ),
        forall|w: int|
            0 <= w < WORKSPACE_COUNT ==> {
                &&& emptied_ws_ok(
                    #[trigger] final(wm).ws(removed_idx as int, w),
                    old(wm).ws(removed_idx as int, w),
                )
                &&& merged_ws_ok(
                    final(wm).ws(survivor_idx as int, w),
                    old(wm).ws(survivor_idx as int, w),
                    old(wm).ws(removed_idx as int, w),
                    old(wm).outputs@[removed_idx as int].name,
                    false,
                )
            },
        final(reqs)@ == old(reqs)@ + reqs_workspaces(
            old(wm).outputs@[removed_idx as int].workspace_list@,
            |w: int, k: int, win: Window| migrate_exit_reqs(win),
        ),
{
    let ghost old_wm = *wm;
    let ghost start = old(reqs)@;
    let ghost f = |w: int, k: int, win: Window| migrate_exit_reqs(win);
    let src_name = wm.outputs[removed_idx].name.clone();
    let mut src_wss: Vec<Workspace> = Vec::new();
    std::mem::swap(&mut wm.outputs[removed_idx].workspace_list, &mut src_wss);
    let ghost src0 = src_wss@;
    let mut w: usize = 0;
    while w < WORKSPACE_COUNT
        invariant
            w <= WORKSPACE_COUNT,
            src0 == old_wm.outputs@[removed_idx as int].workspace_list@,
            src0.len() == WORKSPACE_COUNT,
            src_wss@.len() == WORKSPACE_COUNT,
            src_name == old_wm.outputs@[removed_idx as int].name,
            removed_idx < old_wm.outputs@.len(),
            survivor_idx < old_wm.outputs@.len(),
            removed_idx != survivor_idx,
            output_wf(old_wm.outputs@[survivor_idx as int]),
            wm.same_but_outputs(&old_wm),
            wm.outputs@.len() == old_wm.outputs@.len(),
            forall|o: int|
                0 <= o < wm.outputs@.len() && o != removed_idx && o != survivor_idx
                    ==> #[trigger] wm.outputs@[o] == old_wm.outputs@[o],
            output_same_but_workspaces(
                wm.outputs@[survivor_idx as int],
                old_wm.outputs@[survivor_idx as int],
            ),
            wm.outputs@[removed_idx as int].workspace_list@.len() == 0,
            ({
                let o = wm.outputs@[removed_idx as int];
                let p = old_wm.outputs@[removed_idx as int];
                &&& o.id == p.id
                &&& o.has_layer_shell_output == p.has_layer_shell_output
                &&& o.wl_output_version == p.wl_output_version
                &&& o.name == p.name
                &&& o.focused_workspace_idx == p.focused_workspace_idx
                &&& o.rectangle == p.rectangle
                &&& o.non_exclusive == p.non_exclusive
                &&& o.is_removed == p.is_removed
            }),
            forall|v: int|
                0 <= v < w ==> {
                    &&& emptied_ws_ok(#[trigger] src_wss@[v], src0[v])
                    &&& merged_ws_ok(
                        wm.ws(survivor_idx as int, v),
                        old_wm.ws(survivor_idx as int, v),
                        src0[v],
                        src_name,
                        false,
                    )
                },
            forall|v: int| w <= v < WORKSPACE_COUNT ==> #[trigger] src_wss@[v] == src0[v],
            forall|v: int|
                w <= v < WORKSPACE_COUNT ==> #[trigger] wm.ws(survivor_idx as int, v) == old_wm.ws(
                    survivor_idx as int,
                    v,
                ),
            f == (|w: int, k: int, win: Window| migrate_exit_reqs(win)),
            reqs@ == start + reqs_workspaces(src0.take(w as int), f),
        decreases WORKSPACE_COUNT - w,
    {
        let mut list: Vec<Window> = Vec::new();
        std::mem::swap(&mut src_wss[w].window_list, &mut list);
        proof {
            assert(list@ == src0[w as int].window_list@);
            lemma_reqs_workspaces_step(src0, f, w as int);
            assert((|k: int, win: Window| f(w as int, k, win)) =~= (|k: int, win: Window|
                migrate_exit_reqs(win)));
        }
        let ghost before = wm.outputs@[survivor_idx as int].workspace_list@;
        let ghost wm_before = *wm;
        proof {
            assert forall|v: int| w < v < WORKSPACE_COUNT implies before[v] == old_wm.ws(
                survivor_idx as int,
                v,
            ) by {
                assert(wm_before.ws(survivor_idx as int, v) == old_wm.ws(survivor_idx as int, v));
            }
        }
        move_all_windows(
            &mut list,
            &mut wm.outputs[survivor_idx].workspace_list[w],
            &src_name,
            false,
            reqs,
        );
        proof {
            assert forall|v: int| 0 <= v < WORKSPACE_COUNT && v != w implies wm.ws(
                survivor_idx as int,
                v,
            ) == before[v] by {
                assert(wm.outputs@[survivor_idx as int].workspace_list@[v] == before[v]);
            }
        }
        src_wss[w].focused_window_idx = None;
        w = w + 1;
    }
    std::mem::swap(&mut wm.outputs[removed_idx].workspace_list, &mut src_wss);
    proof {
        lemma_take_all(src0);
    }
}


/// Closing every window of some workspaces.
pub open spec fn close_reqs(win: Window) -> Seq<Request> {
    seq![Request::Close(win.id)]
}

/// Some detached entry is kept under `name`.
pub open spec fn has_detached(ds: Seq<NamedDetached>, name: Seq<char>) -> bool {
    exists|i: int| 0 <= i < ds.len() && (#[trigger] ds[i]).name@ == name
}

/// The index of the detached entry kept under `name`.
pub open spec fn detached_index(ds: Seq<NamedDetached>, name: Seq<char>) -> int {
    choose|i: int| 0 <= i < ds.len() && (#[trigger] ds[i]).name@ == name
}

/// Detached entries have distinct names.
pub open spec fn detached_names_distinct(ds: Seq<NamedDetached>) -> bool {
    forall|i: int, j: int|
        0 <= i < j < ds.len() ==> #[trigger] ds[i].name@ != #[trigger] ds[j].name@
}

/// Find the entry kept under `name`.
fn find_detached(ds: &Vec<NamedDetached>, name: &String) -> (r: Option<usize>)
    ensures
        match r {
            Some(i) => i < ds@.len() && ds@[i as int].name@ == name@ && has_detached(ds@, name@)
                && (detached_names_distinct(ds@) ==> detached_index(ds@, name@) == i),
            None => !has_detached(ds@, name@),
        },
{
    let mut i: usize = 0;
    while i < ds.len()
        invariant
            i <= ds@.len(),
            forall|j: int| 0 <= j < i ==> (#[trigger] ds@[j]).name@ != name@,
        decreases ds@.len() - i,
    {
        if ds[i].name == *name {
            proof {
                let c = detached_index(ds@, name@);
                assert(0 <= c < ds@.len() && ds@[c].name@ == name@);
                if detached_names_distinct(ds@) {
                    if c < i {
                        assert(ds@[c].name@ != name@);
                    } else if c > i {
                        assert(ds@[i as int].name@ != ds@[c].name@);
                    }
                }
            }
            return Some(i);
        }
        i = i + 1;
    }
    None
}

/// The requests `f` gives for the windows of the workspaces in `wss`.
fn close_workspaces(wss: &Vec<Workspace>, reqs: &mut Vec<Request>)
    ensures
        final(reqs)@ == old(reqs)@ + reqs_workspaces(
            wss@,
            |w: int, k: int, win: Window| close_reqs(win),
        ),
{
    let ghost f = |w: int, k: int, win: Window| close_reqs(win);
    let ghost start = old(reqs)@;
    let mut w: usize = 0;
    while w < wss.len()
        invariant
            w <= wss@.len(),
            f == (|w: int, k: int, win: Window| close_reqs(win)),
            reqs@ == start + reqs_workspaces(wss@.take(w as int), f),
        decreases wss@.len() - w,
    {
        let ghost fw = |k: int, win: Window| f(w as int, k, win);
        let ghost ws = wss@[w as int].window_list@;
        let mut k: usize = 0;
        while k < wss[w].window_list.len()
            invariant
                w < wss@.len(),
                ws == wss@[w as int].window_list@,
                k <= ws.len(),
                f == (|w: int, k: int, win: Window| close_reqs(win)),
                fw == (|k: int, win: Window| f(w as int, k, win)),
                reqs@ == start + reqs_workspaces(wss@.take(w as int), f) + reqs_windows(
                    ws.take(k as int),
                    fw,
                ),
            decreases ws.len() - k,
        {
            reqs.push(Request::Close(wss[w].window_list[k].id));
            proof {
                lemma_reqs_windows_step(ws, fw, k as int);
            }
            k = k + 1;
        }
        proof {
            lemma_take_all(ws);
            lemma_reqs_workspaces_step(wss@, f, w as int);
        }
        w = w + 1;
    }
    proof {
        lemma_take_all(wss@);
    }
}

/// Where the workspaces of an output called `n` are kept when it is
/// detached: in place of an entry under the same name, else at the end.
pub open spec fn detach_pos(ds: Seq<NamedDetached>, n: Seq<char>) -> int {
    if has_detached(ds, n) {
        detached_index(ds, n)
    } else {
        ds.len() as int
    }
}

/// `post` is `pre` after detaching output `idx`: a named output hands its
/// workspaces and focused workspace to an entry under its name, replacing
/// an earlier one; an unnamed output is left alone. Nothing else changes.
pub open spec fn detach_ok(post: WindowManager, pre: WindowManager, idx: int) -> bool {
    let out = pre.outputs@[idx];
    &&& match out.name {
        None => {
            &&& post.outputs@ == pre.outputs@
            &&& post.detached_outputs@ == pre.detached_outputs@
        },
        Some(n) => {
            let ds = pre.detached_outputs@;
            let after = post.detached_outputs@;
            let pos = detach_pos(ds, n@);
            &&& post.same_outputs_but_list(&pre, idx)
            &&& post.outputs@[idx].workspace_list@.len() == 0
            &&& after.len() == if has_detached(ds, n@) {
                ds.len()
            } else {
                ds.len() + 1
            }
            &&& forall|i: int| 0 <= i < ds.len() && i != pos ==> #[trigger] after[i] == ds[i]
            &&& after[pos].name@ == n@
            &&& after[pos].detached.workspace_list@ == out.workspace_list@
            &&& after[pos].detached.focused_workspace_idx == out.focused_workspace_idx
        },
    }
    &&& post.same_but_outputs_and_detached(&pre)
    &&& detached_names_distinct(post.detached_outputs@)
}

/// The requests of detaching output `idx`: the windows of a replaced entry
/// are closed.
pub open spec fn detach_reqs(pre: WindowManager, idx: int) -> Seq<Request> {
    match pre.outputs@[idx].name {
        Some(n) => if has_detached(pre.detached_outputs@, n@) {
            reqs_workspaces(
                pre.detached_outputs@[detached_index(pre.detached_outputs@, n@)].detached.workspace_list@,
                |w: int, k: int, win: Window| close_reqs(win),
            )
        } else {
            Seq::empty()
        },
        None => Seq::empty(),
    }
}

/// Keep a removed output's workspaces under its name. A previous entry
/// under the same name is replaced and its windows are closed. An output
/// without a name keeps its windows for the cleanup pass.
pub fn detach_output(wm: &mut WindowManager, removed_idx: usize, reqs: &mut Vec<Request>)
    requires
        removed_idx < old(wm).outputs@.len(),
        detached_names_distinct(old(wm).detached_outputs@),
    ensures
        detach_ok(*final(wm), *old(wm), removed_idx as int),
        final(reqs)@ == old(reqs)@ + detach_reqs(*old(wm), removed_idx as int),
{
    let name = match &wm.outputs[removed_idx].name {
        Some(n) => n.clone(),
        None => return,
    };
    let ghost ds = wm.detached_outputs@;
    let mut wss: Vec<Workspace> = Vec::new();
    std::mem::swap(&mut wm.outputs[removed_idx].workspace_list, &mut wss);
    let detached = DetachedOutput {
        workspace_list: wss,
        focused_workspace_idx: wm.outputs[removed_idx].focused_workspace_idx,
    };
    let entry = NamedDetached { name: name.clone(), detached };
    match find_detached(&wm.detached_outputs, &name) {
        Some(i) => {
            let mut slot = entry;
            std::mem::swap(&mut wm.detached_outputs[i], &mut slot);
            close_workspaces(&slot.detached.workspace_list, reqs);
            proof {
                let after = wm.detached_outputs@;
                assert(after[i as int].name@ == ds[i as int].name@);
                assert forall|a: int, b: int| 0 <= a < b < after.len() implies #[trigger] after[a].name@
                    != #[trigger] after[b].name@ by {
                    assert(ds[a].name@ != ds[b].name@);
                    if a == i {
                        assert(after[a].name@ == ds[a].name@);
                    }
                    if b == i {
                        assert(after[b].name@ == ds[b].name@);
                    }
                }
            }
        },
        None => {
            wm.detached_outputs.push(entry);
            proof {
                let after = wm.detached_outputs@;
                assert forall|a: int, b: int| 0 <= a < b < after.len() implies #[trigger] after[a].name@
                    != #[trigger] after[b].name@ by {
                    if b == ds.len() {
                        assert(!has_detached(ds, name@));
                        assert(ds[a].name@ != name@);
                    } else {
                        assert(ds[a].name@ != ds[b].name@);
                    }
                }
            }
        },
    }
}


/// Move a detached output's windows into the fallback output's matching
/// workspaces, tagging the untagged ones with the detached output's name so
/// they can return if it reappears.
pub fn migrate_detached_into(
    wm: &mut WindowManager,
    target_idx: usize,
    key: &String,
    detached: DetachedOutput,
    reqs: &mut Vec<Request>,
)
    requires
        target_idx < old(wm).outputs@.len(),
        output_wf(old(wm).outputs@[target_idx as int]),
        detached_wf(detached),
    ensures
        final(wm).same_but_outputs(&*old(wm)),
        final(wm).same_but_workspaces(&*old(wm), |o: int, w: int| o == target_idx),
        forall|w: int|
            0 <= w < WORKSPACE_COUNT ==> merged_ws_ok(
                #[trigger] final(wm).ws(target_idx as int, w),
                old(wm).ws(target_idx as int, w),
                detached.workspace_list@[w],
                Some(*key),
                true,
            ),
        final(reqs)@ == old(reqs)@ + reqs_workspaces(
            detached.workspace_list@,
            |w: int, k: int, win: Window| migrate_exit_reqs(win),
        ),
{
    let ghost old_wm = *wm;
    let ghost start = old(reqs)@;
    let ghost f = |w: int, k: int, win: Window| migrate_exit_reqs(win);
    let name: Option<String> = Some(key.clone());
    let mut src_wss = detached.workspace_list;
    let ghost src0 = src_wss@;
    let mut w: usize = 0;
    while w < WORKSPACE_COUNT
        invariant
            w <= WORKSPACE_COUNT,
            src0 == detached.workspace_list@,
            src0.len() == WORKSPACE_COUNT,
            src_wss@.len() == WORKSPACE_COUNT,
            name == Some(*key),
            target_idx < old_wm.outputs@.len(),
            output_wf(old_wm.outputs@[target_idx as int]),
            wm.same_but_outputs(&old_wm),
            wm.outputs@.len() == old_wm.outputs@.len(),
            forall|o: int|
                0 <= o < wm.outputs@.len() && o != target_idx ==> #[trigger] wm.outputs@[o]
                    == old_wm.outputs@[o],
            output_same_but_workspaces(
                wm.outputs@[target_idx as int],
                old_wm.outputs@[target_idx as int],
            ),
            forall|v: int|
                0 <= v < w ==> merged_ws_ok(
                    #[trigger] wm.ws(target_idx as int, v),
                    old_wm.ws(target_idx as int, v),
                    src0[v],
                    name,
                    true,
                ),
            forall|v: int| w <= v < WORKSPACE_COUNT ==> #[trigger] src_wss@[v] == src0[v],
            forall|v: int|
                w <= v < WORKSPACE_COUNT ==> #[trigger] wm.ws(target_idx as int, v) == old_wm.ws(
                    target_idx as int,
                    v,
                ),
            f == (|w: int, k: int, win: Window| migrate_exit_reqs(win)),
            reqs@ == start + reqs_workspaces(src0.take(w as int), f),
        decreases WORKSPACE_COUNT - w,
    {
        let mut list: Vec<Window> = Vec::new();
        std::mem::swap(&mut src_wss[w].window_list, &mut list);
        let ghost before = wm.outputs@[target_idx as int].workspace_list@;
        let ghost wm_before = *wm;
        proof {
            assert(list@ == src0[w as int].window_list@);
            assert(wm.ws(target_idx as int, w as int) == old_wm.ws(target_idx as int, w as int));
            lemma_reqs_workspaces_step(src0, f, w as int);
            assert((|k: int, win: Window| f(w as int, k, win)) =~= (|k: int, win: Window|
                migrate_exit_reqs(win)));
            assert forall|v: int| w < v < WORKSPACE_COUNT implies before[v] == old_wm.ws(
                target_idx as int,
                v,
            ) by {
                assert(wm_before.ws(target_idx as int, v) == old_wm.ws(target_idx as int, v));
            }
        }
        move_all_windows(
            &mut list,
            &mut wm.outputs[target_idx].workspace_list[w],
            &name,
            true,
            reqs,
        );
        proof {
            assert forall|v: int| 0 <= v < WORKSPACE_COUNT && v != w implies wm.ws(
                target_idx as int,
                v,
            ) == before[v] by {
                assert(wm.outputs@[target_idx as int].workspace_list@[v] == before[v]);
            }
            assert forall|v: int| 0 <= v < w implies merged_ws_ok(
                #[trigger] wm.ws(target_idx as int, v),
                old_wm.ws(target_idx as int, v),
                src0[v],
                name,
                true,
            ) by {
                assert(wm_before.ws(target_idx as int, v) == before[v]);
            }
        }
        w = w + 1;
    }
    proof {
        lemma_take_all(src0);
    }
}

/// The window was moved away from the output called `name`.
pub open spec fn tagged_for(win: Window, name: Seq<char>) -> bool {
    name_view(win.geom.former_output_name) == Some(name)
}

/// The window with its former output forgotten.
pub open spec fn untag(win: Window) -> Window {
    Window { geom: WindowGeom { former_output_name: None, ..win.geom }, ..win }
}

/// The windows of `s` not tagged for `name`, in order.
pub open spec fn kept_windows(s: Seq<Window>, name: Seq<char>) -> Seq<Window>
    decreases s.len(),
{
    if s.len() == 0 {
        Seq::empty()
    } else {
        kept_windows(s.drop_last(), name) + if tagged_for(s.last(), name) {
            Seq::empty()
        } else {
            seq![s.last()]
        }
    }
}

/// The windows of `s` tagged for `name`, in order, with the tag cleared.
pub open spec fn moved_windows(s: Seq<Window>, name: Seq<char>) -> Seq<Window>
    decreases s.len(),
{
    if s.len() == 0 {
        Seq::empty()
    } else {
        moved_windows(s.drop_last(), name) + if tagged_for(s.last(), name) {
            seq![untag(s.last())]
        } else {
            Seq::empty()
        }
    }
}

/// The focus after the tagged windows among the first `n` of `s` were taken
/// out, last one first: a focus at or past a taken window moves back by one,
/// and is cleared when it was at the front.
pub open spec fn focus_after_taking(focus: Option<usize>, s: Seq<Window>, name: Seq<char>, n: int) -> Option<
    usize,
>
    decreases n,
{
    if n <= 0 {
        focus
    } else {
        let i = n - 1;
        let next = if tagged_for(s[i], name) {
            match focus {
                Some(f) => if f >= i {
                    if f > 0 {
                        Some((f - 1) as usize)
                    } else {
                        None
                    }
                } else {
                    focus
                },
                None => None,
            }
        } else {
            focus
        };
        focus_after_taking(next, s, name, n - 1)
    }
}

proof fn lemma_kept_moved_step(s: Seq<Window>, name: Seq<char>, i: int)
    requires
        0 <= i < s.len(),
    ensures
        kept_windows(s.take(i + 1), name) == kept_windows(s.take(i), name) + if tagged_for(
            s[i],
            name,
        ) {
            Seq::<Window>::empty()
        } else {
            seq![s[i]]
        },
        moved_windows(s.take(i + 1), name) == moved_windows(s.take(i), name) + if tagged_for(
            s[i],
            name,
        ) {
            seq![untag(s[i])]
        } else {
            Seq::<Window>::empty()
        },
{
    assert(s.take(i + 1).drop_last() =~= s.take(i));
}

proof fn lemma_moved_nonempty(s: Seq<Window>, name: Seq<char>)
    ensures
        moved_windows(s, name).len() > 0 <==> exists|i: int|
            0 <= i < s.len() && tagged_for(#[trigger] s[i], name),
        moved_windows(s, name).len() <= s.len(),
    decreases s.len(),
{
    if s.len() > 0 {
        lemma_moved_nonempty(s.drop_last(), name);
        if exists|i: int| 0 <= i < s.len() && tagged_for(#[trigger] s[i], name) {
            let i = choose|i: int| 0 <= i < s.len() && tagged_for(#[trigger] s[i], name);
            if i < s.len() - 1 {
                assert(s.drop_last()[i] == s[i]);
            }
        }
        if exists|i: int|
            0 <= i < s.drop_last().len() && tagged_for(#[trigger] s.drop_last()[i], name) {
            let i = choose|i: int|
                0 <= i < s.drop_last().len() && tagged_for(#[trigger] s.drop_last()[i], name);
            assert(s[i] == s.drop_last()[i]);
        }
    }
}

/// Whether the window was moved away from the output called `name`.
fn is_tagged_for(win: &Window, name: &String) -> (r: bool)
    ensures
        r == tagged_for(*win, name@),
{
    match &win.geom.former_output_name {
        Some(t) => *t == *name,
        None => false,
    }
}

/// The focus after taking out the tagged windows of `ws`, and whether any
/// window is tagged.
fn focus_after_taking_exec(ws: &Workspace, dst_name: &String) -> (r: (Option<usize>, bool))
    ensures
        r.0 == focus_after_taking(
            ws.focused_window_idx,
            ws.window_list@,
            dst_name@,
            ws.window_list@.len() as int,
        ),
        r.1 == (moved_windows(ws.window_list@, dst_name@).len() > 0),
{
    let ghost s0 = ws.window_list@;
    let ghost name = dst_name@;
    let mut focus = ws.focused_window_idx;
    let mut any = false;
    let mut n: usize = ws.window_list.len();
    while n > 0
        invariant
            n <= s0.len(),
            s0 == ws.window_list@,
            name == dst_name@,
            focus_after_taking(focus, s0, name, n as int) == focus_after_taking(
                ws.focused_window_idx,
                s0,
                name,
                s0.len() as int,
            ),
            any == exists|i: int| n <= i < s0.len() && tagged_for(#[trigger] s0[i], name),
        decreases n,
    {
        let i = n - 1;
        let tagged = is_tagged_for(&ws.window_list[i], dst_name);
        if tagged {
            any = true;
            if let Some(f) = focus {
                if f >= i {
                    focus = if f > 0 {
                        Some(f - 1)
                    } else {
                        None
                    };
                }
            }
        }
        proof {
            if any {
                if !tagged {
                    let j = choose|j: int| n <= j < s0.len() && tagged_for(#[trigger] s0[j], name);
                    assert(i <= j);
                }
            }
        }
        n = i;
    }
    proof {
        lemma_moved_nonempty(s0, name);
    }
    (focus, any)
}

/// Split `list` into the windows not tagged for `dst_name` and the tagged
/// ones with their tag cleared, both in order.
fn partition_tagged(list: Vec<Window>, dst_name: &String) -> (r: (Vec<Window>, Vec<Window>))
    ensures
        r.0@ == kept_windows(list@, dst_name@),
        r.1@ == moved_windows(list@, dst_name@),
{
    let ghost s0 = list@;
    let ghost name = dst_name@;
    let mut src_list = list;
    let mut moved: Vec<Window> = Vec::new();
    let mut kept: Vec<Window> = Vec::new();
    let mut m: usize = 0;
    let total = src_list.len();
    while src_list.len() > 0
        invariant
            m <= s0.len(),
            total == s0.len(),
            name == dst_name@,
            src_list@ == s0.skip(m as int),
            kept@ == kept_windows(s0.take(m as int), name),
            moved@ == moved_windows(s0.take(m as int), name),
        decreases src_list@.len(),
    {
        let mut window = src_list.remove(0);
        proof {
            assert(window == s0[m as int]);
            assert(s0.skip(m as int).drop_first() =~= s0.skip(m + 1));
            lemma_kept_moved_step(s0, name, m as int);
        }
        let tagged = is_tagged_for(&window, dst_name);
        if tagged {
            window.geom.former_output_name = None;
            moved.push(window);
        } else {
            kept.push(window);
        }
        m = m + 1;
    }
    proof {
        lemma_take_all(s0);
    }
    (kept, moved)
}

/// Take the windows tagged for `dst_name` out of `ws` (tag cleared, in
/// order), fixing up its focus; `None`, and nothing changed, when no window
/// is tagged.
fn take_tagged(ws: &mut Workspace, dst_name: &String) -> (r: Option<Vec<Window>>)
    ensures
        ({
            let s = old(ws).window_list@;
            let moved = moved_windows(s, dst_name@);
            &&& r is None <==> moved.len() == 0
            &&& r is None ==> *final(ws) == *old(ws)
            &&& r matches Some(m) ==> {
                &&& m@ == moved
                &&& final(ws).window_list@ == kept_windows(s, dst_name@)
                &&& final(ws).focused_window_idx == focus_after_taking(
                    old(ws).focused_window_idx,
                    s,
                    dst_name@,
                    s.len() as int,
                )
                &&& final(ws).layout == old(ws).layout
                &&& final(ws).is_floating == old(ws).is_floating
            }
        }),
{
    let (focus, any) = focus_after_taking_exec(ws, dst_name);
    if !any {
        return None;
    }
    let mut src_list: Vec<Window> = Vec::new();
    std::mem::swap(&mut ws.window_list, &mut src_list);
    let (kept, moved) = partition_tagged(src_list, dst_name);
    ws.window_list = kept;
    ws.focused_window_idx = focus;
    Some(moved)
}

/// Put `moved` in front of the windows of `ws`; an unfocused workspace
/// focuses its first window.
fn prepend_windows(ws: &mut Workspace, moved: Vec<Window>)
    ensures
        final(ws).window_list@ == moved@ + old(ws).window_list@,
        final(ws).focused_window_idx == match old(ws).focused_window_idx {
            Some(f) => Some(f),
            None => Some(0usize),
        },
        final(ws).layout == old(ws).layout,
        final(ws).is_floating == old(ws).is_floating,
{
    let mut front = moved;
    let mut rest: Vec<Window> = Vec::new();
    std::mem::swap(&mut ws.window_list, &mut rest);
    front.append(&mut rest);
    ws.window_list = front;
    if ws.focused_window_idx.is_none() {
        ws.focused_window_idx = Some(0);
    }
}

/// Move the windows of workspace `ws_idx` of output `src_idx` that were
/// moved away from the output called `dst_name` back to the same workspace
/// of output `dst_idx`, at its front and in their order, clearing their tag.
/// Returns whether anything moved.
fn migrate_windows_by_name(
    wm: &mut WindowManager,
    src_idx: usize,
    dst_idx: usize,
    ws_idx: usize,
    dst_name: &String,
) -> (moved_any: bool)
    requires
        src_idx < old(wm).outputs@.len(),
        dst_idx < old(wm).outputs@.len(),
        src_idx != dst_idx,
        output_wf(old(wm).outputs@[src_idx as int]),
        output_wf(old(wm).outputs@[dst_idx as int]),
        ws_idx < WORKSPACE_COUNT,
    ensures
        ({
            let s = old(wm).ws(src_idx as int, ws_idx as int);
            let d = old(wm).ws(dst_idx as int, ws_idx as int);
            let moved = moved_windows(s.window_list@, dst_name@);
            &&& moved_any == (moved.len() > 0)
            &&& final(wm).same_but_outputs(&*old(wm))
            &&& !moved_any ==> {
                &&& final(wm).same_but_workspaces(
                    &*old(wm),
                    |o: int, w: int| o == src_idx && w == ws_idx,
                )
                &&& ws_same_view(final(wm).ws(src_idx as int, ws_idx as int), s)
            }
            &&& moved_any ==> {
                &&& final(wm).same_but_workspaces(
                    &*old(wm),
                    |o: int, w: int| (o == src_idx || o == dst_idx) && w == ws_idx,
                )
                &&& final(wm).ws(src_idx as int, ws_idx as int).window_list@ == kept_windows(
                    s.window_list@,
                    dst_name@,
                )
                &&& final(wm).ws(src_idx as int, ws_idx as int).focused_window_idx
                    == focus_after_taking(
                    s.focused_window_idx,
                    s.window_list@,
                    dst_name@,
                    s.window_list@.len() as int,
                )
                &&& final(wm).ws(src_idx as int, ws_idx as int).layout == s.layout
                &&& final(wm).ws(src_idx as int, ws_idx as int).is_floating == s.is_floating
                &&& final(wm).ws(dst_idx as int, ws_idx as int).window_list@ == moved
                    + d.window_list@
                &&& final(wm).ws(dst_idx as int, ws_idx as int).focused_window_idx == match d.focused_window_idx {
                    Some(f) => Some(f),
                    None => Some(0usize),
                }
                &&& final(wm).ws(dst_idx as int, ws_idx as int).layout == d.layout
                &&& final(wm).ws(dst_idx as int, ws_idx as int).is_floating == d.is_floating
            }
        }),
{
    let ghost old_wm = *wm;
    let any = take_tagged(&mut wm.outputs[src_idx].workspace_list[ws_idx], dst_name);
    match any {
        None => {
            false
        },
        Some(moved) => {
            let ghost mid = *wm;
            prepend_windows(&mut wm.outputs[dst_idx].workspace_list[ws_idx], moved);
            proof {
                assert forall|o: int, w: int|
                    #![trigger wm.ws(o, w)]
                    wm.has_ws(o, w) && !((o == src_idx || o == dst_idx) && w == ws_idx) implies wm.ws(o, w) == old_wm.ws(o, w) by {
                    assert(mid.ws(o, w) == old_wm.ws(o, w));
                }
            }
            true
        },
    }
}


/// Whether the window at position `k` of a workspace counts as focused:
/// during the overview the highlighted window is, otherwise the window at
/// `focus_k` (the focus of the focused workspace of the focused output).
pub open spec fn win_focused(
    k: int,
    win: Window,
    focus_k: Option<usize>,
    ov_highlight: Option<ObjectId>,
    in_overview: bool,
) -> bool {
    if in_overview {
        ov_highlight == Some(win.id)
    } else {
        focus_k == Some(k as usize)
    }
}

/// Border and raise requests for one window of the focus pass.
pub open spec fn focus_win_reqs(
    k: int,
    win: Window,
    focus_k: Option<usize>,
    ov_highlight: Option<ObjectId>,
    in_overview: bool,
    config: Config,
) -> Seq<Request> {
    let f = win_focused(k, win, focus_k, ov_highlight, in_overview);
    border_reqs(win.id, win.geom, f, config) + if f {
        seq![Request::PlaceTop(win.id)]
    } else {
        Seq::empty()
    }
}

/// One window after the focus pass.
pub open spec fn focus_win(
    k: int,
    win: Window,
    focus_k: Option<usize>,
    ov_highlight: Option<ObjectId>,
    in_overview: bool,
    config: Config,
) -> Window {
    Window {
        geom: spec_border_geom(
            win.geom,
            win_focused(k, win, focus_k, ov_highlight, in_overview),
            config,
        ),
        ..win
    }
}

/// Bring the borders of a workspace up to date and raise its focused window.
fn focus_workspace(
    ws: &mut Workspace,
    focus_k: Option<usize>,
    ov_highlight: Option<ObjectId>,
    in_overview: bool,
    config: &Config,
    reqs: &mut Vec<Request>,
)
    ensures
        final(ws).window_list@ == old(ws).window_list@.map(
            |k: int, win: Window| focus_win(k, win, focus_k, ov_highlight, in_overview, *config),
        ),
        final(ws).focused_window_idx == old(ws).focused_window_idx,
        final(ws).layout == old(ws).layout,
        final(ws).is_floating == old(ws).is_floating,
        final(reqs)@ == old(reqs)@ + reqs_windows(
            old(ws).window_list@,
            |k: int, win: Window|
                focus_win_reqs(k, win, focus_k, ov_highlight, in_overview, *config),
        ),
{
    let ghost s0 = old(ws).window_list@;
    let ghost start = old(reqs)@;
    let ghost f = |k: int, win: Window|
        focus_win_reqs(k, win, focus_k, ov_highlight, in_overview, *config);
    let ghost g = |k: int, win: Window| focus_win(k, win, focus_k, ov_highlight, in_overview, *config);
    let mut k: usize = 0;
    while k < ws.window_list.len()
        invariant
            k <= s0.len(),
            ws.window_list@.len() == s0.len(),
            forall|j: int| 0 <= j < k ==> #[trigger] ws.window_list@[j] == g(j, s0[j]),
            forall|j: int| k <= j < s0.len() ==> #[trigger] ws.window_list@[j] == s0[j],
            ws.focused_window_idx == old(ws).focused_window_idx,
            ws.layout == old(ws).layout,
            ws.is_floating == old(ws).is_floating,
            f == (|k: int, win: Window|
                focus_win_reqs(k, win, focus_k, ov_highlight, in_overview, *config)),
            g == (|k: int, win: Window|
                focus_win(k, win, focus_k, ov_highlight, in_overview, *config)),
            reqs@ == start + reqs_windows(s0.take(k as int), f),
        decreases s0.len() - k,
    {
        let window = &mut ws.window_list[k];
        let is_focused = if in_overview {
            match ov_highlight {
                Some(h) => h == window.id,
                None => false,
            }
        } else {
            match focus_k {
                Some(fk) => fk == k,
                None => false,
            }
        };
        apply_window_border(window.id, &mut window.geom, is_focused, config, reqs);
        if is_focused {
            reqs.push(Request::PlaceTop(window.id));
        }
        proof {
            lemma_reqs_windows_step(s0, f, k as int);
        }
        k = k + 1;
    }
    proof {
        lemma_take_all(s0);
        assert(ws.window_list@ =~= s0.map(g));
    }
}

/// The focus of workspace `w` of output `o` when it is the focused
/// workspace of the focused output `foi`, otherwise none.
pub open spec fn ws_focus_k(out: Output, o: int, foi: usize, w: int) -> Option<usize> {
    if o == foi && w == out.focused_workspace_idx {
        out.workspace_list@[w].focused_window_idx
    } else {
        None
    }
}

/// Requests of the focus pass for output `o`.
pub open spec fn focus_output_reqs(
    out: Output,
    o: int,
    foi: usize,
    ov_highlight: Option<ObjectId>,
    in_overview: bool,
    config: Config,
) -> Seq<Request> {
    if out.is_removed {
        Seq::empty()
    } else {
        reqs_workspaces(
            out.workspace_list@,
            |w: int, k: int, win: Window|
                focus_win_reqs(k, win, ws_focus_k(out, o, foi, w), ov_highlight, in_overview, config),
        ) + if o == foi && out.has_layer_shell_output {
            seq![Request::SetDefaultLayerShellOutput(out.id)]
        } else {
            Seq::empty()
        }
    }
}

/// Requests of the focus pass over all outputs.
pub open spec fn focus_outputs_reqs(
    outs: Seq<Output>,
    foi: usize,
    ov_highlight: Option<ObjectId>,
    in_overview: bool,
    config: Config,
) -> Seq<Request>
    decreases outs.len(),
{
    if outs.len() == 0 {
        Seq::empty()
    } else {
        focus_outputs_reqs(outs.drop_last(), foi, ov_highlight, in_overview, config)
            + focus_output_reqs(
            outs.last(),
            outs.len() - 1,
            foi,
            ov_highlight,
            in_overview,
            config,
        )
    }
}

impl WindowManager {
    /// The window the open overview highlights, when it still exists.
    pub open spec fn spec_ov_highlight(&self) -> Option<ObjectId> {
        match self.overview_state {
            Some(ov) => if ov.highlighted < ov.entries@.len() && self.holds_id(
                ov.entries@[ov.highlighted as int].window,
            ) {
                Some(ov.entries@[ov.highlighted as int].window)
            } else {
                None
            },
            None => None,
        }
    }

    /// The window that should hold keyboard focus: the highlighted one
    /// during the overview, else the focused window of the focused
    /// workspace of output `foi`.
    pub open spec fn spec_desired_focus(&self, foi: usize) -> Option<ObjectId> {
        if self.overview_state is Some {
            self.spec_ov_highlight()
        } else {
            let out = self.outputs@[foi as int];
            let ws = out.workspace_list@[out.focused_workspace_idx as int];
            match ws.focused_window_idx {
                Some(k) => if k < ws.window_list@.len() {
                    Some(ws.window_list@[k as int].id)
                } else {
                    None
                },
                None => None,
            }
        }
    }

    /// Whether the focus pass sends focus requests at all.
    pub open spec fn focus_requests_allowed(&self) -> bool {
        self.layer_shell_focus != LayerShellFocus::Exclusive && !self.session_locked
    }

    /// The keyboard-focus requests of the focus pass.
    pub open spec fn focus_change_reqs(&self, foi: usize) -> Seq<Request> {
        let desired = self.spec_desired_focus(foi);
        if self.focus_requests_allowed() && desired != self.last_focused_window {
            match desired {
                Some(w) => seq![Request::FocusWindow(w)],
                None => if self.layer_shell_focus != LayerShellFocus::NonExclusive {
                    seq![Request::ClearFocus]
                } else {
                    Seq::empty()
                },
            }
        } else {
            Seq::empty()
        }
    }
}

/// The highlighted overview window, when it still exists.
fn ov_highlight_exec(wm: &WindowManager) -> (r: Option<ObjectId>)
    ensures
        r == wm.spec_ov_highlight(),
{
    match &wm.overview_state {
        Some(ov) => if ov.highlighted < ov.entries.len() {
            let id = ov.entries[ov.highlighted].window;
            match wm.locate_window(id) {
                Some(_) => {
                    proof {
                        let (o, w, k) = wm.spec_locate(id).unwrap();
                        assert(wm.has_win(o, w, k) && wm.win(o, w, k).id == id);
                    }
                    Some(id)
                },
                None => None,
            }
        } else {
            None
        },
        None => None,
    }
}


/// Workspace `w` of output `o` after the focus pass.
pub open spec fn focus_ws_ok(
    after: Workspace,
    before: Workspace,
    out: Output,
    o: int,
    w: int,
    foi: usize,
    ov_highlight: Option<ObjectId>,
    in_overview: bool,
    config: Config,
) -> bool {
    &&& after.window_list@ == before.window_list@.map(
        |k: int, win: Window|
            focus_win(k, win, ws_focus_k(out, o, foi, w), ov_highlight, in_overview, config),
    )
    &&& after.focused_window_idx == before.focused_window_idx
    &&& after.layout == before.layout
    &&& after.is_floating == before.is_floating
}

/// The focus pass over one (not removed) output.
fn focus_output(
    out: &mut Output,
    o: usize,
    foi: usize,
    ov_highlight: Option<ObjectId>,
    in_overview: bool,
    config: &Config,
    reqs: &mut Vec<Request>,
)
    requires
        !old(out).is_removed,
    ensures
        output_same_but_workspaces(*final(out), *old(out)),
        forall|w: int|
            0 <= w < old(out).workspace_list@.len() ==> focus_ws_ok(
                #[trigger] final(out).workspace_list@[w],
                old(out).workspace_list@[w],
                *old(out),
                o as int,
                w,
                foi,
                ov_highlight,
                in_overview,
                *config,
            ),
        final(reqs)@ == old(reqs)@ + focus_output_reqs(
            *old(out),
            o as int,
            foi,
            ov_highlight,
            in_overview,
            *config,
        ),
{
    let ghost out0 = *out;
    let ghost wss = out0.workspace_list@;
    let ghost start = old(reqs)@;
    let ghost f = |w: int, k: int, win: Window|
        focus_win_reqs(k, win, ws_focus_k(out0, o as int, foi, w), ov_highlight, in_overview, *config);
    let focused_ws = out.focused_workspace_idx;
    let mut w: usize = 0;
    while w < out.workspace_list.len()
        invariant
            w <= wss.len(),
            out.workspace_list@.len() == wss.len(),
            output_same_but_workspaces(*out, out0),
            wss == out0.workspace_list@,
            focused_ws == out0.focused_workspace_idx,
            forall|v: int|
                0 <= v < w ==> focus_ws_ok(
                    #[trigger] out.workspace_list@[v],
                    wss[v],
                    out0,
                    o as int,
                    v,
                    foi,
                    ov_highlight,
                    in_overview,
                    *config,
                ),
            forall|v: int| w <= v < wss.len() ==> #[trigger] out.workspace_list@[v] == wss[v],
            f == (|w: int, k: int, win: Window|
                focus_win_reqs(k, win, ws_focus_k(out0, o as int, foi, w), ov_highlight, in_overview, *config)),
            reqs@ == start + reqs_workspaces(wss.take(w as int), f),
        decreases wss.len() - w,
    {
        let focus_k = if o == foi && w == focused_ws {
            out.workspace_list[w].focused_window_idx
        } else {
            None
        };
        proof {
            lemma_reqs_workspaces_step(wss, f, w as int);
            assert(focus_k == ws_focus_k(out0, o as int, foi, w as int));
            assert((|k: int, win: Window| f(w as int, k, win)) =~= (|k: int, win: Window|
                focus_win_reqs(k, win, focus_k, ov_highlight, in_overview, *config)));
        }
        focus_workspace(&mut out.workspace_list[w], focus_k, ov_highlight, in_overview, config, reqs);
        w = w + 1;
    }
    proof {
        lemma_take_all(wss);
    }
    if o == foi && out.has_layer_shell_output {
        reqs.push(Request::SetDefaultLayerShellOutput(out.id));
    }
}

/// The state after the focus pass of `pre`, whose focused output is `foi`.
pub open spec fn focus_pass_ok(post: WindowManager, pre: WindowManager, foi: usize) -> bool {
    let ovh = pre.spec_ov_highlight();
    let ov = pre.overview_state is Some;
    &&& post.outputs@.len() == pre.outputs@.len()
    &&& forall|o: int|
        0 <= o < pre.outputs@.len() ==> output_same_but_workspaces(
            #[trigger] post.outputs@[o],
            pre.outputs@[o],
        )
    &&& forall|o: int, w: int|
        #![trigger post.ws(o, w)]
        pre.has_ws(o, w) ==> if pre.outputs@[o].is_removed {
            post.ws(o, w) == pre.ws(o, w)
        } else {
            focus_ws_ok(post.ws(o, w), pre.ws(o, w), pre.outputs@[o], o, w, foi, ovh, ov, pre.config)
        }
    &&& post.last_focused_window == if pre.focus_requests_allowed() {
        pre.spec_desired_focus(foi)
    } else {
        pre.last_focused_window
    }
    &&& post.config == pre.config
    &&& post.focused_output_idx == pre.focused_output_idx
    &&& post.previous_workspace == pre.previous_workspace
    &&& post.pending_windows@ == pre.pending_windows@
    &&& post.detached_outputs@ == pre.detached_outputs@
    &&& post.overview_state == pre.overview_state
    &&& post.status == pre.status
    &&& post.needs_refocus == pre.needs_refocus
    &&& post.needs_setup_bindings == pre.needs_setup_bindings
    &&& post.should_exit_loop == pre.should_exit_loop
    &&& post.layer_shell_focus == pre.layer_shell_focus
    &&& post.session_locked == pre.session_locked
    &&& post.lock_focus == pre.lock_focus
    &&& post.needs_pointer_warp == pre.needs_pointer_warp
}

/// Set border colors and keyboard focus to match the focused window and
/// output. Redundant border and focus requests are skipped.
pub fn apply_focus_and_borders(wm: &mut WindowManager, reqs: &mut Vec<Request>)
    requires
        old(wm).inv(),
    ensures
        final(wm).inv(),
        match old(wm).focused_output_idx {
            None => {
                &&& final(reqs)@ == old(reqs)@
                &&& *final(wm) == *old(wm)
            },
            Some(foi) => {
                &&& focus_pass_ok(*final(wm), *old(wm), foi)
                &&& final(reqs)@ == old(reqs)@ + focus_outputs_reqs(
                    old(wm).outputs@,
                    foi,
                    old(wm).spec_ov_highlight(),
                    old(wm).overview_state is Some,
                    old(wm).config,
                ) + old(wm).focus_change_reqs(foi)
            },
        },
{
    let foi = match wm.focused_output_idx {
        Some(i) => i,
        None => return,
    };
    let ghost pre = *wm;
    let ghost start = old(reqs)@;
    let ov_highlight = ov_highlight_exec(wm);
    let in_overview = wm.overview_state.is_some();
    let ghost outs = pre.outputs@;
    let mut o: usize = 0;
    while o < wm.outputs.len()
        invariant
            o <= outs.len(),
            wm.outputs@.len() == outs.len(),
            outs == pre.outputs@,
            pre.inv(),
            foi < outs.len(),
            ov_highlight == pre.spec_ov_highlight(),
            in_overview == (pre.overview_state is Some),
            wm.same_but_outputs(&pre),
            forall|p: int|
                0 <= p < outs.len() ==> output_same_but_workspaces(
                    #[trigger] wm.outputs@[p],
                    outs[p],
                ),
            forall|p: int, w: int|
                #![trigger wm.ws(p, w)]
                0 <= p < o && pre.has_ws(p, w) ==> if outs[p].is_removed {
                    wm.ws(p, w) == pre.ws(p, w)
                } else {
                    focus_ws_ok(wm.ws(p, w), pre.ws(p, w), outs[p], p, w, foi, ov_highlight, in_overview, pre.config)
                },
            forall|p: int| o <= p < outs.len() ==> #[trigger] wm.outputs@[p] == outs[p],
            reqs@ == start + focus_outputs_reqs(
                outs.take(o as int),
                foi,
                ov_highlight,
                in_overview,
                pre.config,
            ),
        decreases outs.len() - o,
    {
        proof {
            assert(outs.take(o + 1).drop_last() =~= outs.take(o as int));
        }
        if !wm.outputs[o].is_removed {
            let ghost before = *wm;
            focus_output(
                &mut wm.outputs[o],
                o,
                foi,
                ov_highlight,
                in_overview,
                &wm.config,
                reqs,
            );
            proof {
                assert forall|p: int, w: int|
                    #![trigger wm.ws(p, w)]
                    0 <= p < o && pre.has_ws(p, w) implies (if outs[p].is_removed {
                        wm.ws(p, w) == pre.ws(p, w)
                    } else {
                        focus_ws_ok(wm.ws(p, w), pre.ws(p, w), outs[p], p, w, foi, ov_highlight, in_overview, pre.config)
                    }) by {
                    assert(before.ws(p, w) == wm.ws(p, w));
                }
            }
        } else {
            proof {
                assert(wm.outputs@[o as int] == outs[o as int]);
                assert forall|w: int| #![trigger wm.ws(o as int, w)] pre.has_ws(o as int, w) implies wm.ws(o as int, w) == pre.ws(o as int, w) by {
                    assert(wm.outputs@[o as int] == outs[o as int]);
                }
            }
        }
        o = o + 1;
    }
    proof {
        lemma_take_all(outs);
    }
    let ghost mid = *wm;
    if wm.layer_shell_focus == LayerShellFocus::Exclusive || wm.session_locked {
        return;
    }
    let desired = if in_overview {
        ov_highlight
    } else {
        let fws = wm.outputs[foi].focused_workspace_idx;
        let ws = &wm.outputs[foi].workspace_list[fws];
        match ws.focused_window_idx {
            Some(k) => if k < ws.window_list.len() {
                Some(ws.window_list[k].id)
            } else {
                None
            },
            None => None,
        }
    };
    proof {
        if !in_overview {
            let fws = pre.outputs@[foi as int].focused_workspace_idx as int;
            assert(wm.ws(foi as int, fws) == wm.outputs@[foi as int].workspace_list@[fws]);
            assert(pre.has_ws(foi as int, fws));
        }
        assert(desired == pre.spec_desired_focus(foi));
    }
    if !crate::types::opt_id_eq(desired, wm.last_focused_window) {
        match desired {
            Some(w) => reqs.push(Request::FocusWindow(w)),
            None => if wm.layer_shell_focus != LayerShellFocus::NonExclusive {
                reqs.push(Request::ClearFocus);
            },
        }
        wm.last_focused_window = desired;
    }
    proof {
        assert forall|p: int, w: int| #![trigger wm.ws(p, w)] pre.has_ws(p, w) implies wm.ws(p, w) == mid.ws(p, w) by {
        }
    }
}


/// A window with its layout target committed: it is now at the target,
/// which is cleared.
pub open spec fn snap_win(win: Window) -> Window {
    match win.geom.finish {
        Some(f) => Window { geom: WindowGeom { current: f, finish: None, ..win.geom }, ..win },
        None => win,
    }
}

/// Committing a window's target places it and tells it whether it is
/// fullscreen.
pub open spec fn snap_reqs(win: Window, output_rect: Rectangle) -> Seq<Request> {
    match win.geom.finish {
        Some(f) => seq![
            Request::PlaceWindow { window: win.id, output_rect },
            if win.geom.is_fullscreen {
                Request::InformFullscreen(win.id)
            } else {
                Request::InformNotFullscreen(win.id)
            },
        ],
        None => Seq::empty(),
    }
}

fn snap_workspace(ws: &mut Workspace, output_rect: Rectangle, reqs: &mut Vec<Request>)
    ensures
        final(ws).window_list@ == old(ws).window_list@.map_values(|win: Window| snap_win(win)),
        final(ws).focused_window_idx == old(ws).focused_window_idx,
        final(ws).layout == old(ws).layout,
        final(ws).is_floating == old(ws).is_floating,
        final(reqs)@ == old(reqs)@ + reqs_windows(
            old(ws).window_list@,
            |k: int, win: Window| snap_reqs(win, output_rect),
        ),
{
    let ghost s0 = old(ws).window_list@;
    let ghost start = old(reqs)@;
    let ghost f = |k: int, win: Window| snap_reqs(win, output_rect);
    let mut k: usize = 0;
    while k < ws.window_list.len()
        invariant
            k <= s0.len(),
            ws.window_list@.len() == s0.len(),
            forall|j: int| 0 <= j < k ==> #[trigger] ws.window_list@[j] == snap_win(s0[j]),
            forall|j: int| k <= j < s0.len() ==> #[trigger] ws.window_list@[j] == s0[j],
            ws.focused_window_idx == old(ws).focused_window_idx,
            ws.layout == old(ws).layout,
            ws.is_floating == old(ws).is_floating,
            f == (|k: int, win: Window| snap_reqs(win, output_rect)),
            reqs@ == start + reqs_windows(s0.take(k as int), f),
        decreases s0.len() - k,
    {
        let window = &mut ws.window_list[k];
        if let Some(finish) = window.geom.finish {
            window.geom.current = finish;
            reqs.push(Request::PlaceWindow { window: window.id, output_rect });
            if window.geom.is_fullscreen {
                reqs.push(Request::InformFullscreen(window.id));
            } else {
                reqs.push(Request::InformNotFullscreen(window.id));
            }
            window.geom.finish = None;
        }
        proof {
            lemma_reqs_windows_step(s0, f, k as int);
        }
        k = k + 1;
    }
    proof {
        lemma_take_all(s0);
        assert(ws.window_list@ =~= s0.map_values(|win: Window| snap_win(win)));
    }
}

/// Requests committing the targets of one output, none for a removed one.
pub open spec fn snap_output_reqs(out: Output) -> Seq<Request> {
    if out.is_removed {
        Seq::empty()
    } else {
        reqs_workspaces(out.workspace_list@, |w: int, k: int, win: Window| snap_reqs(win, out.rectangle))
    }
}

/// Requests committing the targets of all outputs.
pub open spec fn snap_outputs_reqs(outs: Seq<Output>) -> Seq<Request>
    decreases outs.len(),
{
    if outs.len() == 0 {
        Seq::empty()
    } else {
        snap_outputs_reqs(outs.drop_last()) + snap_output_reqs(outs.last())
    }
}

fn snap_output(out: &mut Output, reqs: &mut Vec<Request>)
    ensures
        output_same_but_workspaces(*final(out), *old(out)),
        forall|w: int|
            0 <= w < old(out).workspace_list@.len() ==> ({
                let a = #[trigger] final(out).workspace_list@[w];
                let b = old(out).workspace_list@[w];
                &&& a.window_list@ == b.window_list@.map_values(|win: Window| snap_win(win))
                &&& a.focused_window_idx == b.focused_window_idx
                &&& a.layout == b.layout
                &&& a.is_floating == b.is_floating
            }),
        final(reqs)@ == old(reqs)@ + reqs_workspaces(
            old(out).workspace_list@,
            |w: int, k: int, win: Window| snap_reqs(win, old(out).rectangle),
        ),
{
    let ghost out0 = *out;
    let ghost wss = out0.workspace_list@;
    let ghost start = old(reqs)@;
    let rect = out.rectangle;
    let ghost f = |w: int, k: int, win: Window| snap_reqs(win, rect);
    let mut w: usize = 0;
    while w < out.workspace_list.len()
        invariant
            w <= wss.len(),
            out.workspace_list@.len() == wss.len(),
            output_same_but_workspaces(*out, out0),
            wss == out0.workspace_list@,
            rect == out0.rectangle,
            forall|v: int|
                0 <= v < w ==> ({
                    let a = #[trigger] out.workspace_list@[v];
                    let b = wss[v];
                    &&& a.window_list@ == b.window_list@.map_values(|win: Window| snap_win(win))
                    &&& a.focused_window_idx == b.focused_window_idx
                    &&& a.layout == b.layout
                    &&& a.is_floating == b.is_floating
                }),
            forall|v: int| w <= v < wss.len() ==> #[trigger] out.workspace_list@[v] == wss[v],
            f == (|w: int, k: int, win: Window| snap_reqs(win, rect)),
            reqs@ == start + reqs_workspaces(wss.take(w as int), f),
        decreases wss.len() - w,
    {
        proof {
            lemma_reqs_workspaces_step(wss, f, w as int);
            assert((|k: int, win: Window| f(w as int, k, win)) =~= (|k: int, win: Window|
                snap_reqs(win, rect)));
        }
        snap_workspace(&mut out.workspace_list[w], rect, reqs);
        w = w + 1;
    }
    proof {
        lemma_take_all(wss);
    }
}

/// Commit layout targets immediately: every window with a target on an
/// output that is not removed moves to it, is placed and told whether it is
/// fullscreen, and its target is cleared.
/// `post` is `pre` with every layout target on a live output committed.
pub open spec fn snapped_ok(post: WindowManager, pre: WindowManager) -> bool {
    &&& post.same_but_outputs(&pre)
    &&& post.outputs@.len() == pre.outputs@.len()
    &&& forall|o: int|
        0 <= o < pre.outputs@.len() ==> output_same_but_workspaces(
            #[trigger] post.outputs@[o],
            pre.outputs@[o],
        )
    &&& forall|o: int, w: int|
        #![trigger post.ws(o, w)]
        pre.has_ws(o, w) ==> if pre.outputs@[o].is_removed {
            post.ws(o, w) == pre.ws(o, w)
        } else {
            let a = post.ws(o, w);
            let b = pre.ws(o, w);
            &&& a.window_list@ == b.window_list@.map_values(|win: Window| snap_win(win))
            &&& a.focused_window_idx == b.focused_window_idx
            &&& a.layout == b.layout
            &&& a.is_floating == b.is_floating
        }
}

pub fn snap_to_finish(wm: &mut WindowManager, reqs: &mut Vec<Request>)
    ensures
        snapped_ok(*final(wm), *old(wm)),
        final(reqs)@ == old(reqs)@ + snap_outputs_reqs(old(wm).outputs@),
{
    let ghost pre = *wm;
    let ghost outs = pre.outputs@;
    let ghost start = old(reqs)@;
    let mut o: usize = 0;
    while o < wm.outputs.len()
        invariant
            o <= outs.len(),
            wm.outputs@.len() == outs.len(),
            outs == pre.outputs@,
            wm.same_but_outputs(&pre),
            forall|p: int|
                0 <= p < outs.len() ==> output_same_but_workspaces(
                    #[trigger] wm.outputs@[p],
                    outs[p],
                ),
            forall|p: int, w: int|
                #![trigger wm.ws(p, w)]
                0 <= p < o && pre.has_ws(p, w) ==> if outs[p].is_removed {
                    wm.ws(p, w) == pre.ws(p, w)
                } else {
                    let a = wm.ws(p, w);
                    let b = pre.ws(p, w);
                    &&& a.window_list@ == b.window_list@.map_values(|win: Window| snap_win(win))
                    &&& a.focused_window_idx == b.focused_window_idx
                    &&& a.layout == b.layout
                    &&& a.is_floating == b.is_floating
                },
            forall|p: int| o <= p < outs.len() ==> #[trigger] wm.outputs@[p] == outs[p],
            reqs@ == start + snap_outputs_reqs(outs.take(o as int)),
        decreases outs.len() - o,
    {
        proof {
            assert(outs.take(o + 1).drop_last() =~= outs.take(o as int));
        }
        if !wm.outputs[o].is_removed {
            let ghost before = *wm;
            snap_output(&mut wm.outputs[o], reqs);
            proof {
                assert forall|p: int, w: int|
                    #![trigger wm.ws(p, w)]
                    0 <= p < o && pre.has_ws(p, w) implies (if outs[p].is_removed {
                        wm.ws(p, w) == pre.ws(p, w)
                    } else {
                        let a = wm.ws(p, w);
                        let b = pre.ws(p, w);
                        &&& a.window_list@ == b.window_list@.map_values(|win: Window| snap_win(win))
                        &&& a.focused_window_idx == b.focused_window_idx
                        &&& a.layout == b.layout
                        &&& a.is_floating == b.is_floating
                    }) by {
                    assert(before.ws(p, w) == wm.ws(p, w));
                }
            }
        } else {
            proof {
                assert forall|w: int| #![trigger wm.ws(o as int, w)] pre.has_ws(o as int, w) implies wm.ws(o as int, w) == pre.ws(o as int, w) by {
                    assert(wm.outputs@[o as int] == outs[o as int]);
                }
            }
        }
        o = o + 1;
    }
    proof {
        lemma_take_all(outs);
    }
}


/// Vertical offset of workspace `w` of `out`: workspaces stack above and
/// below the focused one, one output height apart (in 32-bit wrapping
/// arithmetic, as the release build computes it).
pub open spec fn ws_y_offset(out: Output, w: int) -> i32 {
    ((w - out.focused_workspace_idx) as i32).wrapping_mul(out.rectangle.height)
}

/// Whether the layout pass lays out `out` at all: outputs without a size
/// yet are skipped.
pub open spec fn has_size(out: Output) -> bool {
    out.rectangle.width > 0 && out.rectangle.height > 0
}

/// The windows' geometries of a workspace.
pub open spec fn geoms_of(ws: Seq<Window>) -> Seq<WindowGeom> {
    ws.map_values(|win: Window| win.geom)
}

/// `ws` after its windows got the geometries `gs`, pairwise, as far as both
/// go.
pub open spec fn with_geoms(ws: Seq<Window>, gs: Seq<WindowGeom>) -> Seq<Window> {
    Seq::new(
        ws.len(),
        |k: int| if k < gs.len() {
            Window { geom: gs[k], ..ws[k] }
        } else {
            ws[k]
        },
    )
}

/// Workspace `after` is `before` laid out on an output: a floating
/// workspace by the floating layout, a scrolling one by what `scroller`
/// returned for its geometries.
pub open spec fn ws_laid_out<S>(
    after: Workspace,
    before: Workspace,
    out: Output,
    w: int,
    config: Config,
    scroller: S,
) -> bool where
    S: Fn(Vec<WindowGeom>, Option<usize>, Rectangle, Rectangle, &Config, i32) -> Vec<WindowGeom>,
 {
    let y = ws_y_offset(out, w);
    &&& after.focused_window_idx == before.focused_window_idx
    &&& after.layout == before.layout
    &&& after.is_floating == before.is_floating
    &&& if before.layout == crate::types::Layout::Floating {
        after.window_list@ == with_geoms(
            before.window_list@,
            geoms_of(before.window_list@).map_values(
                |g: WindowGeom| crate::layout::floating::spec_floating_apply(g, out.rectangle, y),
            ),
        )
    } else {
        exists|input: Vec<WindowGeom>, result: Vec<WindowGeom>|
            input@ == geoms_of(before.window_list@) && #[trigger] scroller.ensures(
                (input, before.focused_window_idx, out.rectangle, out.non_exclusive, &config, y),
                result,
            ) && after.window_list@ == with_geoms(before.window_list@, result@)
    }
}

fn geoms_of_exec(ws: &Vec<Window>) -> (r: Vec<WindowGeom>)
    ensures
        r@ == geoms_of(ws@),
{
    let mut r: Vec<WindowGeom> = Vec::new();
    let mut k: usize = 0;
    while k < ws.len()
        invariant
            k <= ws@.len(),
            r@ == geoms_of(ws@.take(k as int)),
        decreases ws@.len() - k,
    {
        r.push(ws[k].geom.duplicate());
        proof {
            assert(geoms_of(ws@.take(k + 1)) =~= geoms_of(ws@.take(k as int)).push(ws@[k as int].geom));
        }
        k = k + 1;
    }
    proof {
        lemma_take_all(ws@);
    }
    r
}

fn set_geoms(ws: &mut Vec<Window>, gs: Vec<WindowGeom>)
    ensures
        final(ws)@ == with_geoms(old(ws)@, gs@),
{
    let ghost s0 = old(ws)@;
    let ghost g0 = gs@;
    let mut gs = gs;
    let mut k: usize = 0;
    while k < ws.len() && gs.len() > 0
        invariant
            k <= s0.len(),
            ws@.len() == s0.len(),
            k <= g0.len(),
            gs@ == g0.skip(k as int),
            forall|j: int| 0 <= j < k ==> #[trigger] ws@[j] == with_geoms(s0, g0)[j],
            forall|j: int| k <= j < s0.len() ==> #[trigger] ws@[j] == s0[j],
        decreases s0.len() - k,
    {
        let g = gs.remove(0);
        proof {
            assert(g == g0[k as int]);
            assert(g0.skip(k as int).drop_first() =~= g0.skip(k + 1));
        }
        ws[k].geom = g;
        k = k + 1;
    }
    proof {
        assert(ws@ =~= with_geoms(s0, g0));
    }
}

fn update_workspace<S>(
    ws: &mut Workspace,
    out: &Output,
    w: usize,
    config: &Config,
    y_offset: i32,
    scroller: &S,
) where
    S: Fn(Vec<WindowGeom>, Option<usize>, Rectangle, Rectangle, &Config, i32) -> Vec<WindowGeom>,

    requires
        y_offset == ws_y_offset(*out, w as int),
        forall|v: Vec<WindowGeom>, f: Option<usize>, a: Rectangle, b: Rectangle, y: i32|
            #[trigger] scroller.requires((v, f, a, b, config, y)),
    ensures
        ws_laid_out(*final(ws), *old(ws), *out, w as int, *config, *scroller),
{
    let mut geoms = geoms_of_exec(&ws.window_list);
    match ws.layout {
        crate::types::Layout::Floating => {
            let ghost g0 = geoms@;
            floating::apply(&mut geoms, out.rectangle, y_offset);
            proof {
                assert(geoms@ =~= g0.map_values(
                    |g: WindowGeom| crate::layout::floating::spec_floating_apply(g, out.rectangle, y_offset),
                ));
            }
            set_geoms(&mut ws.window_list, geoms);
        },
        crate::types::Layout::Scroller => {
            let ghost input = geoms;
            let result = scroller(geoms, ws.focused_window_idx, out.rectangle, out.non_exclusive, config, y_offset);
            set_geoms(&mut ws.window_list, result);
        },
    }
}

/// Recompute layout targets for every workspace of every output that has a
/// size; nothing happens while the overview is open.
pub fn update<S>(wm: &mut WindowManager, scroller: &S) where
    S: Fn(Vec<WindowGeom>, Option<usize>, Rectangle, Rectangle, &Config, i32) -> Vec<WindowGeom>,

    requires
        old(wm).inv(),
        forall|v: Vec<WindowGeom>, f: Option<usize>, a: Rectangle, b: Rectangle, c: &Config, y: i32|
            #[trigger] scroller.requires((v, f, a, b, c, y)),
    ensures
        final(wm).same_but_outputs(&*old(wm)),
        old(wm).overview_state is Some ==> *final(wm) == *old(wm),
        old(wm).overview_state is Some ==> final(wm).outputs@ == old(wm).outputs@,
        old(wm).overview_state is None ==> {
            &&& final(wm).outputs@.len() == old(wm).outputs@.len()
            &&& forall|o: int|
                0 <= o < old(wm).outputs@.len() ==> output_same_but_workspaces(
                    #[trigger] final(wm).outputs@[o],
                    old(wm).outputs@[o],
                )
            &&& forall|o: int, w: int|
                #![trigger final(wm).ws(o, w)]
                old(wm).has_ws(o, w) ==> if has_size(old(wm).outputs@[o]) {
                    ws_laid_out(
                        final(wm).ws(o, w),
                        old(wm).ws(o, w),
                        old(wm).outputs@[o],
                        w,
                        old(wm).config,
                        *scroller,
                    )
                } else {
                    final(wm).ws(o, w) == old(wm).ws(o, w)
                }
        },
{
    if wm.overview_state.is_some() {
        return;
    }
    let ghost pre = *wm;
    let ghost outs = pre.outputs@;
    let mut o: usize = 0;
    while o < wm.outputs.len()
        invariant
            o <= outs.len(),
            wm.outputs@.len() == outs.len(),
            outs == pre.outputs@,
            pre.inv(),
            forall|v: Vec<WindowGeom>, f: Option<usize>, a: Rectangle, b: Rectangle, c: &Config, y: i32|
                #[trigger] scroller.requires((v, f, a, b, c, y)),
            wm.same_but_outputs(&pre),
            forall|p: int|
                0 <= p < outs.len() ==> output_same_but_workspaces(
                    #[trigger] wm.outputs@[p],
                    outs[p],
                ),
            forall|p: int, w: int|
                #![trigger wm.ws(p, w)]
                0 <= p < o && pre.has_ws(p, w) ==> if has_size(outs[p]) {
                    ws_laid_out(wm.ws(p, w), pre.ws(p, w), outs[p], w, pre.config, *scroller)
                } else {
                    wm.ws(p, w) == pre.ws(p, w)
                },
            forall|p: int| o <= p < outs.len() ==> #[trigger] wm.outputs@[p] == outs[p],
        decreases outs.len() - o,
    {
        if wm.outputs[o].rectangle.width > 0 && wm.outputs[o].rectangle.height > 0 {
            let ghost before = *wm;
            let out_copy = Output {
                id: wm.outputs[o].id,
                has_layer_shell_output: wm.outputs[o].has_layer_shell_output,
                wl_output_version: wm.outputs[o].wl_output_version,
                name: None,
                workspace_list: Vec::new(),
                focused_workspace_idx: wm.outputs[o].focused_workspace_idx,
                rectangle: wm.outputs[o].rectangle,
                non_exclusive: wm.outputs[o].non_exclusive,
                is_removed: wm.outputs[o].is_removed,
            };
            let mut w: usize = 0;
            while w < wm.outputs[o].workspace_list.len()
                invariant
                    o < outs.len(),
                    wm.outputs@.len() == outs.len(),
                    outs == pre.outputs@,
                            pre.inv(),
                    has_size(outs[o as int]),
                    out_copy.rectangle == outs[o as int].rectangle,
                    out_copy.non_exclusive == outs[o as int].non_exclusive,
                    out_copy.focused_workspace_idx == outs[o as int].focused_workspace_idx,
                    forall|v: Vec<WindowGeom>, f: Option<usize>, a: Rectangle, b: Rectangle, c: &Config, y: i32|
                        #[trigger] scroller.requires((v, f, a, b, c, y)),
                    wm.same_but_outputs(&pre),
                    forall|p: int|
                        0 <= p < outs.len() ==> output_same_but_workspaces(
                            #[trigger] wm.outputs@[p],
                            outs[p],
                        ),
                    forall|p: int, v: int|
                        #![trigger wm.ws(p, v)]
                        0 <= p < o && pre.has_ws(p, v) ==> if has_size(outs[p]) {
                            ws_laid_out(wm.ws(p, v), pre.ws(p, v), outs[p], v, pre.config, *scroller)
                        } else {
                            wm.ws(p, v) == pre.ws(p, v)
                        },
                    forall|v: int|
                        #![trigger wm.ws(o as int, v)]
                        0 <= v < w && pre.has_ws(o as int, v) ==> ws_laid_out(wm.ws(o as int, v), pre.ws(o as int, v), outs[o as int], v, pre.config, *scroller),
                    forall|v: int|
                        #![trigger wm.ws(o as int, v)]
                        w <= v < outs[o as int].workspace_list@.len() ==> wm.ws(o as int, v) == pre.ws(o as int, v),
                    forall|p: int| o < p < outs.len() ==> #[trigger] wm.outputs@[p] == outs[p],
                decreases outs[o as int].workspace_list@.len() - w,
            {
                proof {
                    assert(pre.has_ws(o as int, w as int));
                    assert(wm.ws(o as int, w as int) == pre.ws(o as int, w as int));
                }
                let d: i32 = w as i32 - wm.outputs[o].focused_workspace_idx as i32;
                let y_offset: i32 = d.wrapping_mul(wm.outputs[o].rectangle.height);
                let ghost mid = *wm;
                update_workspace(&mut wm.outputs[o].workspace_list[w], &out_copy, w, &wm.config, y_offset, scroller);
                proof {
                    assert forall|p: int, v: int|
                        #![trigger wm.ws(p, v)]
                        pre.has_ws(p, v) && !(p == o && v == w) implies wm.ws(p, v) == mid.ws(p, v) by {}
                }
                w = w + 1;
            }
        } else {
            proof {
                assert forall|v: int| #![trigger wm.ws(o as int, v)] pre.has_ws(o as int, v) implies wm.ws(o as int, v) == pre.ws(o as int, v) by {
                    assert(wm.outputs@[o as int] == outs[o as int]);
                }
            }
        }
        o = o + 1;
    }
}


/// The first output from index `i` on that is neither `idx` nor removed.
pub open spec fn survivor_from(outs: Seq<Output>, idx: int, i: int) -> Option<int>
    decreases outs.len() - i,
{
    if i < 0 || i >= outs.len() {
        None
    } else if i != idx && !outs[i].is_removed {
        Some(i)
    } else {
        survivor_from(outs, idx, i + 1)
    }
}

proof fn lemma_survivor_from_range(outs: Seq<Output>, idx: int, i: int)
    requires
        0 <= i,
    ensures
        match survivor_from(outs, idx, i) {
            Some(s) => i <= s < outs.len() && s != idx && !outs[s].is_removed,
            None => true,
        },
    decreases outs.len() - i,
{
    if i < outs.len() && !(i != idx && !outs[i].is_removed) {
        lemma_survivor_from_range(outs, idx, i + 1);
    }
}

fn first_survivor(outs: &Vec<Output>, idx: usize) -> (r: Option<usize>)
    ensures
        match r {
            Some(s) => survivor_from(outs@, idx as int, 0) == Some(s as int),
            None => survivor_from(outs@, idx as int, 0) is None,
        },
{
    let mut i: usize = 0;
    while i < outs.len()
        invariant
            i <= outs@.len(),
            survivor_from(outs@, idx as int, 0) == survivor_from(outs@, idx as int, i as int),
        decreases outs@.len() - i,
    {
        if i != idx && !outs[i].is_removed {
            return Some(i);
        }
        i = i + 1;
    }
    None
}

/// The previous-workspace record after output `idx` was swap-removed.
pub open spec fn fix_previous(p: Option<crate::types::OverviewHome>, idx: usize) -> Option<
    crate::types::OverviewHome,
> {
    match p {
        Some(h) => if h.output_idx == idx {
            None
        } else if h.output_idx > idx {
            Some(crate::types::OverviewHome { output_idx: (h.output_idx - 1) as usize, ..h })
        } else {
            Some(h)
        },
        None => None,
    }
}

/// Requests tearing down a removed output's compositor objects.
pub open spec fn destroy_reqs(out: Output) -> Seq<Request> {
    (if out.has_layer_shell_output {
        seq![Request::DestroyLayerShellOutput(out.id)]
    } else {
        Seq::empty()
    }) + (match out.wl_output_version {
        Some(v) => if v >= 3 {
            seq![Request::ReleaseWlOutput(out.id)]
        } else {
            Seq::empty()
        },
        None => Seq::empty(),
    }) + seq![Request::DestroyOutput(out.id)]
}

/// Requests of evacuating and closing a removed output before it goes.
pub open spec fn evacuate_reqs(pre: WindowManager, idx: int) -> Seq<Request> {
    let out = pre.outputs@[idx];
    match survivor_from(pre.outputs@, idx, 0) {
        Some(s) => reqs_workspaces(out.workspace_list@, |w: int, k: int, win: Window| migrate_exit_reqs(win)),
        None => match out.name {
            Some(n) => if has_detached(pre.detached_outputs@, n@) {
                reqs_workspaces(
                    pre.detached_outputs@[detached_index(pre.detached_outputs@, n@)].detached.workspace_list@,
                    |w: int, k: int, win: Window| close_reqs(win),
                )
            } else {
                Seq::empty()
            },
            None => reqs_workspaces(out.workspace_list@, |w: int, k: int, win: Window| close_reqs(win)),
        },
    }
}

/// Where the output now at `o` was before output `idx` was swap-removed
/// from `n` outputs.
pub open spec fn swap_src(o: int, idx: int, n: int) -> int {
    if o == idx {
        n - 1
    } else {
        o
    }
}

/// The state after the windows of the removed output `idx` of `pre` were
/// moved to the first surviving output (tagged with its name), or, with no
/// survivor, its workspaces were kept under its name. What is left on
/// output `idx` itself is not described: it is removed next.
pub open spec fn evacuated_ok(post: WindowManager, pre: WindowManager, idx: int) -> bool {
    let n = pre.outputs@.len() as int;
    let out = pre.outputs@[idx];
    let surv = survivor_from(pre.outputs@, idx, 0);
    &&& post.outputs@.len() == n
    &&& forall|o: int|
        0 <= o < n && o != idx ==> output_same_but_workspaces(
            #[trigger] post.outputs@[o],
            pre.outputs@[o],
        )
    &&& output_same_fields(post.outputs@[idx], pre.outputs@[idx])
    &&& forall|o: int, w: int|
        #![trigger post.ws(o, w)]
        pre.has_ws(o, w) && o != idx ==> match surv {
            Some(s) => if o == s {
                merged_ws_ok(post.ws(o, w), pre.ws(s, w), pre.ws(idx, w), out.name, false)
            } else {
                post.ws(o, w) == pre.ws(o, w)
            },
            None => post.ws(o, w) == pre.ws(o, w),
        }
    &&& surv is Some ==> post.detached_outputs@ == pre.detached_outputs@
    &&& surv is None ==> match out.name {
        None => post.detached_outputs@ == pre.detached_outputs@,
        Some(nm) => {
            let ds = pre.detached_outputs@;
            let after = post.detached_outputs@;
            let pos = if has_detached(ds, nm@) {
                detached_index(ds, nm@)
            } else {
                ds.len() as int
            };
            &&& after.len() == if has_detached(ds, nm@) {
                ds.len()
            } else {
                ds.len() + 1
            }
            &&& forall|i: int| 0 <= i < ds.len() && i != pos ==> #[trigger] after[i] == ds[i]
            &&& after[pos].name@ == nm@
            &&& after[pos].detached.workspace_list@ == out.workspace_list@
            &&& after[pos].detached.focused_workspace_idx == out.focused_workspace_idx
        },
    }
    &&& post.config == pre.config
    &&& post.focused_output_idx == pre.focused_output_idx
    &&& post.previous_workspace == pre.previous_workspace
    &&& post.pending_windows@ == pre.pending_windows@
    &&& post.overview_state == pre.overview_state
    &&& post.status == pre.status
    &&& post.last_focused_window == pre.last_focused_window
    &&& post.needs_refocus == pre.needs_refocus
    &&& post.needs_setup_bindings == pre.needs_setup_bindings
    &&& post.should_exit_loop == pre.should_exit_loop
    &&& post.layer_shell_focus == pre.layer_shell_focus
    &&& post.session_locked == pre.session_locked
    &&& post.lock_focus == pre.lock_focus
    &&& post.needs_pointer_warp == pre.needs_pointer_warp
}

/// The state after output `idx` of `pre` was swap-removed and the indices
/// pointing at outputs were fixed up.
pub open spec fn dropped_ok(post: WindowManager, pre: WindowManager, idx: int) -> bool {
    let n = pre.outputs@.len() as int;
    let focused = spec_fixup(pre.focused_output_idx, idx as usize, n as usize);
    &&& post.outputs@.len() == n - 1
    &&& forall|o: int|
        0 <= o < n - 1 ==> output_same_but_workspaces(
            #[trigger] post.outputs@[o],
            pre.outputs@[swap_src(o, idx, n)],
        )
    &&& forall|o: int, w: int|
        #![trigger post.ws(o, w)]
        0 <= o < n - 1 && 0 <= w < pre.outputs@[swap_src(o, idx, n)].workspace_list@.len()
            ==> post.ws(o, w) == pre.ws(swap_src(o, idx, n), w)
    &&& post.detached_outputs@ == pre.detached_outputs@
    &&& post.focused_output_idx == focused
    &&& post.previous_workspace == if focused is None {
        None
    } else {
        fix_previous(pre.previous_workspace, idx as usize)
    }
    &&& post.last_focused_window == if focused is None {
        None
    } else {
        pre.last_focused_window
    }
    &&& post.config == pre.config
    &&& post.pending_windows@ == pre.pending_windows@
    &&& post.overview_state == pre.overview_state
    &&& post.status == pre.status
    &&& post.needs_refocus == pre.needs_refocus
    &&& post.needs_setup_bindings == pre.needs_setup_bindings
    &&& post.should_exit_loop == pre.should_exit_loop
    &&& post.layer_shell_focus == pre.layer_shell_focus
    &&& post.session_locked == pre.session_locked
    &&& post.lock_focus == pre.lock_focus
    &&& post.needs_pointer_warp == pre.needs_pointer_warp
}

/// The state after the removed output `idx` of `pre` was handled:
/// evacuated, then swap-removed.
pub open spec fn removed_one_ok(post: WindowManager, pre: WindowManager, idx: int) -> bool {
    exists|mid: WindowManager| evacuated_ok(mid, pre, idx) && dropped_ok(post, mid, idx)
}

proof fn lemma_reqs_empty_lists(wss: Seq<Workspace>, f: spec_fn(int, int, Window) -> Seq<Request>)
    requires
        forall|w: int| 0 <= w < wss.len() ==> (#[trigger] wss[w]).window_list@.len() == 0,
    ensures
        reqs_workspaces(wss, f) == Seq::<Request>::empty(),
    decreases wss.len(),
{
    if wss.len() > 0 {
        lemma_reqs_empty_lists(wss.drop_last(), f);
        assert(wss.last().window_list@ =~= Seq::<Window>::empty());
    }
}

fn evacuate_output(wm: &mut WindowManager, idx: usize, reqs: &mut Vec<Request>)
    requires
        old(wm).inv(),
        idx < old(wm).outputs@.len(),
    ensures
        evacuated_ok(*final(wm), *old(wm), idx as int),
        final(reqs)@ == old(reqs)@ + evacuate_reqs(*old(wm), idx as int),
        detached_names_distinct(final(wm).detached_outputs@),
        forall|i: int|
            0 <= i < final(wm).detached_outputs@.len() ==> detached_wf(
                #[trigger] final(wm).detached_outputs@[i].detached,
            ),
{
    let ghost pre = *wm;
    let ghost start = old(reqs)@;
    let surv = first_survivor(&wm.outputs, idx);
    proof {
        lemma_survivor_from_range(pre.outputs@, idx as int, 0);
    }
    match surv {
        Some(s) => {
            migrate_output_windows(wm, idx, s, reqs);
            proof {
                assert(crate::wm::output_wf(pre.outputs@[s as int]));
                assert forall|w: int| #![trigger wm.ws(s as int, w)] pre.has_ws(s as int, w) implies merged_ws_ok(
                    wm.ws(s as int, w),
                    pre.ws(s as int, w),
                    pre.ws(idx as int, w),
                    pre.outputs@[idx as int].name,
                    false,
                ) by {
                    assert(emptied_ws_ok(wm.ws(idx as int, w), pre.ws(idx as int, w)));
                }
            }
        },
        None => {
            detach_output(wm, idx, reqs);
            proof {
                let ds = pre.detached_outputs@;
                let after = wm.detached_outputs@;
                assert forall|i: int| 0 <= i < after.len() implies detached_wf(#[trigger] after[i].detached) by {
                    if let Some(nm) = pre.outputs@[idx as int].name {
                        let pos = if has_detached(ds, nm@) { detached_index(ds, nm@) } else { ds.len() as int };
                        if i != pos {
                            assert(after[i] == ds[i]);
                        }
                    }
                }
            }
        },
    }
    let ghost mid = *wm;
    close_workspaces(&wm.outputs[idx].workspace_list, reqs);
    proof {
        let out = pre.outputs@[idx as int];
        match surv {
            Some(s) => {
                assert forall|w: int| 0 <= w < mid.outputs@[idx as int].workspace_list@.len() implies (#[trigger] mid.outputs@[idx as int].workspace_list@[w]).window_list@.len() == 0 by {
                    assert(emptied_ws_ok(mid.ws(idx as int, w), pre.ws(idx as int, w)));
                }
                lemma_reqs_empty_lists(mid.outputs@[idx as int].workspace_list@, |w: int, k: int, win: Window| close_reqs(win));
            },
            None => {
                if out.name is Some {
                    lemma_reqs_empty_lists(mid.outputs@[idx as int].workspace_list@, |w: int, k: int, win: Window| close_reqs(win));
                }
            },
        }
    }
}

fn drop_output(wm: &mut WindowManager, idx: usize, reqs: &mut Vec<Request>)
    requires
        idx < old(wm).outputs@.len(),
    ensures
        dropped_ok(*final(wm), *old(wm), idx as int),
        final(reqs)@ == old(reqs)@ + destroy_reqs(old(wm).outputs@[idx as int]),
{
    let ghost start = old(reqs)@;
    let n = wm.outputs.len();
    if wm.outputs[idx].has_layer_shell_output {
        reqs.push(Request::DestroyLayerShellOutput(wm.outputs[idx].id));
    }
    if let Some(v) = wm.outputs[idx].wl_output_version {
        if v >= 3 {
            reqs.push(Request::ReleaseWlOutput(wm.outputs[idx].id));
        }
    }
    reqs.push(Request::DestroyOutput(wm.outputs[idx].id));
    proof {
        assert(reqs@ =~= start + destroy_reqs(old(wm).outputs@[idx as int]));
    }
    fixup_indices_after_output_removal(&mut wm.focused_output_idx, idx, n);
    match wm.previous_workspace {
        Some(pw) => {
            if pw.output_idx == idx {
                wm.previous_workspace = None;
            } else if pw.output_idx > idx {
                wm.previous_workspace = Some(
                    crate::types::OverviewHome {
                        output_idx: pw.output_idx - 1,
                        workspace_idx: pw.workspace_idx,
                    },
                );
            }
        },
        None => {},
    }
    if wm.focused_output_idx.is_none() {
        wm.last_focused_window = None;
        wm.previous_workspace = None;
    }
    let ghost before_swap = *wm;
    let _gone = wm.outputs.swap_remove(idx);
    proof {
        assert forall|o: int, w: int|
            #![trigger wm.ws(o, w)]
            0 <= o < n - 1 && 0 <= w < before_swap.outputs@[swap_src(o, idx as int, n as int)].workspace_list@.len() implies
                wm.ws(o, w) == before_swap.ws(swap_src(o, idx as int, n as int), w) by {
        }
    }
}

/// Handle the removed output at `idx`: evacuate its windows, close what is
/// left, tear down its objects, swap-remove it and fix up the indices.
fn remove_output(wm: &mut WindowManager, idx: usize, reqs: &mut Vec<Request>)
    requires
        old(wm).inv(),
        idx < old(wm).outputs@.len(),
    ensures
        removed_one_ok(*final(wm), *old(wm), idx as int),
        final(reqs)@ == old(reqs)@ + evacuate_reqs(*old(wm), idx as int) + destroy_reqs(
            old(wm).outputs@[idx as int],
        ),
        final(wm).inv(),
{
    let ghost pre = *wm;
    let n0 = wm.outputs.len();
    evacuate_output(wm, idx, reqs);
    let ghost mid = *wm;
    drop_output(wm, idx, reqs);
    proof {
        assert(evacuated_ok(mid, pre, idx as int) && dropped_ok(*wm, mid, idx as int));
        lemma_fixup_keeps_focus_valid(pre.focused_output_idx, idx, n0);
        let n = pre.outputs@.len() as int;
        assert forall|o: int| 0 <= o < wm.outputs@.len() implies crate::wm::output_wf(#[trigger] wm.outputs@[o]) by {
            let so = swap_src(o, idx as int, n);
            assert(output_same_but_workspaces(wm.outputs@[o], mid.outputs@[so]));
            if so != idx {
                assert(output_same_but_workspaces(mid.outputs@[so], pre.outputs@[so]));
            }
            assert(crate::wm::output_wf(pre.outputs@[so]));
        }
    }
}


/// Requests of releasing fullscreen and closing closing windows on output
/// `i` of `wm`.
pub open spec fn release_output_reqs(wm: WindowManager, i: int) -> Seq<Request> {
    reqs_workspaces(
        wm.outputs@[i].workspace_list@,
        |w: int, k: int, win: Window| release_reqs(win, wm.outputs@[i].rectangle),
    )
}

/// One step of the removal pass at index `i`: a surviving output has stale
/// fullscreen released and closing windows closed; a removed one is
/// handled and goes away.
pub open spec fn removal_step_ok(
    cur: WindowManager,
    prev: WindowManager,
    i: int,
    r: Seq<Request>,
    removed: bool,
) -> bool {
    &&& 0 <= i < prev.outputs@.len()
    &&& removed == prev.outputs@[i].is_removed
    &&& if !prev.outputs@[i].is_removed {
        cur == prev && r == release_output_reqs(prev, i)
    } else {
        removed_one_ok(cur, prev, i) && r == evacuate_reqs(prev, i) + destroy_reqs(prev.outputs@[i])
    }
}

/// The concatenation of request pieces, in order.
pub open spec fn concat_parts(parts: Seq<Seq<Request>>) -> Seq<Request>
    decreases parts.len(),
{
    if parts.len() == 0 {
        Seq::empty()
    } else {
        concat_parts(parts.drop_last()) + parts.last()
    }
}

/// `states` is the removal pass over the `from` outputs of `states[0]`,
/// index `from - 1` first: step `j` handles index `from - 1 - j`, turning
/// `states[j]` into `states[j + 1]` with requests `parts[j]`; `flags[j]`
/// tells whether that output was removed.
pub open spec fn removal_trace_ok(
    states: Seq<WindowManager>,
    parts: Seq<Seq<Request>>,
    flags: Seq<bool>,
    from: int,
) -> bool {
    &&& states.len() == from + 1
    &&& parts.len() == from
    &&& flags.len() == from
    &&& forall|j: int|
        0 <= j < from ==> #[trigger] removal_step_ok(
            states[j + 1],
            states[j],
            from - 1 - j,
            parts[j],
            flags[j],
        )
}

/// The removal pass turns `pre` into `post` with requests `reqs`; `any`
/// tells whether some output was removed.
pub open spec fn removal_pass_ok(
    post: WindowManager,
    pre: WindowManager,
    reqs: Seq<Request>,
    any: bool,
) -> bool {
    exists|states: Seq<WindowManager>, parts: Seq<Seq<Request>>, flags: Seq<bool>|
        #[trigger] removal_trace_ok(states, parts, flags, pre.outputs@.len() as int)
            && states[0] == pre && states.last() == post && reqs == concat_parts(parts) && any == (
        exists|j: int| 0 <= j < flags.len() && #[trigger] flags[j])
}

/// Handle every removed output, from the last index down; surviving outputs
/// get stale fullscreen released and closing windows closed. Returns
/// whether an output was removed.
fn handle_removed_outputs(wm: &mut WindowManager, reqs: &mut Vec<Request>) -> (any: bool)
    requires
        old(wm).inv(),
    ensures
        final(wm).inv(),
        final(reqs)@.len() >= old(reqs)@.len(),
        final(reqs)@.take(old(reqs)@.len() as int) == old(reqs)@,
        removal_pass_ok(*final(wm), *old(wm), final(reqs)@.skip(old(reqs)@.len() as int), any),
{
    let ghost pre = *wm;
    let ghost start = old(reqs)@;
    let ghost from = pre.outputs@.len() as int;
    let ghost mut states: Seq<WindowManager> = seq![pre];
    let ghost mut parts: Seq<Seq<Request>> = Seq::empty();
    let ghost mut flags: Seq<bool> = Seq::empty();
    let mut any = false;
    let mut output_idx = wm.outputs.len();
    while output_idx > 0
        invariant
            wm.inv(),
            output_idx <= wm.outputs@.len(),
            0 <= from - output_idx,
            states.len() == from - output_idx + 1,
            parts.len() == from - output_idx,
            flags.len() == from - output_idx,
            states[0] == pre,
            states.last() == *wm,
            forall|j: int|
                0 <= j < from - output_idx ==> #[trigger] removal_step_ok(
                    states[j + 1],
                    states[j],
                    from - 1 - j,
                    parts[j],
                    flags[j],
                ),
            reqs@ == start + concat_parts(parts),
            any == exists|j: int| 0 <= j < flags.len() && #[trigger] flags[j],
        decreases output_idx,
    {
        output_idx = output_idx - 1;
        let ghost prev = *wm;
        let ghost before = reqs@;
        let ghost removed = wm.outputs@[output_idx as int].is_removed;
        if !wm.outputs[output_idx].is_removed {
            exit_fullscreen_and_close_closing(wm, output_idx, reqs);
        } else {
            remove_output(wm, output_idx, reqs);
            any = true;
        }
        proof {
            let piece = reqs@.skip(before.len() as int);
            if !removed {
                assert(piece =~= release_output_reqs(prev, output_idx as int));
            } else {
                assert(piece =~= evacuate_reqs(prev, output_idx as int) + destroy_reqs(
                    prev.outputs@[output_idx as int],
                ));
            }
            let old_parts = parts;
            let old_flags = flags;
            let old_states = states;
            states = states.push(*wm);
            parts = parts.push(piece);
            flags = flags.push(removed);
            assert(parts.drop_last() =~= old_parts);
            assert(reqs@ =~= start + concat_parts(parts));
            assert forall|j: int| 0 <= j < from - output_idx implies #[trigger] removal_step_ok(
                states[j + 1],
                states[j],
                from - 1 - j,
                parts[j],
                flags[j],
            ) by {
                if j < from - output_idx - 1 {
                    assert(states[j + 1] == old_states[j + 1]);
                    assert(states[j] == old_states[j]);
                    assert(parts[j] == old_parts[j]);
                    assert(flags[j] == old_flags[j]);
                }
            }
            if any {
                if !removed {
                    let k = choose|k: int| 0 <= k < old_flags.len() && #[trigger] old_flags[k];
                    assert(flags[k]);
                } else {
                    assert(flags[flags.len() - 1]);
                }
            } else {
                assert forall|k: int| 0 <= k < flags.len() implies !#[trigger] flags[k] by {
                    if k < old_flags.len() {
                        assert(flags[k] == old_flags[k]);
                    }
                }
            }
        }
    }
    proof {
        assert(reqs@.skip(start.len() as int) =~= concat_parts(parts));
        assert(reqs@.take(start.len() as int) =~= start);
        assert(removal_trace_ok(states, parts, flags, from));
    }
    any
}


/// A window with nothing recorded as sent.
pub open spec fn reset_win(win: Window) -> Window {
    Window { geom: spec_reset_sent_caches(win.geom), ..win }
}

/// `after` is `before` with every window's sent caches cleared.
pub open spec fn reset_ws_ok(after: Workspace, before: Workspace) -> bool {
    &&& after.window_list@ == before.window_list@.map_values(|win: Window| reset_win(win))
    &&& after.focused_window_idx == before.focused_window_idx
    &&& after.layout == before.layout
    &&& after.is_floating == before.is_floating
}

fn reset_workspaces(wss: &mut Vec<Workspace>)
    ensures
        final(wss)@.len() == old(wss)@.len(),
        forall|w: int|
            0 <= w < old(wss)@.len() ==> reset_ws_ok(#[trigger] final(wss)@[w], old(wss)@[w]),
{
    let ghost w0 = old(wss)@;
    let mut w: usize = 0;
    while w < wss.len()
        invariant
            w <= w0.len(),
            wss@.len() == w0.len(),
            forall|v: int| 0 <= v < w ==> reset_ws_ok(#[trigger] wss@[v], w0[v]),
            forall|v: int| w <= v < w0.len() ==> #[trigger] wss@[v] == w0[v],
        decreases w0.len() - w,
    {
        let ghost l0 = wss@[w as int].window_list@;
        let mut k: usize = 0;
        while k < wss[w].window_list.len()
            invariant
                w < w0.len(),
                wss@.len() == w0.len(),
                l0 == w0[w as int].window_list@,
                k <= l0.len(),
                wss@[w as int].window_list@.len() == l0.len(),
                forall|j: int| 0 <= j < k ==> #[trigger] wss@[w as int].window_list@[j] == reset_win(l0[j]),
                forall|j: int| k <= j < l0.len() ==> #[trigger] wss@[w as int].window_list@[j] == l0[j],
                wss@[w as int].focused_window_idx == w0[w as int].focused_window_idx,
                wss@[w as int].layout == w0[w as int].layout,
                wss@[w as int].is_floating == w0[w as int].is_floating,
                forall|v: int| 0 <= v < w ==> reset_ws_ok(#[trigger] wss@[v], w0[v]),
                forall|v: int| w < v < w0.len() ==> #[trigger] wss@[v] == w0[v],
            decreases l0.len() - k,
        {
            reset_sent_caches(&mut wss[w].window_list[k].geom);
            k = k + 1;
        }
        proof {
            assert(wss@[w as int].window_list@ =~= l0.map_values(|win: Window| reset_win(win)));
        }
        w = w + 1;
    }
}

/// One step of restoring detached workspaces at output `o`: an output that
/// is not removed and whose name has a detached entry takes that entry's
/// workspaces (with nothing recorded as sent) and focused workspace, and
/// the entry goes away; otherwise nothing changes.
pub open spec fn restore_step_ok(cur: WindowManager, prev: WindowManager, o: int, restored: bool) -> bool {
    let out = prev.outputs@[o];
    let ds = prev.detached_outputs@;
    let takes = !out.is_removed && out.name is Some && has_detached(ds, out.name.unwrap()@);
    &&& 0 <= o < prev.outputs@.len()
    &&& restored == takes
    &&& !takes ==> cur == prev
    &&& takes ==> {
        let pos = detached_index(ds, out.name.unwrap()@);
        let entry = ds[pos].detached;
        &&& cur.same_but_outputs_and_detached(&prev)
        &&& cur.detached_outputs@ == ds.remove(pos)
        &&& cur.outputs@.len() == prev.outputs@.len()
        &&& forall|p: int| 0 <= p < prev.outputs@.len() && p != o ==> #[trigger] cur.outputs@[p] == prev.outputs@[p]
        &&& cur.outputs@[o].id == out.id
        &&& cur.outputs@[o].has_layer_shell_output == out.has_layer_shell_output
        &&& cur.outputs@[o].wl_output_version == out.wl_output_version
        &&& cur.outputs@[o].name == out.name
        &&& cur.outputs@[o].rectangle == out.rectangle
        &&& cur.outputs@[o].non_exclusive == out.non_exclusive
        &&& cur.outputs@[o].is_removed == out.is_removed
        &&& cur.outputs@[o].focused_workspace_idx == entry.focused_workspace_idx
        &&& cur.outputs@[o].workspace_list@.len() == entry.workspace_list@.len()
        &&& forall|w: int|
            0 <= w < entry.workspace_list@.len() ==> reset_ws_ok(
                #[trigger] cur.outputs@[o].workspace_list@[w],
                entry.workspace_list@[w],
            )
    }
}

impl WindowManager {
    /// Everything but the outputs and the detached entries is the same in
    /// `self` and `other`.
    pub open spec fn same_but_outputs_and_detached(&self, other: &WindowManager) -> bool {
        &&& self.config == other.config
        &&& self.focused_output_idx == other.focused_output_idx
        &&& self.previous_workspace == other.previous_workspace
        &&& self.pending_windows@ == other.pending_windows@
        &&& self.overview_state == other.overview_state
        &&& self.status == other.status
        &&& self.needs_refocus == other.needs_refocus
        &&& self.needs_setup_bindings == other.needs_setup_bindings
        &&& self.should_exit_loop == other.should_exit_loop
        &&& self.last_focused_window == other.last_focused_window
        &&& self.layer_shell_focus == other.layer_shell_focus
        &&& self.session_locked == other.session_locked
        &&& self.lock_focus == other.lock_focus
        &&& self.needs_pointer_warp == other.needs_pointer_warp
    }
}

/// `states` restores detached workspaces output by output, in index
/// order; `flags[o]` tells whether output `o` took an entry.
pub open spec fn restore_trace_ok(states: Seq<WindowManager>, flags: Seq<bool>, n: int) -> bool {
    &&& states.len() == n + 1
    &&& flags.len() == n
    &&& forall|o: int| 0 <= o < n ==> #[trigger] restore_step_ok(states[o + 1], states[o], o, flags[o])
}

/// Restoring detached workspaces by output name turns `pre` into `post`;
/// `any` tells whether some output took an entry.
pub open spec fn restore_pass_ok(post: WindowManager, pre: WindowManager, any: bool) -> bool {
    exists|states: Seq<WindowManager>, flags: Seq<bool>|
        #[trigger] restore_trace_ok(states, flags, pre.outputs@.len() as int) && states[0] == pre
            && states.last() == post && any == (exists|j: int| 0 <= j < flags.len() && #[trigger] flags[j])
}

/// Give each output that is not removed the workspaces detached under its
/// name, if there are any.
fn restore_detached(wm: &mut WindowManager) -> (any: bool)
    requires
        old(wm).inv(),
    ensures
        final(wm).inv(),
        restore_pass_ok(*final(wm), *old(wm), any),
{
    let ghost pre = *wm;
    let ghost n = pre.outputs@.len() as int;
    let ghost mut states: Seq<WindowManager> = seq![pre];
    let ghost mut flags: Seq<bool> = Seq::empty();
    let mut any = false;
    let mut o: usize = 0;
    while o < wm.outputs.len()
        invariant
            wm.inv(),
            wm.outputs@.len() == n,
            o <= n,
            states.len() == o + 1,
            flags.len() == o,
            states[0] == pre,
            states.last() == *wm,
            forall|p: int| 0 <= p < o ==> #[trigger] restore_step_ok(states[p + 1], states[p], p, flags[p]),
            any == exists|j: int| 0 <= j < flags.len() && #[trigger] flags[j],
        decreases n - o,
    {
        let ghost prev = *wm;
        let mut took = false;
        if !wm.outputs[o].is_removed {
            let found = match &wm.outputs[o].name {
                Some(name) => find_detached(&wm.detached_outputs, name),
                None => None,
            };
            if let Some(pos) = found {
                let entry = wm.detached_outputs.remove(pos);
                let mut wss = entry.detached.workspace_list;
                reset_workspaces(&mut wss);
                wm.outputs[o].workspace_list = wss;
                wm.outputs[o].focused_workspace_idx = entry.detached.focused_workspace_idx;
                took = true;
                proof {
                    let ds = prev.detached_outputs@;
                    assert(detached_wf(ds[pos as int].detached));
                    assert forall|i: int| 0 <= i < wm.detached_outputs@.len() implies detached_wf(#[trigger] wm.detached_outputs@[i].detached) by {
                        if i < pos { assert(wm.detached_outputs@[i] == ds[i]); } else { assert(wm.detached_outputs@[i] == ds[i + 1]); }
                    }
                    assert forall|a: int, b: int| 0 <= a < b < wm.detached_outputs@.len() implies #[trigger] wm.detached_outputs@[a].name@ != #[trigger] wm.detached_outputs@[b].name@ by {
                        let a2 = if a < pos { a } else { a + 1 };
                        let b2 = if b < pos { b } else { b + 1 };
                        assert(wm.detached_outputs@[a] == ds[a2]);
                        assert(wm.detached_outputs@[b] == ds[b2]);
                        assert(ds[a2].name@ != ds[b2].name@);
                    }
                    assert forall|i: int| 0 <= i < wm.outputs@.len() implies crate::wm::output_wf(#[trigger] wm.outputs@[i]) by {
                        if i != o { assert(wm.outputs@[i] == prev.outputs@[i]); }
                    }
                }
            }
        }
        proof {
            let old_states = states;
            let old_flags = flags;
            states = states.push(*wm);
            flags = flags.push(took);
            assert(restore_step_ok(*wm, prev, o as int, took));
            assert forall|p: int| 0 <= p < o + 1 implies #[trigger] restore_step_ok(states[p + 1], states[p], p, flags[p]) by {
                if p < o {
                    assert(states[p + 1] == old_states[p + 1]);
                    assert(states[p] == old_states[p]);
                    assert(flags[p] == old_flags[p]);
                }
            }
            if took {
                assert(flags[o as int]);
            }
            if any {
                let k = choose|k: int| 0 <= k < old_flags.len() && #[trigger] old_flags[k];
                assert(flags[k]);
            }
            if !any && !took {
                assert forall|k: int| 0 <= k < flags.len() implies !#[trigger] flags[k] by {
                    if k < old_flags.len() {
                        assert(flags[k] == old_flags[k]);
                    }
                }
            }
        }
        if took {
            any = true;
        }
        o = o + 1;
    }
    proof {
        assert(restore_trace_ok(states, flags, n));
    }
    any
}


/// The first output from index `i` on that is not removed and has a size.
pub open spec fn fallback_from(outs: Seq<Output>, i: int) -> Option<int>
    decreases outs.len() - i,
{
    if i < 0 || i >= outs.len() {
        None
    } else if !outs[i].is_removed && has_size(outs[i]) {
        Some(i)
    } else {
        fallback_from(outs, i + 1)
    }
}

proof fn lemma_fallback_from_range(outs: Seq<Output>, i: int)
    requires
        0 <= i,
    ensures
        match fallback_from(outs, i) {
            Some(f) => i <= f < outs.len(),
            None => true,
        },
    decreases outs.len() - i,
{
    if i < outs.len() && !(!outs[i].is_removed && has_size(outs[i])) {
        lemma_fallback_from_range(outs, i + 1);
    }
}

fn find_fallback(outs: &Vec<Output>) -> (r: Option<usize>)
    ensures
        match r {
            Some(f) => fallback_from(outs@, 0) == Some(f as int),
            None => fallback_from(outs@, 0) is None,
        },
{
    let mut i: usize = 0;
    while i < outs.len()
        invariant
            i <= outs@.len(),
            fallback_from(outs@, 0) == fallback_from(outs@, i as int),
        decreases outs@.len() - i,
    {
        if !outs[i].is_removed && outs[i].rectangle.width > 0 && outs[i].rectangle.height > 0 {
            return Some(i);
        }
        i = i + 1;
    }
    None
}

/// One step of moving unmatched detached workspaces to the fallback output
/// `f`: the first entry goes away and its windows join the matching
/// workspaces of `f`, the untagged ones tagged with the entry's name.
pub open spec fn fallback_step_ok(cur: WindowManager, prev: WindowManager, f: int, r: Seq<Request>) -> bool {
    let e = prev.detached_outputs@[0];
    &&& prev.detached_outputs@.len() > 0
    &&& cur.same_but_outputs_and_detached(&prev)
    &&& cur.detached_outputs@ == prev.detached_outputs@.drop_first()
    &&& cur.same_but_workspaces(&prev, |o: int, w: int| o == f)
    &&& forall|w: int|
        0 <= w < WORKSPACE_COUNT ==> merged_ws_ok(
            #[trigger] cur.ws(f, w),
            prev.ws(f, w),
            e.detached.workspace_list@[w],
            Some(e.name),
            true,
        )
    &&& r == reqs_workspaces(e.detached.workspace_list@, |w: int, k: int, win: Window| migrate_exit_reqs(win))
}

/// The fallback pass: when detached entries are left and some output is
/// not removed and has a size, every entry moves to the first such output,
/// in order; otherwise nothing changes. `any` tells whether it ran.
pub open spec fn fallback_pass_ok(post: WindowManager, pre: WindowManager, reqs: Seq<Request>, any: bool) -> bool {
    match fallback_from(pre.outputs@, 0) {
        Some(f) if pre.detached_outputs@.len() > 0 => {
            &&& any
            &&& exists|states: Seq<WindowManager>, parts: Seq<Seq<Request>>|
                #![trigger states.len(), parts.len()]
                states.len() == pre.detached_outputs@.len() + 1 && parts.len() == pre.detached_outputs@.len()
                    && states[0] == pre && states.last() == post && reqs == concat_parts(parts)
                    && forall|j: int| 0 <= j < parts.len() ==> #[trigger] fallback_step_ok(states[j + 1], states[j], f, parts[j])
            &&& post.detached_outputs@.len() == 0
        },
        _ => !any && post == pre && reqs == Seq::<Request>::empty(),
    }
}

/// Move every detached entry that no output claimed by name to the first
/// output that is not removed and has a size, so no window is orphaned.
fn migrate_unmatched_detached(wm: &mut WindowManager, reqs: &mut Vec<Request>) -> (any: bool)
    requires
        old(wm).inv(),
    ensures
        final(wm).inv(),
        final(reqs)@.len() >= old(reqs)@.len(),
        final(reqs)@.take(old(reqs)@.len() as int) == old(reqs)@,
        fallback_pass_ok(*final(wm), *old(wm), final(reqs)@.skip(old(reqs)@.len() as int), any),
{
    let ghost pre = *wm;
    let ghost start = old(reqs)@;
    proof {
        assert(reqs@.take(start.len() as int) =~= start);
        assert(reqs@.skip(start.len() as int) =~= Seq::<Request>::empty());
    }
    if wm.detached_outputs.len() == 0 {
        return false;
    }
    let f = match find_fallback(&wm.outputs) {
        Some(f) => f,
        None => return false,
    };
    proof {
        lemma_fallback_from_range(pre.outputs@, 0);
    }
    let ghost total = pre.detached_outputs@.len();
    let ghost mut states: Seq<WindowManager> = seq![pre];
    let ghost mut parts: Seq<Seq<Request>> = Seq::empty();
    while wm.detached_outputs.len() > 0
        invariant
            wm.inv(),
            f < wm.outputs@.len(),
            wm.outputs@.len() == pre.outputs@.len(),
            states.len() == parts.len() + 1,
            parts.len() + wm.detached_outputs@.len() == total,
            states[0] == pre,
            states.last() == *wm,
            reqs@ == start + concat_parts(parts),
            forall|j: int| 0 <= j < parts.len() ==> #[trigger] fallback_step_ok(states[j + 1], states[j], f as int, parts[j]),
        decreases wm.detached_outputs@.len(),
    {
        let ghost prev = *wm;
        let ghost before = reqs@;
        let entry = wm.detached_outputs.remove(0);
        proof {
            assert(detached_wf(prev.detached_outputs@[0].detached));
            assert(crate::wm::output_wf(wm.outputs@[f as int]));
        }
        migrate_detached_into(wm, f, &entry.name, entry.detached, reqs);
        proof {
            let piece = reqs@.skip(before.len() as int);
            assert(piece =~= reqs_workspaces(entry.detached.workspace_list@, |w: int, k: int, win: Window| migrate_exit_reqs(win)));
            assert(wm.detached_outputs@ =~= prev.detached_outputs@.drop_first());
            assert(fallback_step_ok(*wm, prev, f as int, piece));
            let old_states = states;
            let old_parts = parts;
            states = states.push(*wm);
            parts = parts.push(piece);
            assert(parts.drop_last() =~= old_parts);
            assert(reqs@ =~= start + concat_parts(parts));
            assert forall|j: int| 0 <= j < parts.len() implies #[trigger] fallback_step_ok(states[j + 1], states[j], f as int, parts[j]) by {
                if j < old_parts.len() {
                    assert(states[j + 1] == old_states[j + 1]);
                    assert(states[j] == old_states[j]);
                    assert(parts[j] == old_parts[j]);
                }
            }
            let ds = prev.detached_outputs@;
            assert forall|i: int| 0 <= i < wm.detached_outputs@.len() implies detached_wf(#[trigger] wm.detached_outputs@[i].detached) by {
                assert(wm.detached_outputs@[i] == ds[i + 1]);
            }
            assert forall|a: int, b: int| 0 <= a < b < wm.detached_outputs@.len() implies #[trigger] wm.detached_outputs@[a].name@ != #[trigger] wm.detached_outputs@[b].name@ by {
                assert(wm.detached_outputs@[a] == ds[a + 1]);
                assert(wm.detached_outputs@[b] == ds[b + 1]);
            }
            assert forall|i: int| 0 <= i < wm.outputs@.len() implies crate::wm::output_wf(#[trigger] wm.outputs@[i]) by {
                assert(output_same_but_workspaces(wm.outputs@[i], prev.outputs@[i]));
            }
        }
    }
    proof {
        assert(reqs@.skip(start.len() as int) =~= concat_parts(parts));
        assert(reqs@.take(start.len() as int) =~= start);
    }
    true
}


/// Whether windows go home from output `t.1` to output `t.0`, workspace
/// `t.2`: the destination is not removed and has a name, the source is
/// another output that is not removed.
pub open spec fn home_call_valid(outs: Seq<Output>, t: (int, int, int)) -> bool {
    let (d, s, w) = t;
    &&& 0 <= d < outs.len()
    &&& 0 <= s < outs.len()
    &&& 0 <= w < WORKSPACE_COUNT
    &&& d != s
    &&& !outs[d].is_removed
    &&& outs[d].name is Some
    &&& !outs[s].is_removed
}

/// `calls` lists, in increasing order, exactly the valid calls before
/// `bound`.
pub open spec fn home_calls_ok(calls: Seq<(int, int, int)>, outs: Seq<Output>, bound: (int, int, int)) -> bool {
    &&& forall|j: int| 0 <= j < calls.len() ==> home_call_valid(outs, #[trigger] calls[j]) && lex_lt(calls[j], bound)
    &&& forall|j: int, k: int| 0 <= j < k < calls.len() ==> lex_lt(#[trigger] calls[j], #[trigger] calls[k])
    &&& forall|t: (int, int, int)| #[trigger] home_call_valid(outs, t) && lex_lt(t, bound) ==> calls.contains(t)
}

/// One step of sending windows home: the windows of workspace `w` of output
/// `s` tagged with the name of output `d` move to the front of workspace
/// `w` of `d`, untagged.
pub open spec fn home_step_ok(cur: WindowManager, prev: WindowManager, t: (int, int, int), moved_any: bool) -> bool {
    let (d, s, w) = t;
    let name = prev.outputs@[d].name.unwrap()@;
    let sw = prev.ws(s, w);
    let dw = prev.ws(d, w);
    let moved = moved_windows(sw.window_list@, name);
    &&& moved_any == (moved.len() > 0)
    &&& cur.same_but_outputs(&prev)
    &&& !moved_any ==> {
        &&& cur.same_but_workspaces(&prev, |o: int, v: int| o == s && v == w)
        &&& ws_same_view(cur.ws(s, w), sw)
    }
    &&& moved_any ==> {
        &&& cur.same_but_workspaces(&prev, |o: int, v: int| (o == s || o == d) && v == w)
        &&& cur.ws(s, w).window_list@ == kept_windows(sw.window_list@, name)
        &&& cur.ws(s, w).focused_window_idx == focus_after_taking(
            sw.focused_window_idx,
            sw.window_list@,
            name,
            sw.window_list@.len() as int,
        )
        &&& cur.ws(s, w).layout == sw.layout
        &&& cur.ws(s, w).is_floating == sw.is_floating
        &&& cur.ws(d, w).window_list@ == moved + dw.window_list@
        &&& cur.ws(d, w).focused_window_idx == match dw.focused_window_idx {
            Some(f) => Some(f),
            None => Some(0usize),
        }
        &&& cur.ws(d, w).layout == dw.layout
        &&& cur.ws(d, w).is_floating == dw.is_floating
    }
}

/// Sending windows home turns `pre` into `post`: every valid call, in
/// order, is one step; `any` tells whether some window moved.
pub open spec fn home_pass_ok(post: WindowManager, pre: WindowManager, any: bool) -> bool {
    exists|states: Seq<WindowManager>, calls: Seq<(int, int, int)>, flags: Seq<bool>|
        #![trigger states.len(), calls.len(), flags.len()]
        home_calls_ok(calls, pre.outputs@, (pre.outputs@.len() as int, 0, 0))
            && states.len() == calls.len() + 1 && flags.len() == calls.len()
            && states[0] == pre && states.last() == post
            && (forall|j: int| 0 <= j < calls.len() ==> #[trigger] home_step_ok(states[j + 1], states[j], calls[j], flags[j]))
            && any == (exists|j: int| 0 <= j < flags.len() && #[trigger] flags[j])
}

/// Move windows back to the output whose name matches the output they
/// were moved away from.
fn return_windows_home(wm: &mut WindowManager) -> (any: bool)
    requires
        old(wm).inv(),
    ensures
        final(wm).inv(),
        home_pass_ok(*final(wm), *old(wm), any),
{
    let ghost pre = *wm;
    let ghost outs = pre.outputs@;
    let ghost mut states: Seq<WindowManager> = seq![pre];
    let ghost mut calls: Seq<(int, int, int)> = Seq::empty();
    let ghost mut flags: Seq<bool> = Seq::empty();
    let mut any = false;
    let n = wm.outputs.len();
    let mut d: usize = 0;
    while d < n
        invariant
            wm.inv(),
            n == outs.len(),
            wm.outputs@.len() == n,
            forall|o: int| 0 <= o < n ==> output_same_but_workspaces(#[trigger] wm.outputs@[o], outs[o]),
            d <= n,
            home_calls_ok(calls, outs, (d as int, 0, 0)),
            states.len() == calls.len() + 1,
            flags.len() == calls.len(),
            states[0] == pre,
            states.last() == *wm,
            forall|j: int| 0 <= j < calls.len() ==> #[trigger] home_step_ok(states[j + 1], states[j], calls[j], flags[j]),
            any == exists|j: int| 0 <= j < flags.len() && #[trigger] flags[j],
        decreases n - d,
    {
        if wm.outputs[d].is_removed || wm.outputs[d].name.is_none() {
            proof {
                assert forall|t: (int, int, int)| #[trigger] home_call_valid(outs, t) && lex_lt(t, (d + 1, 0, 0)) implies calls.contains(t) by {
                    if t.0 == d {
                        assert(output_same_but_workspaces(wm.outputs@[d as int], outs[d as int]));
                    }
                }
                assert forall|j: int| 0 <= j < calls.len() implies home_call_valid(outs, #[trigger] calls[j]) && lex_lt(calls[j], (d + 1, 0, 0)) by {}
            }
            d = d + 1;
            continue;
        }
        let dst_name = crate::types::copy_name(&wm.outputs[d].name).unwrap();
        let mut s: usize = 0;
        while s < n
            invariant
                wm.inv(),
                n == outs.len(),
                wm.outputs@.len() == n,
                forall|o: int| 0 <= o < n ==> output_same_but_workspaces(#[trigger] wm.outputs@[o], outs[o]),
                d < n,
                !outs[d as int].is_removed,
                outs[d as int].name == Some(dst_name),
                s <= n,
                home_calls_ok(calls, outs, (d as int, s as int, 0)),
                states.len() == calls.len() + 1,
                flags.len() == calls.len(),
                states[0] == pre,
                states.last() == *wm,
                forall|j: int| 0 <= j < calls.len() ==> #[trigger] home_step_ok(states[j + 1], states[j], calls[j], flags[j]),
                any == exists|j: int| 0 <= j < flags.len() && #[trigger] flags[j],
            decreases n - s,
        {
            if s == d || wm.outputs[s].is_removed {
                proof {
                    assert forall|t: (int, int, int)| #[trigger] home_call_valid(outs, t) && lex_lt(t, (d as int, s + 1, 0)) implies calls.contains(t) by {
                        if t.0 == d && t.1 == s {
                            assert(output_same_but_workspaces(wm.outputs@[s as int], outs[s as int]));
                        }
                    }
                    assert forall|j: int| 0 <= j < calls.len() implies home_call_valid(outs, #[trigger] calls[j]) && lex_lt(calls[j], (d as int, s + 1, 0)) by {}
                }
                s = s + 1;
                continue;
            }
            let mut w: usize = 0;
            while w < WORKSPACE_COUNT
                invariant
                    wm.inv(),
                    n == outs.len(),
                    wm.outputs@.len() == n,
                    forall|o: int| 0 <= o < n ==> output_same_but_workspaces(#[trigger] wm.outputs@[o], outs[o]),
                    d < n,
                    s < n,
                    s != d,
                    !outs[d as int].is_removed,
                    !outs[s as int].is_removed,
                    outs[d as int].name == Some(dst_name),
                    w <= WORKSPACE_COUNT,
                    home_calls_ok(calls, outs, (d as int, s as int, w as int)),
                    states.len() == calls.len() + 1,
                    flags.len() == calls.len(),
                    states[0] == pre,
                    states.last() == *wm,
                    forall|j: int| 0 <= j < calls.len() ==> #[trigger] home_step_ok(states[j + 1], states[j], calls[j], flags[j]),
                    any == exists|j: int| 0 <= j < flags.len() && #[trigger] flags[j],
                decreases WORKSPACE_COUNT - w,
            {
                let ghost prev = *wm;
                proof {
                    assert(output_wf(wm.outputs@[s as int]));
                    assert(output_wf(wm.outputs@[d as int]));
                    assert(output_same_but_workspaces(wm.outputs@[d as int], outs[d as int]));
                }
                let moved = migrate_windows_by_name(wm, s, d, w, &dst_name);
                proof {
                    let t = (d as int, s as int, w as int);
                    assert(prev.outputs@[d as int].name == Some(dst_name));
                    assert(home_step_ok(*wm, prev, t, moved));
                    let old_states = states;
                    let old_calls = calls;
                    let old_flags = flags;
                    states = states.push(*wm);
                    calls = calls.push(t);
                    flags = flags.push(moved);
                    assert forall|j: int| 0 <= j < calls.len() implies #[trigger] home_step_ok(states[j + 1], states[j], calls[j], flags[j]) by {
                        if j < old_calls.len() {
                            assert(states[j + 1] == old_states[j + 1]);
                            assert(states[j] == old_states[j]);
                            assert(calls[j] == old_calls[j]);
                            assert(flags[j] == old_flags[j]);
                        }
                    }
                    assert(home_call_valid(outs, t));
                    assert forall|j: int| 0 <= j < calls.len() implies home_call_valid(outs, #[trigger] calls[j]) && lex_lt(calls[j], (d as int, s as int, w + 1)) by {
                        if j < old_calls.len() { assert(calls[j] == old_calls[j]); }
                    }
                    assert forall|j: int, k: int| 0 <= j < k < calls.len() implies lex_lt(#[trigger] calls[j], #[trigger] calls[k]) by {
                        if k < old_calls.len() { assert(calls[j] == old_calls[j]); assert(calls[k] == old_calls[k]); }
                        else if j < old_calls.len() { assert(calls[j] == old_calls[j]); }
                    }
                    assert forall|u: (int, int, int)| #[trigger] home_call_valid(outs, u) && lex_lt(u, (d as int, s as int, w + 1)) implies calls.contains(u) by {
                        if u == t {
                            assert(calls[calls.len() - 1] == t);
                        } else {
                            assert(old_calls.contains(u));
                            let j = choose|j: int| 0 <= j < old_calls.len() && old_calls[j] == u;
                            assert(calls[j] == u);
                        }
                    }
                    if moved {
                        assert(flags[flags.len() - 1]);
                    }
                    if any {
                        let k = choose|k: int| 0 <= k < old_flags.len() && #[trigger] old_flags[k];
                        assert(flags[k]);
                    }
                    if !any && !moved {
                        assert forall|k: int| 0 <= k < flags.len() implies !#[trigger] flags[k] by {
                            if k < old_flags.len() { assert(flags[k] == old_flags[k]); }
                        }
                    }
                    assert forall|o: int| 0 <= o < n implies output_same_but_workspaces(#[trigger] wm.outputs@[o], outs[o]) by {
                        assert(output_same_but_workspaces(wm.outputs@[o], prev.outputs@[o]));
                    }
                    assert forall|o: int| 0 <= o < wm.outputs@.len() implies output_wf(#[trigger] wm.outputs@[o]) by {
                        assert(output_same_but_workspaces(wm.outputs@[o], prev.outputs@[o]));
                    }
                }
                if moved {
                    any = true;
                }
                w = w + 1;
            }
            proof {
                assert forall|t: (int, int, int)| #[trigger] home_call_valid(outs, t) && lex_lt(t, (d as int, s + 1, 0)) implies calls.contains(t) by {
                    assert(lex_lt(t, (d as int, s as int, WORKSPACE_COUNT as int)));
                }
                assert forall|j: int| 0 <= j < calls.len() implies home_call_valid(outs, #[trigger] calls[j]) && lex_lt(calls[j], (d as int, s + 1, 0)) by {}
            }
            s = s + 1;
        }
        proof {
            assert forall|t: (int, int, int)| #[trigger] home_call_valid(outs, t) && lex_lt(t, (d + 1, 0, 0)) implies calls.contains(t) by {
                assert(lex_lt(t, (d as int, n as int, 0)));
            }
            assert forall|j: int| 0 <= j < calls.len() implies home_call_valid(outs, #[trigger] calls[j]) && lex_lt(calls[j], (d + 1, 0, 0)) by {}
        }
        d = d + 1;
    }
    any
}


/// Requests that prepare a pending window once, before it is shown:
/// server-side decorations when configured, tiled on all edges, no size
/// proposal yet, hidden.
pub open spec fn pending_reqs(p: PendingWindow, no_csd: bool) -> Seq<Request> {
    if p.initialized {
        Seq::empty()
    } else {
        (if no_csd {
            seq![Request::UseSsd(p.id)]
        } else {
            Seq::empty()
        }) + seq![Request::SetTiled(p.id), Request::ProposeDimensions(p.id, 0, 0), Request::Hide(p.id)]
    }
}

/// The preparation requests of all pending windows, in order.
pub open spec fn pendings_reqs(ps: Seq<PendingWindow>, no_csd: bool) -> Seq<Request>
    decreases ps.len(),
{
    if ps.len() == 0 {
        Seq::empty()
    } else {
        pendings_reqs(ps.drop_last(), no_csd) + pending_reqs(ps.last(), no_csd)
    }
}

/// A pending window marked prepared.
pub open spec fn initialized(p: PendingWindow) -> PendingWindow {
    PendingWindow { initialized: true, ..p }
}

/// Prepare every pending window that was not prepared yet.
fn init_pending(wm: &mut WindowManager, reqs: &mut Vec<Request>)
    ensures
        final(wm).pending_windows@ == old(wm).pending_windows@.map_values(|p: PendingWindow| initialized(p)),
        final(wm).outputs@ == old(wm).outputs@,
        final(wm).detached_outputs@ == old(wm).detached_outputs@,
        final(wm).config == old(wm).config,
        final(wm).focused_output_idx == old(wm).focused_output_idx,
        final(wm).previous_workspace == old(wm).previous_workspace,
        final(wm).overview_state == old(wm).overview_state,
        final(wm).status == old(wm).status,
        final(wm).needs_refocus == old(wm).needs_refocus,
        final(wm).needs_setup_bindings == old(wm).needs_setup_bindings,
        final(wm).should_exit_loop == old(wm).should_exit_loop,
        final(wm).last_focused_window == old(wm).last_focused_window,
        final(wm).layer_shell_focus == old(wm).layer_shell_focus,
        final(wm).session_locked == old(wm).session_locked,
        final(wm).lock_focus == old(wm).lock_focus,
        final(wm).needs_pointer_warp == old(wm).needs_pointer_warp,
        final(reqs)@ == old(reqs)@ + pendings_reqs(old(wm).pending_windows@, old(wm).config.no_csd),
{
    let ghost p0 = old(wm).pending_windows@;
    let ghost start = old(reqs)@;
    let no_csd = wm.config.no_csd;
    let mut i: usize = 0;
    while i < wm.pending_windows.len()
        invariant
            i <= p0.len(),
            wm.pending_windows@.len() == p0.len(),
            no_csd == old(wm).config.no_csd,
            forall|j: int| 0 <= j < i ==> #[trigger] wm.pending_windows@[j] == initialized(p0[j]),
            forall|j: int| i <= j < p0.len() ==> #[trigger] wm.pending_windows@[j] == p0[j],
            wm.outputs@ == old(wm).outputs@,
            wm.detached_outputs@ == old(wm).detached_outputs@,
            wm.config == old(wm).config,
            wm.focused_output_idx == old(wm).focused_output_idx,
            wm.previous_workspace == old(wm).previous_workspace,
            wm.overview_state == old(wm).overview_state,
            wm.status == old(wm).status,
            wm.needs_refocus == old(wm).needs_refocus,
            wm.needs_setup_bindings == old(wm).needs_setup_bindings,
            wm.should_exit_loop == old(wm).should_exit_loop,
            wm.last_focused_window == old(wm).last_focused_window,
            wm.layer_shell_focus == old(wm).layer_shell_focus,
            wm.session_locked == old(wm).session_locked,
            wm.lock_focus == old(wm).lock_focus,
            wm.needs_pointer_warp == old(wm).needs_pointer_warp,
            reqs@ == start + pendings_reqs(p0.take(i as int), no_csd),
        decreases p0.len() - i,
    {
        let ghost before = reqs@;
        let pending = &mut wm.pending_windows[i];
        if !pending.initialized {
            if no_csd {
                reqs.push(Request::UseSsd(pending.id));
            }
            reqs.push(Request::SetTiled(pending.id));
            reqs.push(Request::ProposeDimensions(pending.id, 0, 0));
            reqs.push(Request::Hide(pending.id));
            pending.initialized = true;
        }
        proof {
            assert(p0.take(i + 1).drop_last() =~= p0.take(i as int));
            assert(reqs@ =~= before + pending_reqs(p0[i as int], no_csd));
        }
        i = i + 1;
    }
    proof {
        lemma_take_all(p0);
        assert(wm.pending_windows@ =~= p0.map_values(|p: PendingWindow| initialized(p)));
    }
}

/// `v / 2` rounded toward zero.
pub open spec fn half(v: i32) -> i32 {
    if v >= 0 {
        (v / 2) as i32
    } else {
        (-((-v) / 2)) as i32
    }
}

fn half_exec(v: i32) -> (r: i32)
    ensures
        r == half(v),
{
    let w: i64 = v as i64;
    if w >= 0 {
        (w / 2) as i32
    } else {
        let m: i64 = -w;
        (-(m / 2)) as i32
    }
}

/// The center of a rectangle (in 32-bit wrapping arithmetic, as the release
/// build computes it).
pub open spec fn center_x(r: Rectangle) -> i32 {
    r.x.wrapping_add(half(r.width))
}

/// See `center_x`.
pub open spec fn center_y(r: Rectangle) -> i32 {
    r.y.wrapping_add(half(r.height))
}

/// The layout pass after layout targets were recomputed: `post` is `pre`
/// as `update` leaves it.
pub open spec fn update_ok<S>(post: WindowManager, pre: WindowManager, scroller: S) -> bool where
    S: Fn(Vec<WindowGeom>, Option<usize>, Rectangle, Rectangle, &Config, i32) -> Vec<WindowGeom>,
 {
    &&& post.same_but_outputs(&pre)
    &&& pre.overview_state is Some ==> post.outputs@ == pre.outputs@
    &&& pre.overview_state is None ==> {
        &&& post.outputs@.len() == pre.outputs@.len()
        &&& forall|o: int|
            0 <= o < pre.outputs@.len() ==> output_same_but_workspaces(
                #[trigger] post.outputs@[o],
                pre.outputs@[o],
            )
        &&& forall|o: int, w: int|
            #![trigger post.ws(o, w)]
            pre.has_ws(o, w) ==> if has_size(pre.outputs@[o]) {
                ws_laid_out(post.ws(o, w), pre.ws(o, w), pre.outputs@[o], w, pre.config, scroller)
            } else {
                post.ws(o, w) == pre.ws(o, w)
            }
    }
}

/// The focus pass: with no focused output nothing changes, else as
/// `apply_focus_and_borders` describes.
pub open spec fn focus_step_ok(post: WindowManager, pre: WindowManager, r: Seq<Request>) -> bool {
    match pre.focused_output_idx {
        None => r == Seq::<Request>::empty() && post == pre,
        Some(foi) => focus_pass_ok(post, pre, foi) && r == focus_outputs_reqs(
            pre.outputs@,
            foi,
            pre.spec_ov_highlight(),
            pre.overview_state is Some,
            pre.config,
        ) + pre.focus_change_reqs(foi),
    }
}

/// The pointer warp at the end of the layout pass: when requested, the
/// pointer goes to the center of the focused output and the request is
/// cleared.
pub open spec fn warp_step_ok(post: WindowManager, pre: WindowManager, r: Seq<Request>) -> bool {
    if pre.needs_pointer_warp {
        &&& post.outputs@ == pre.outputs@
        &&& post.same_but_outputs_and_detached(&WindowManager { needs_pointer_warp: false, ..pre })
        &&& post.detached_outputs@ == pre.detached_outputs@
        &&& r == match pre.spec_focused_output_idx() {
            Some(i) => seq![Request::PointerWarp(center_x(pre.outputs@[i as int].rectangle), center_y(pre.outputs@[i as int].rectangle))],
            None => Seq::empty(),
        }
    } else {
        post == pre && r == Seq::<Request>::empty()
    }
}


/// The structural part of the layout pass on `pre`, giving `post`,
/// requests `r` and whether anything moved: pending windows are prepared;
/// removed outputs are evacuated and go away; detached workspaces return to
/// outputs of the same name, or the rest move to a fallback output; windows
/// go back to their former outputs.
pub open spec fn structure_ok(post: WindowManager, pre: WindowManager, r: Seq<Request>, moved: bool) -> bool {
    exists|s1: WindowManager, s2: WindowManager, s3: WindowManager, s4: WindowManager,
        r2: Seq<Request>, r4: Seq<Request>, a: bool, b: bool, c: bool, d: bool|
        #![trigger removal_pass_ok(s2, s1, r2, a), restore_pass_ok(s3, s2, b), fallback_pass_ok(s4, s3, r4, c), home_pass_ok(post, s4, d)]
        {
            &&& s1.pending_windows@ == pre.pending_windows@.map_values(|p: PendingWindow| initialized(p))
            &&& s1.outputs@ == pre.outputs@
            &&& s1.detached_outputs@ == pre.detached_outputs@
            &&& s1.same_but_outputs_and_detached(&WindowManager { pending_windows: s1.pending_windows, ..pre })
            &&& removal_pass_ok(s2, s1, r2, a)
            &&& restore_pass_ok(s3, s2, b)
            &&& fallback_pass_ok(s4, s3, r4, c)
            &&& home_pass_ok(post, s4, d)
            &&& moved == (a || b || c || d)
            &&& r == pendings_reqs(pre.pending_windows@, pre.config.no_csd) + r2 + r4
        }
}

fn apply_structure(wm: &mut WindowManager, reqs: &mut Vec<Request>) -> (moved: bool)
    requires
        old(wm).inv(),
    ensures
        final(wm).inv(),
        final(reqs)@.len() >= old(reqs)@.len(),
        final(reqs)@.take(old(reqs)@.len() as int) == old(reqs)@,
        structure_ok(*final(wm), *old(wm), final(reqs)@.skip(old(reqs)@.len() as int), moved),
{
    let ghost pre = *wm;
    let ghost start = old(reqs)@;
    init_pending(wm, reqs);
    let ghost s1 = *wm;
    let ghost l1 = reqs@.len();
    let ghost q1 = reqs@;
    let a = handle_removed_outputs(wm, reqs);
    let ghost s2 = *wm;
    let ghost l2 = reqs@.len();
    let ghost q2 = reqs@;
    let b = restore_detached(wm);
    let ghost s3 = *wm;
    let c = migrate_unmatched_detached(wm, reqs);
    let ghost s4 = *wm;
    let ghost q4 = reqs@;
    let d = return_windows_home(wm);
    proof {
        let all = reqs@;
        let r2 = q2.skip(l1 as int);
        let r4 = q4.skip(l2 as int);
        assert(q2 =~= q1 + r2);
        assert(q4 =~= q2 + r4);
        assert(all.skip(start.len() as int) =~= pendings_reqs(pre.pending_windows@, pre.config.no_csd) + r2 + r4);
        assert(all.take(start.len() as int) =~= start);
        assert(removal_pass_ok(s2, s1, r2, a));
        assert(fallback_pass_ok(s4, s3, r4, c));
    }
    a || b || c || d
}

/// The closing part of the layout pass on `pre`: borders and keyboard
/// focus follow the focused window; floating windows are raised; the
/// pointer warps to the focused output when that was requested.
pub open spec fn finish_ok(post: WindowManager, pre: WindowManager, r: Seq<Request>) -> bool {
    exists|s7: WindowManager, r7: Seq<Request>, r9: Seq<Request>|
        #![trigger focus_step_ok(s7, pre, r7), warp_step_ok(post, s7, r9)]
        {
            &&& focus_step_ok(s7, pre, r7)
            &&& warp_step_ok(post, s7, r9)
            &&& r == r7 + reqs_outputs(s7.outputs@, |o: int, w: int, k: int, win: Window| raise_req(win)) + r9
        }
}

fn apply_finish(wm: &mut WindowManager, reqs: &mut Vec<Request>)
    requires
        old(wm).inv(),
    ensures
        final(wm).inv(),
        final(reqs)@.len() >= old(reqs)@.len(),
        final(reqs)@.take(old(reqs)@.len() as int) == old(reqs)@,
        finish_ok(*final(wm), *old(wm), final(reqs)@.skip(old(reqs)@.len() as int)),
{
    let ghost s6 = *wm;
    let ghost q6 = reqs@;
    apply_focus_and_borders(wm, reqs);
    let ghost s7 = *wm;
    let ghost q7 = reqs@;
    raise_floating_windows(wm, reqs);
    let ghost q8 = reqs@;
    if wm.needs_pointer_warp {
        wm.needs_pointer_warp = false;
        if let Some(i) = wm.focused_output_idx {
            if i < wm.outputs.len() {
                let rect = wm.outputs[i].rectangle;
                let x = rect.x.wrapping_add(half_exec(rect.width));
                let y = rect.y.wrapping_add(half_exec(rect.height));
                reqs.push(Request::PointerWarp(x, y));
            }
        }
    }
    proof {
        let all = reqs@;
        let r7 = q7.skip(q6.len() as int);
        let r9 = all.skip(q8.len() as int);
        assert(q7 =~= q6 + r7);
        match s6.focused_output_idx {
            None => {
                assert(r7 =~= Seq::<Request>::empty());
            },
            Some(foi) => {
                assert(r7 =~= focus_outputs_reqs(
                    s6.outputs@,
                    foi,
                    s6.spec_ov_highlight(),
                    s6.overview_state is Some,
                    s6.config,
                ) + s6.focus_change_reqs(foi));
            },
        }
        assert(focus_step_ok(s7, s6, r7));
        if s7.needs_pointer_warp {
            match s7.spec_focused_output_idx() {
                Some(i) => {
                    assert(r9 =~= seq![Request::PointerWarp(center_x(s7.outputs@[i as int].rectangle), center_y(s7.outputs@[i as int].rectangle))]);
                },
                None => {
                    assert(r9 =~= Seq::<Request>::empty());
                },
            }
        } else {
            assert(r9 =~= Seq::<Request>::empty());
        }
        assert(warp_step_ok(*wm, s7, r9));
        assert(all =~= q8 + r9);
        assert(all.skip(q6.len() as int) =~= r7 + reqs_outputs(s7.outputs@, |o: int, w: int, k: int, win: Window| raise_req(win)) + r9);
        assert(all.take(q6.len() as int) =~= q6);
    }
}

/// The full manage-pass layout of `pre`, giving `post` and requests `r`:
/// the structural part, then layout targets are recomputed when anything
/// moved, then the closing part.
pub open spec fn apply_ok<S>(post: WindowManager, pre: WindowManager, r: Seq<Request>, scroller: S) -> bool where
    S: Fn(Vec<WindowGeom>, Option<usize>, Rectangle, Rectangle, &Config, i32) -> Vec<WindowGeom>,
 {
    exists|s5: WindowManager, s6: WindowManager, ra: Seq<Request>, rb: Seq<Request>, moved: bool|
        #![trigger structure_ok(s5, pre, ra, moved), finish_ok(post, s6, rb)]
        {
            &&& structure_ok(s5, pre, ra, moved)
            &&& if moved {
                update_ok(s6, s5, scroller)
            } else {
                s6 == s5
            }
            &&& finish_ok(post, s6, rb)
            &&& r == ra + rb
        }
}

/// Full manage-pass layout: pending window preparation, removed-output
/// handling (migrate or detach), detached restore, window migration back to
/// their former output, layout update, focus/borders, float raising,
/// pointer warp.
pub fn apply<S>(wm: &mut WindowManager, scroller: &S, reqs: &mut Vec<Request>) where
    S: Fn(Vec<WindowGeom>, Option<usize>, Rectangle, Rectangle, &Config, i32) -> Vec<WindowGeom>,

    requires
        old(wm).inv(),
        forall|v: Vec<WindowGeom>, f: Option<usize>, a: Rectangle, b: Rectangle, c: &Config, y: i32|
            #[trigger] scroller.requires((v, f, a, b, c, y)),
    ensures
        final(wm).inv(),
        final(reqs)@.len() >= old(reqs)@.len(),
        final(reqs)@.take(old(reqs)@.len() as int) == old(reqs)@,
        apply_ok(*final(wm), *old(wm), final(reqs)@.skip(old(reqs)@.len() as int), *scroller),
{
    let ghost pre = *wm;
    let ghost start = old(reqs)@;
    let moved = apply_structure(wm, reqs);
    let ghost s5 = *wm;
    let ghost q5 = reqs@;
    if moved {
        update(wm, scroller);
        proof {
            assert forall|i: int| 0 <= i < wm.outputs@.len() implies output_wf(#[trigger] wm.outputs@[i]) by {
                if s5.overview_state is None {
                    assert(output_same_but_workspaces(wm.outputs@[i], s5.outputs@[i]));
                }
            }
        }
    }
    let ghost s6 = *wm;
    apply_finish(wm, reqs);
    proof {
        let all = reqs@;
        let ra = q5.skip(start.len() as int);
        let rb = all.skip(q5.len() as int);
        assert(structure_ok(s5, pre, ra, moved));
        assert(finish_ok(*wm, s6, rb));
        assert(all.take(q5.len() as int) == q5);
        assert(q5 =~= start + ra);
        assert(all =~= q5 + rb);
        assert(all.skip(start.len() as int) =~= ra + rb);
        assert(all.take(start.len() as int) =~= start);
    }
}

} // verus!

verus! {

/// Committing leaves nothing to commit: after `snap_to_finish`, no window
/// on a live output has a layout target left, and each sits where its
/// target was.
pub proof fn lemma_snapped_nothing_pending(post: WindowManager, pre: WindowManager)
    requires
        snapped_ok(post, pre),
    ensures
        forall|o: int, w: int, k: int|
            #![trigger post.win(o, w, k)]
            pre.has_win(o, w, k) && !pre.outputs@[o].is_removed ==> {
                &&& post.win(o, w, k).geom.finish is None
                &&& pre.win(o, w, k).geom.finish matches Some(f) ==> post.win(o, w, k).geom.current
                    == f
            },
{
    assert forall|o: int, w: int, k: int|
        #![trigger post.win(o, w, k)]
        pre.has_win(o, w, k) && !pre.outputs@[o].is_removed implies {
            &&& post.win(o, w, k).geom.finish is None
            &&& pre.win(o, w, k).geom.finish matches Some(f) ==> post.win(o, w, k).geom.current == f
        } by {
        assert(post.ws(o, w).window_list@ == pre.ws(o, w).window_list@.map_values(
            |win: Window| snap_win(win),
        ));
        assert(post.win(o, w, k) == snap_win(pre.win(o, w, k)));
    }
}

/// After the focus pass every window sits where it was, with its id.
proof fn lemma_focus_pass_window(post: WindowManager, pre: WindowManager, foi: usize, o: int, w: int, k: int)
    requires
        focus_pass_ok(post, pre, foi),
        pre.has_win(o, w, k),
    ensures
        post.has_win(o, w, k),
        post.win(o, w, k).id == pre.win(o, w, k).id,
        post.outputs@[o].focused_workspace_idx == pre.outputs@[o].focused_workspace_idx,
        post.outputs@[o].is_removed == pre.outputs@[o].is_removed,
        post.ws(o, w).focused_window_idx == pre.ws(o, w).focused_window_idx,
        post.ws(o, w).window_list@.len() == pre.ws(o, w).window_list@.len(),
        !pre.outputs@[o].is_removed ==> post.win(o, w, k) == focus_win(
            k,
            pre.win(o, w, k),
            ws_focus_k(pre.outputs@[o], o, foi, w),
            pre.spec_ov_highlight(),
            pre.overview_state is Some,
            pre.config,
        ),
{
    assert(output_same_but_workspaces(post.outputs@[o], pre.outputs@[o]));
    assert(post.has_ws(o, w));
}

/// After the focus pass the same ids are held.
proof fn lemma_focus_pass_holds(post: WindowManager, pre: WindowManager, foi: usize, id: ObjectId)
    requires
        focus_pass_ok(post, pre, foi),
    ensures
        post.holds_id(id) == pre.holds_id(id),
{
    if pre.holds_id(id) {
        let (o, w, k) = choose|o: int, w: int, k: int| #[trigger]
            pre.has_win(o, w, k) && pre.win(o, w, k).id == id;
        lemma_focus_pass_window(post, pre, foi, o, w, k);
        assert(post.has_win(o, w, k) && post.win(o, w, k).id == id);
    }
    if post.holds_id(id) {
        let (o, w, k) = choose|o: int, w: int, k: int| #[trigger]
            post.has_win(o, w, k) && post.win(o, w, k).id == id;
        assert(output_same_but_workspaces(post.outputs@[o], pre.outputs@[o]));
        assert(pre.has_ws(o, w));
        lemma_focus_pass_window(post, pre, foi, o, w, k);
        assert(pre.has_win(o, w, k) && pre.win(o, w, k).id == id);
    }
}

/// A focus pass settles focus and borders: right after one, another pass
/// would send no keyboard-focus request and no border request, because
/// each window's border already matches its focus.
pub proof fn lemma_focus_pass_settles(post: WindowManager, pre: WindowManager, foi: usize)
    requires
        pre.inv(),
        pre.focused_output_idx == Some(foi),
        focus_pass_ok(post, pre, foi),
    ensures
        post.focus_change_reqs(foi) == Seq::<Request>::empty(),
        forall|o: int, w: int, k: int|
            #![trigger post.win(o, w, k)]
            post.has_win(o, w, k) && !post.outputs@[o].is_removed ==> !border_needed(
                post.win(o, w, k).geom,
                win_focused(
                    k,
                    post.win(o, w, k),
                    ws_focus_k(post.outputs@[o], o, foi, w),
                    post.spec_ov_highlight(),
                    post.overview_state is Some,
                ),
                post.config,
            ),
{
    if let Some(ov) = pre.overview_state {
        if ov.highlighted < ov.entries@.len() {
            lemma_focus_pass_holds(post, pre, foi, ov.entries@[ov.highlighted as int].window);
        }
    }
    assert(post.spec_ov_highlight() == pre.spec_ov_highlight());
    let fo = foi as int;
    let fw = pre.outputs@[fo].focused_workspace_idx as int;
    assert(output_wf(pre.outputs@[fo]));
    assert(output_same_but_workspaces(post.outputs@[fo], pre.outputs@[fo]));
    assert(pre.has_ws(fo, fw));
    if pre.overview_state is None {
        let ws = pre.ws(fo, fw);
        if let Some(k) = ws.focused_window_idx {
            if k < ws.window_list@.len() {
                lemma_focus_pass_window(post, pre, foi, fo, fw, k as int);
            } else {
                assert(post.ws(fo, fw).window_list@.len() == ws.window_list@.len()) by {
                    if pre.outputs@[fo].is_removed {
                        assert(post.ws(fo, fw) == pre.ws(fo, fw));
                    } else {
                        assert(post.ws(fo, fw).window_list@.len() == ws.window_list@.len());
                    }
                }
            }
        }
        assert(post.ws(fo, fw).focused_window_idx == ws.focused_window_idx);
    }
    assert(post.spec_desired_focus(foi) == pre.spec_desired_focus(foi));
    assert forall|o: int, w: int, k: int|
        #![trigger post.win(o, w, k)]
        post.has_win(o, w, k) && !post.outputs@[o].is_removed implies !border_needed(
        post.win(o, w, k).geom,
        win_focused(
            k,
            post.win(o, w, k),
            ws_focus_k(post.outputs@[o], o, foi, w),
            post.spec_ov_highlight(),
            post.overview_state is Some,
        ),
        post.config,
    ) by {
        assert(output_same_but_workspaces(post.outputs@[o], pre.outputs@[o]));
        assert(pre.has_ws(o, w));
        assert(post.ws(o, w).window_list@.len() == pre.ws(o, w).window_list@.len());
        lemma_focus_pass_window(post, pre, foi, o, w, k);
        if o == fo && w == pre.outputs@[o].focused_workspace_idx {
            assert(ws_focus_k(post.outputs@[o], o, foi, w) == ws_focus_k(pre.outputs@[o], o, foi, w));
        }
    }
}

/// Workspaces survive an output's removal: once an output is detached, the
/// next output with the same name that the restore pass reaches takes its
/// workspaces back (with nothing recorded as sent) and focuses the same
/// workspace; when no entry was kept under that name before, the kept
/// entries are again what they were.
pub proof fn lemma_detach_restore_roundtrip(
    pre: WindowManager,
    mid: WindowManager,
    idx: int,
    prev: WindowManager,
    cur: WindowManager,
    o: int,
    restored: bool,
)
    requires
        0 <= idx < pre.outputs@.len(),
        pre.outputs@[idx].name is Some,
        detach_ok(mid, pre, idx),
        prev.detached_outputs@ == mid.detached_outputs@,
        0 <= o < prev.outputs@.len(),
        !prev.outputs@[o].is_removed,
        prev.outputs@[o].name is Some,
        prev.outputs@[o].name.unwrap()@ == pre.outputs@[idx].name.unwrap()@,
        restore_step_ok(cur, prev, o, restored),
    ensures
        restored,
        cur.outputs@[o].focused_workspace_idx == pre.outputs@[idx].focused_workspace_idx,
        cur.outputs@[o].workspace_list@.len() == pre.outputs@[idx].workspace_list@.len(),
        forall|w: int|
            0 <= w < pre.outputs@[idx].workspace_list@.len() ==> reset_ws_ok(
                #[trigger] cur.outputs@[o].workspace_list@[w],
                pre.outputs@[idx].workspace_list@[w],
            ),
        !has_detached(pre.detached_outputs@, pre.outputs@[idx].name.unwrap()@)
            ==> cur.detached_outputs@ == pre.detached_outputs@,
{
    let n = pre.outputs@[idx].name.unwrap()@;
    let ds = pre.detached_outputs@;
    let after = mid.detached_outputs@;
    let pos = detach_pos(ds, n);
    assert(0 <= pos < after.len()) by {
        if has_detached(ds, n) {
            let c = detached_index(ds, n);
            assert(0 <= c < ds.len() && ds[c].name@ == n);
        }
    }
    assert(after[pos].name@ == n);
    assert(has_detached(after, n));
    let q = detached_index(after, n);
    assert(0 <= q < after.len() && after[q].name@ == n);
    if q != pos {
        if q < pos {
            assert(after[q].name@ != after[pos].name@);
        } else {
            assert(after[pos].name@ != after[q].name@);
        }
    }
    if !has_detached(ds, n) {
        assert(after.remove(pos) =~= ds);
    }
}

/// None of `dst` was moved away from `name`: all of it is kept.
proof fn lemma_untagged_all_kept(dst: Seq<Window>, name: Seq<char>)
    requires
        forall|i: int| 0 <= i < dst.len() ==> !tagged_for(#[trigger] dst[i], name),
    ensures
        kept_windows(dst, name) == dst,
        moved_windows(dst, name) == Seq::<Window>::empty(),
    decreases dst.len(),
{
    if dst.len() > 0 {
        lemma_untagged_all_kept(dst.drop_last(), name);
        assert(!tagged_for(dst[dst.len() - 1], name));
        assert(dst.drop_last().push(dst.last()) =~= dst);
    }
}

/// Windows come back to their output: the windows that migrated from the
/// output called `name` and were appended to a workspace `dst` holding no
/// window from that output are exactly the ones brought back when it
/// reappears, in order and with their tag cleared, and `dst` keeps its own.
/// When existing tags are kept, the law covers windows that carried none.
pub proof fn lemma_migrated_windows_return(dst: Seq<Window>, src: Seq<Window>, name: String, keep_existing: bool)
    requires
        forall|i: int| 0 <= i < dst.len() ==> !tagged_for(#[trigger] dst[i], name@),
        keep_existing ==> forall|i: int| 0 <= i < src.len() ==> (#[trigger] src[i]).geom.former_output_name is None,
    ensures
        moved_windows(dst + src.map_values(|win: Window| retag(win, Some(name), keep_existing)), name@)
            == src.map_values(|win: Window| untag(win)),
        kept_windows(dst + src.map_values(|win: Window| retag(win, Some(name), keep_existing)), name@)
            == dst,
    decreases src.len(),
{
    let g = |win: Window| retag(win, Some(name), keep_existing);
    let all = dst + src.map_values(g);
    if src.len() == 0 {
        assert(all =~= dst);
        lemma_untagged_all_kept(dst, name@);
        assert(src.map_values(|win: Window| untag(win)) =~= Seq::<Window>::empty());
    } else {
        let init = src.drop_last();
        lemma_migrated_windows_return(dst, init, name, keep_existing);
        assert(all.drop_last() =~= dst + init.map_values(g));
        assert(all.last() == g(src.last()));
        assert(tagged_for(g(src.last()), name@));
        assert(untag(g(src.last())) == untag(src.last()));
        assert(src.map_values(|win: Window| untag(win)) =~= init.map_values(|win: Window| untag(win)).push(
            untag(src.last()),
        ));
    }
}

/// The number of outputs of `outs` marked removed.
pub open spec fn removed_count(outs: Seq<Output>) -> int
    decreases outs.len(),
{
    if outs.len() == 0 {
        0
    } else {
        (if outs[0].is_removed {
            1int
        } else {
            0int
        }) + removed_count(outs.drop_first())
    }
}

/// The focused output index and the remembered workspace's output both
/// name an output (or are unset).
pub open spec fn indices_valid(wm: WindowManager) -> bool {
    &&& wm.focused_output_idx matches Some(f) ==> f < wm.outputs@.len()
    &&& wm.previous_workspace matches Some(p) ==> p.output_idx < wm.outputs@.len()
}

/// After `j` steps of the removal pass over the `from` outputs of `pre`,
/// the outputs not yet reached are `pre`'s, the ones reached are not
/// removed, the list has shrunk by the removed ones among those reached,
/// and the indices pointing at outputs stay valid (all cleared when no
/// output is left).
proof fn lemma_removal_prefix(
    pre: WindowManager,
    states: Seq<WindowManager>,
    parts: Seq<Seq<Request>>,
    flags: Seq<bool>,
    from: int,
    j: int,
)
    requires
        removal_trace_ok(states, parts, flags, from),
        states[0] == pre,
        from == pre.outputs@.len(),
        indices_valid(pre),
        0 <= j <= from,
    ensures
        ({
            let s = states[j];
            let i = from - j;
            &&& s.outputs@.len() == from - removed_count(pre.outputs@.subrange(i, from))
            &&& s.outputs@.len() >= i
            &&& forall|o: int| 0 <= o < i ==> (#[trigger] s.outputs@[o]).is_removed == pre.outputs@[o].is_removed
            &&& forall|o: int| i <= o < s.outputs@.len() ==> !(#[trigger] s.outputs@[o]).is_removed
            &&& indices_valid(s)
            &&& s.pending_windows@ == pre.pending_windows@
            &&& (s.outputs@.len() == 0 && from > 0) ==> {
                &&& s.focused_output_idx is None
                &&& s.previous_workspace is None
                &&& s.last_focused_window is None
            }
        }),
    decreases j,
{
    if j == 0 {
        assert(pre.outputs@.subrange(from, from).len() == 0);
    } else {
        lemma_removal_prefix(pre, states, parts, flags, from, j - 1);
        let prev = states[j - 1];
        let cur = states[j];
        let i = from - j;
        let k = j - 1;
        assert(removal_step_ok(states[k + 1], states[k], from - 1 - k, parts[k], flags[k]));
        let sub = pre.outputs@.subrange(i, from);
        assert(sub.drop_first() =~= pre.outputs@.subrange(i + 1, from));
        assert(sub[0] == pre.outputs@[i]);
        assert(prev.outputs@[i].is_removed == pre.outputs@[i].is_removed);
        if prev.outputs@[i].is_removed {
            let n = prev.outputs@.len() as int;
            let mid = choose|mid: WindowManager| evacuated_ok(mid, prev, i) && dropped_ok(cur, mid, i);
            assert(evacuated_ok(mid, prev, i) && dropped_ok(cur, mid, i));
            assert forall|o: int| 0 <= o < i implies (#[trigger] cur.outputs@[o]).is_removed
                == pre.outputs@[o].is_removed by {
                assert(output_same_but_workspaces(cur.outputs@[o], mid.outputs@[swap_src(o, i, n)]));
                assert(output_same_but_workspaces(mid.outputs@[o], prev.outputs@[o]));
            }
            assert forall|o: int| i <= o < cur.outputs@.len() implies !(#[trigger] cur.outputs@[o]).is_removed by {
                let src = swap_src(o, i, n);
                assert(output_same_but_workspaces(cur.outputs@[o], mid.outputs@[src]));
                assert(src != i);
                assert(output_same_but_workspaces(mid.outputs@[src], prev.outputs@[src]));
            }
            assert(0 <= i < n);
            assert(n == prev.outputs.len());
            lemma_fixup_keeps_focus_valid(prev.focused_output_idx, i as usize, n as usize);
        }
    }
}

/// After the removal pass of `pre`: no output is marked removed, the list
/// lost exactly the removed ones, and the indices pointing at outputs are
/// valid (all cleared when removing left no output).
proof fn lemma_removal_pass(post: WindowManager, pre: WindowManager, r: Seq<Request>, any: bool)
    requires
        removal_pass_ok(post, pre, r, any),
        indices_valid(pre),
    ensures
        post.outputs@.len() == pre.outputs@.len() - removed_count(pre.outputs@),
        forall|o: int| 0 <= o < post.outputs@.len() ==> !(#[trigger] post.outputs@[o]).is_removed,
        indices_valid(post),
        post.pending_windows@ == pre.pending_windows@,
        (post.outputs@.len() == 0 && pre.outputs@.len() > 0) ==> {
            &&& post.focused_output_idx is None
            &&& post.previous_workspace is None
            &&& post.last_focused_window is None
        },
{
    let from = pre.outputs@.len() as int;
    let (states, parts, flags) = choose|states: Seq<WindowManager>, parts: Seq<Seq<Request>>, flags: Seq<bool>|
        #[trigger] removal_trace_ok(states, parts, flags, from) && states[0] == pre && states.last() == post
            && r == concat_parts(parts) && any == (exists|j: int| 0 <= j < flags.len() && #[trigger] flags[j]);
    lemma_removal_prefix(pre, states, parts, flags, from, from);
    assert(pre.outputs@.subrange(0, from) =~= pre.outputs@);
}

/// Outputs keep their removal marks, the indices pointing at them, the
/// last focused window and the pending windows.
pub open spec fn marks_kept(a: WindowManager, b: WindowManager) -> bool {
    &&& a.outputs@.len() == b.outputs@.len()
    &&& forall|o: int| 0 <= o < a.outputs@.len() ==> (#[trigger] a.outputs@[o]).is_removed == b.outputs@[o].is_removed
    &&& a.focused_output_idx == b.focused_output_idx
    &&& a.previous_workspace == b.previous_workspace
    &&& a.last_focused_window == b.last_focused_window
    &&& a.pending_windows@ == b.pending_windows@
}

proof fn lemma_restore_keeps_marks(states: Seq<WindowManager>, flags: Seq<bool>, n: int, j: int)
    requires
        restore_trace_ok(states, flags, n),
        0 <= j <= n,
    ensures
        marks_kept(states[j], states[0]),
    decreases j,
{
    if j > 0 {
        lemma_restore_keeps_marks(states, flags, n, j - 1);
        let o = j - 1;
        assert(restore_step_ok(states[o + 1], states[o], o, flags[o]));
        assert forall|q: int| 0 <= q < states[j].outputs@.len() implies (#[trigger] states[j].outputs@[q]).is_removed
            == states[j - 1].outputs@[q].is_removed by {}
    }
}

proof fn lemma_fallback_keeps_marks(states: Seq<WindowManager>, parts: Seq<Seq<Request>>, f: int, j: int)
    requires
        states.len() == parts.len() + 1,
        forall|k: int| 0 <= k < parts.len() ==> #[trigger] fallback_step_ok(states[k + 1], states[k], f, parts[k]),
        0 <= j <= parts.len(),
    ensures
        marks_kept(states[j], states[0]),
    decreases j,
{
    if j > 0 {
        lemma_fallback_keeps_marks(states, parts, f, j - 1);
        let k = j - 1;
        assert(fallback_step_ok(states[k + 1], states[k], f, parts[k]));
        assert forall|q: int| 0 <= q < states[j].outputs@.len() implies (#[trigger] states[j].outputs@[q]).is_removed
            == states[j - 1].outputs@[q].is_removed by {
            assert(output_same_but_workspaces(states[j].outputs@[q], states[j - 1].outputs@[q]));
        }
    }
}

proof fn lemma_home_keeps_marks(
    states: Seq<WindowManager>,
    calls: Seq<(int, int, int)>,
    flags: Seq<bool>,
    j: int,
)
    requires
        states.len() == calls.len() + 1,
        flags.len() == calls.len(),
        forall|k: int| 0 <= k < calls.len() ==> #[trigger] home_step_ok(states[k + 1], states[k], calls[k], flags[k]),
        0 <= j <= calls.len(),
    ensures
        marks_kept(states[j], states[0]),
    decreases j,
{
    if j > 0 {
        lemma_home_keeps_marks(states, calls, flags, j - 1);
        let k = j - 1;
        assert(home_step_ok(states[k + 1], states[k], calls[k], flags[k]));
        assert forall|q: int| 0 <= q < states[j].outputs@.len() implies (#[trigger] states[j].outputs@[q]).is_removed
            == states[j - 1].outputs@[q].is_removed by {
            assert(output_same_but_workspaces(states[j].outputs@[q], states[j - 1].outputs@[q]));
        }
    }
}

/// After a manage pass's layout, no output is left marked removed: the
/// output list lost exactly the removed outputs, the focused output and
/// the remembered workspace's output are valid indices (and when removing
/// left no output, they and the last focused window are cleared), no
/// pointer warp is pending, and every pending window is prepared.
pub proof fn lemma_apply_drops_removed<S>(post: WindowManager, pre: WindowManager, r: Seq<Request>, scroller: S)
    where
        S: Fn(Vec<WindowGeom>, Option<usize>, Rectangle, Rectangle, &Config, i32) -> Vec<WindowGeom>,
    requires
        pre.inv(),
        pre.previous_workspace matches Some(p) ==> p.output_idx < pre.outputs@.len(),
        apply_ok(post, pre, r, scroller),
    ensures
        post.outputs@.len() == pre.outputs@.len() - removed_count(pre.outputs@),
        forall|o: int| 0 <= o < post.outputs@.len() ==> !(#[trigger] post.outputs@[o]).is_removed,
        indices_valid(post),
        !post.needs_pointer_warp,
        post.pending_windows@ == pre.pending_windows@.map_values(|p: PendingWindow| initialized(p)),
        (removed_count(pre.outputs@) > 0 && post.outputs@.len() == 0) ==> {
            &&& post.focused_output_idx is None
            &&& post.previous_workspace is None
            &&& post.last_focused_window is None
        },
{
    let (s5, s6, ra, rb, moved) = choose|s5: WindowManager, s6: WindowManager, ra: Seq<Request>, rb: Seq<Request>, moved: bool|
        #![trigger structure_ok(s5, pre, ra, moved), finish_ok(post, s6, rb)]
        {
            &&& structure_ok(s5, pre, ra, moved)
            &&& if moved { update_ok(s6, s5, scroller) } else { s6 == s5 }
            &&& finish_ok(post, s6, rb)
            &&& r == ra + rb
        };
    let (s1, s2, s3, s4, r2, r4, a, b, c, d) = choose|s1: WindowManager, s2: WindowManager, s3: WindowManager, s4: WindowManager,
        r2: Seq<Request>, r4: Seq<Request>, a: bool, b: bool, c: bool, d: bool|
        #![trigger removal_pass_ok(s2, s1, r2, a), restore_pass_ok(s3, s2, b), fallback_pass_ok(s4, s3, r4, c), home_pass_ok(s5, s4, d)]
        {
            &&& s1.pending_windows@ == pre.pending_windows@.map_values(|p: PendingWindow| initialized(p))
            &&& s1.outputs@ == pre.outputs@
            &&& s1.detached_outputs@ == pre.detached_outputs@
            &&& s1.same_but_outputs_and_detached(&WindowManager { pending_windows: s1.pending_windows, ..pre })
            &&& removal_pass_ok(s2, s1, r2, a)
            &&& restore_pass_ok(s3, s2, b)
            &&& fallback_pass_ok(s4, s3, r4, c)
            &&& home_pass_ok(s5, s4, d)
            &&& moved == (a || b || c || d)
            &&& ra == pendings_reqs(pre.pending_windows@, pre.config.no_csd) + r2 + r4
        };
    lemma_removal_pass(s2, s1, r2, a);
    // restore
    let (rs, rf) = choose|states: Seq<WindowManager>, flags: Seq<bool>|
        #[trigger] restore_trace_ok(states, flags, s2.outputs@.len() as int) && states[0] == s2
            && states.last() == s3 && b == (exists|j: int| 0 <= j < flags.len() && #[trigger] flags[j]);
    lemma_restore_keeps_marks(rs, rf, s2.outputs@.len() as int, s2.outputs@.len() as int);
    assert(marks_kept(s3, s2));
    // fallback
    if fallback_from(s3.outputs@, 0) is Some && s3.detached_outputs@.len() > 0 {
        let f = fallback_from(s3.outputs@, 0).unwrap();
        let (fs, fp) = choose|states: Seq<WindowManager>, parts: Seq<Seq<Request>>|
            #![trigger states.len(), parts.len()]
            states.len() == s3.detached_outputs@.len() + 1 && parts.len() == s3.detached_outputs@.len()
                && states[0] == s3 && states.last() == s4 && r4 == concat_parts(parts)
                && forall|j: int| 0 <= j < parts.len() ==> #[trigger] fallback_step_ok(states[j + 1], states[j], f, parts[j]);
        lemma_fallback_keeps_marks(fs, fp, f, fp.len() as int);
    }
    assert(marks_kept(s4, s3));
    // home
    let (hs, hc, hf) = choose|states: Seq<WindowManager>, calls: Seq<(int, int, int)>, flags: Seq<bool>|
        #![trigger states.len(), calls.len(), flags.len()]
        home_calls_ok(calls, s4.outputs@, (s4.outputs@.len() as int, 0, 0))
            && states.len() == calls.len() + 1 && flags.len() == calls.len()
            && states[0] == s4 && states.last() == s5
            && (forall|j: int| 0 <= j < calls.len() ==> #[trigger] home_step_ok(states[j + 1], states[j], calls[j], flags[j]))
            && d == (exists|j: int| 0 <= j < flags.len() && #[trigger] flags[j]);
    lemma_home_keeps_marks(hs, hc, hf, hc.len() as int);
    assert(marks_kept(s5, s4));
    // layout update
    if moved {
        assert forall|q: int| 0 <= q < s6.outputs@.len() implies (#[trigger] s6.outputs@[q]).is_removed
            == s5.outputs@[q].is_removed by {
            if s5.overview_state is None {
                assert(output_same_but_workspaces(s6.outputs@[q], s5.outputs@[q]));
            }
        }
    }
    assert(marks_kept(s6, s5));
    // focus and warp
    let (s7, r7, r9) = choose|s7: WindowManager, r7: Seq<Request>, r9: Seq<Request>|
        #![trigger focus_step_ok(s7, s6, r7), warp_step_ok(post, s7, r9)]
        {
            &&& focus_step_ok(s7, s6, r7)
            &&& warp_step_ok(post, s7, r9)
            &&& rb == r7 + reqs_outputs(s7.outputs@, |o: int, w: int, k: int, win: Window| raise_req(win)) + r9
        };
    if s6.focused_output_idx is Some {
        assert forall|q: int| 0 <= q < s7.outputs@.len() implies (#[trigger] s7.outputs@[q]).is_removed
            == s6.outputs@[q].is_removed by {
            assert(output_same_but_workspaces(s7.outputs@[q], s6.outputs@[q]));
        }
    }
    assert(s7.outputs@.len() == s6.outputs@.len());
    assert(s7.focused_output_idx == s6.focused_output_idx);
    assert(s7.previous_workspace == s6.previous_workspace);
    assert(s7.pending_windows@ == s6.pending_windows@);
    assert(s6.focused_output_idx is None ==> s7.last_focused_window == s6.last_focused_window);
    assert forall|q: int| 0 <= q < post.outputs@.len() implies !(#[trigger] post.outputs@[q]).is_removed by {
        assert(post.outputs@[q].is_removed == s7.outputs@[q].is_removed);
        assert(s7.outputs@[q].is_removed == s6.outputs@[q].is_removed);
        assert(s6.outputs@[q].is_removed == s5.outputs@[q].is_removed);
        assert(s5.outputs@[q].is_removed == s4.outputs@[q].is_removed);
        assert(s4.outputs@[q].is_removed == s3.outputs@[q].is_removed);
        assert(s3.outputs@[q].is_removed == s2.outputs@[q].is_removed);
    }
}

/// A manage pass on a manager whose only output is marked removed and
/// named, with nothing kept yet: the output goes away and its workspaces
/// and focused workspace are kept under its name.
proof fn lemma_apply_detaches_sole_output<S>(post: WindowManager, pre: WindowManager, r: Seq<Request>, scroller: S)
    where
        S: Fn(Vec<WindowGeom>, Option<usize>, Rectangle, Rectangle, &Config, i32) -> Vec<WindowGeom>,
    requires
        pre.outputs@.len() == 1,
        pre.outputs@[0].is_removed,
        pre.outputs@[0].name is Some,
        pre.detached_outputs@.len() == 0,
        apply_ok(post, pre, r, scroller),
    ensures
        post.outputs@.len() == 0,
        post.detached_outputs@.len() == 1,
        post.detached_outputs@[0].name@ == pre.outputs@[0].name.unwrap()@,
        post.detached_outputs@[0].detached.workspace_list@ == pre.outputs@[0].workspace_list@,
        post.detached_outputs@[0].detached.focused_workspace_idx == pre.outputs@[0].focused_workspace_idx,
{
    let (s5, s6, ra, rb, moved) = choose|s5: WindowManager, s6: WindowManager, ra: Seq<Request>, rb: Seq<Request>, moved: bool|
        #![trigger structure_ok(s5, pre, ra, moved), finish_ok(post, s6, rb)]
        {
            &&& structure_ok(s5, pre, ra, moved)
            &&& if moved { update_ok(s6, s5, scroller) } else { s6 == s5 }
            &&& finish_ok(post, s6, rb)
            &&& r == ra + rb
        };
    let (s1, s2, s3, s4, r2, r4, a, b, c, d) = choose|s1: WindowManager, s2: WindowManager, s3: WindowManager, s4: WindowManager,
        r2: Seq<Request>, r4: Seq<Request>, a: bool, b: bool, c: bool, d: bool|
        #![trigger removal_pass_ok(s2, s1, r2, a), restore_pass_ok(s3, s2, b), fallback_pass_ok(s4, s3, r4, c), home_pass_ok(s5, s4, d)]
        {
            &&& s1.pending_windows@ == pre.pending_windows@.map_values(|p: PendingWindow| initialized(p))
            &&& s1.outputs@ == pre.outputs@
            &&& s1.detached_outputs@ == pre.detached_outputs@
            &&& s1.same_but_outputs_and_detached(&WindowManager { pending_windows: s1.pending_windows, ..pre })
            &&& removal_pass_ok(s2, s1, r2, a)
            &&& restore_pass_ok(s3, s2, b)
            &&& fallback_pass_ok(s4, s3, r4, c)
            &&& home_pass_ok(s5, s4, d)
            &&& moved == (a || b || c || d)
            &&& ra == pendings_reqs(pre.pending_windows@, pre.config.no_csd) + r2 + r4
        };
    let (s7, r7, r9) = choose|s7: WindowManager, r7: Seq<Request>, r9: Seq<Request>|
        #![trigger focus_step_ok(s7, s6, r7), warp_step_ok(post, s7, r9)]
        {
            &&& focus_step_ok(s7, s6, r7)
            &&& warp_step_ok(post, s7, r9)
            &&& rb == r7 + reqs_outputs(s7.outputs@, |o: int, w: int, k: int, win: Window| raise_req(win)) + r9
        };
    let (ts, tp, tf) = choose|states: Seq<WindowManager>, parts: Seq<Seq<Request>>, flags: Seq<bool>|
        #[trigger] removal_trace_ok(states, parts, flags, s1.outputs@.len() as int)
            && states[0] == s1 && states.last() == s2 && r2 == concat_parts(parts) && a == (
        exists|j: int| 0 <= j < flags.len() && #[trigger] flags[j]);
    let (rs, rf) = choose|states: Seq<WindowManager>, flags: Seq<bool>|
        #[trigger] restore_trace_ok(states, flags, s2.outputs@.len() as int) && states[0] == s2
            && states.last() == s3 && b == (exists|j: int| 0 <= j < flags.len() && #[trigger] flags[j]);
    let (hs, hc, hf) = choose|states: Seq<WindowManager>, calls: Seq<(int, int, int)>, flags: Seq<bool>|
        #![trigger states.len(), calls.len(), flags.len()]
        home_calls_ok(calls, s4.outputs@, (s4.outputs@.len() as int, 0, 0))
            && states.len() == calls.len() + 1 && flags.len() == calls.len()
            && states[0] == s4 && states.last() == s5
            && (forall|j: int| 0 <= j < calls.len() ==> #[trigger] home_step_ok(states[j + 1], states[j], calls[j], flags[j]))
            && d == (exists|j: int| 0 <= j < flags.len() && #[trigger] flags[j]);
    let k = 0int;
    assert(removal_step_ok(ts[k + 1], ts[k], 1 - 1 - k, tp[k], tf[k]));
    let mid = choose|mid: WindowManager| evacuated_ok(mid, s1, 0) && dropped_ok(s2, mid, 0);
    assert(evacuated_ok(mid, s1, 0) && dropped_ok(s2, mid, 0));
    assert(survivor_from(s1.outputs@, 0, 1) is None);
    assert(survivor_from(s1.outputs@, 0, 0) is None);
    assert(!has_detached(s1.detached_outputs@, pre.outputs@[0].name.unwrap()@));
    assert(s2.outputs@.len() == 0);
    assert(s3 == s2);
    assert(fallback_from(s3.outputs@, 0) is None);
    assert(s4 == s3);
    assert(s4.outputs@.len() <= 1);
    if hc.len() > 0 {
        assert(home_call_valid(s4.outputs@, hc[0]));
    }
    assert(hs.len() == 1);
    assert(s5 == s4);
    assert(s6.detached_outputs@ == s5.detached_outputs@);
    assert(s6.outputs@.len() == 0);
}

/// A manage pass on a manager whose only output is live and carries the
/// name of the only kept entry: the output takes the entry's workspaces
/// (the same windows, in order, with their focus) and focused workspace,
/// and nothing is kept any more.
proof fn lemma_apply_restores_sole_output<S>(post: WindowManager, pre: WindowManager, r: Seq<Request>, scroller: S)
    where
        S: Fn(Vec<WindowGeom>, Option<usize>, Rectangle, Rectangle, &Config, i32) -> Vec<WindowGeom>,
    requires
        pre.outputs@.len() == 1,
        !pre.outputs@[0].is_removed,
        pre.outputs@[0].name is Some,
        pre.detached_outputs@.len() == 1,
        pre.detached_outputs@[0].name@ == pre.outputs@[0].name.unwrap()@,
        apply_ok(post, pre, r, scroller),
    ensures
        post.detached_outputs@.len() == 0,
        post.outputs@.len() == 1,
        post.outputs@[0].focused_workspace_idx == pre.detached_outputs@[0].detached.focused_workspace_idx,
        post.outputs@[0].workspace_list@.len() == pre.detached_outputs@[0].detached.workspace_list@.len(),
        forall|w: int|
            0 <= w < pre.detached_outputs@[0].detached.workspace_list@.len() ==> {
                let before = pre.detached_outputs@[0].detached.workspace_list@[w];
                &&& (#[trigger] post.ws(0, w)).window_list@.len() == before.window_list@.len()
                &&& post.ws(0, w).focused_window_idx == before.focused_window_idx
                &&& forall|k: int|
                    0 <= k < before.window_list@.len() ==> #[trigger] post.ws(0, w).window_list@[k].id
                        == before.window_list@[k].id
            },
{
    let (s5, s6, ra, rb, moved) = choose|s5: WindowManager, s6: WindowManager, ra: Seq<Request>, rb: Seq<Request>, moved: bool|
        #![trigger structure_ok(s5, pre, ra, moved), finish_ok(post, s6, rb)]
        {
            &&& structure_ok(s5, pre, ra, moved)
            &&& if moved { update_ok(s6, s5, scroller) } else { s6 == s5 }
            &&& finish_ok(post, s6, rb)
            &&& r == ra + rb
        };
    let (s1, s2, s3, s4, r2, r4, a, b, c, d) = choose|s1: WindowManager, s2: WindowManager, s3: WindowManager, s4: WindowManager,
        r2: Seq<Request>, r4: Seq<Request>, a: bool, b: bool, c: bool, d: bool|
        #![trigger removal_pass_ok(s2, s1, r2, a), restore_pass_ok(s3, s2, b), fallback_pass_ok(s4, s3, r4, c), home_pass_ok(s5, s4, d)]
        {
            &&& s1.pending_windows@ == pre.pending_windows@.map_values(|p: PendingWindow| initialized(p))
            &&& s1.outputs@ == pre.outputs@
            &&& s1.detached_outputs@ == pre.detached_outputs@
            &&& s1.same_but_outputs_and_detached(&WindowManager { pending_windows: s1.pending_windows, ..pre })
            &&& removal_pass_ok(s2, s1, r2, a)
            &&& restore_pass_ok(s3, s2, b)
            &&& fallback_pass_ok(s4, s3, r4, c)
            &&& home_pass_ok(s5, s4, d)
            &&& moved == (a || b || c || d)
            &&& ra == pendings_reqs(pre.pending_windows@, pre.config.no_csd) + r2 + r4
        };
    let (s7, r7, r9) = choose|s7: WindowManager, r7: Seq<Request>, r9: Seq<Request>|
        #![trigger focus_step_ok(s7, s6, r7), warp_step_ok(post, s7, r9)]
        {
            &&& focus_step_ok(s7, s6, r7)
            &&& warp_step_ok(post, s7, r9)
            &&& rb == r7 + reqs_outputs(s7.outputs@, |o: int, w: int, k: int, win: Window| raise_req(win)) + r9
        };
    let (ts, tp, tf) = choose|states: Seq<WindowManager>, parts: Seq<Seq<Request>>, flags: Seq<bool>|
        #[trigger] removal_trace_ok(states, parts, flags, s1.outputs@.len() as int)
            && states[0] == s1 && states.last() == s2 && r2 == concat_parts(parts) && a == (
        exists|j: int| 0 <= j < flags.len() && #[trigger] flags[j]);
    let (rs, rf) = choose|states: Seq<WindowManager>, flags: Seq<bool>|
        #[trigger] restore_trace_ok(states, flags, s2.outputs@.len() as int) && states[0] == s2
            && states.last() == s3 && b == (exists|j: int| 0 <= j < flags.len() && #[trigger] flags[j]);
    let (hs, hc, hf) = choose|states: Seq<WindowManager>, calls: Seq<(int, int, int)>, flags: Seq<bool>|
        #![trigger states.len(), calls.len(), flags.len()]
        home_calls_ok(calls, s4.outputs@, (s4.outputs@.len() as int, 0, 0))
            && states.len() == calls.len() + 1 && flags.len() == calls.len()
            && states[0] == s4 && states.last() == s5
            && (forall|j: int| 0 <= j < calls.len() ==> #[trigger] home_step_ok(states[j + 1], states[j], calls[j], flags[j]))
            && d == (exists|j: int| 0 <= j < flags.len() && #[trigger] flags[j]);
    let e = pre.detached_outputs@[0];
    let wl = e.detached.workspace_list@;
    let k = 0int;
    assert(removal_step_ok(ts[k + 1], ts[k], 1 - 1 - k, tp[k], tf[k]));
    assert(s2 == s1);
    let o = 0int;
    assert(restore_step_ok(rs[o + 1], rs[o], o, rf[o]));
    assert(s1.detached_outputs@[0].name@ == s1.outputs@[0].name.unwrap()@);
    assert(has_detached(s2.detached_outputs@, s2.outputs@[0].name.unwrap()@));
    let pos = detached_index(s2.detached_outputs@, s2.outputs@[0].name.unwrap()@);
    assert(pos == 0);
    assert(s3.detached_outputs@.len() == 0);
    assert(s4 == s3);
    assert(s4.outputs@.len() <= 1);
    if hc.len() > 0 {
        assert(home_call_valid(s4.outputs@, hc[0]));
    }
    assert(hs.len() == 1);
    assert(s5 == s4);
    assert(s3.outputs@[0].focused_workspace_idx == e.detached.focused_workspace_idx);
    assert forall|w: int| 0 <= w < wl.len() implies {
        &&& (#[trigger] post.ws(0, w)).window_list@.len() == wl[w].window_list@.len()
        &&& post.ws(0, w).focused_window_idx == wl[w].focused_window_idx
        &&& forall|k: int|
            0 <= k < wl[w].window_list@.len() ==> #[trigger] post.ws(0, w).window_list@[k].id
                == wl[w].window_list@[k].id
    } by {
        assert(reset_ws_ok(s3.outputs@[0].workspace_list@[w], wl[w]));
        assert(s5.has_ws(0, w));
        if moved && s5.overview_state is None {
            assert(output_same_but_workspaces(s6.outputs@[0], s5.outputs@[0]));
            if has_size(s5.outputs@[0]) {
                assert(ws_laid_out(s6.ws(0, w), s5.ws(0, w), s5.outputs@[0], w, s5.config, scroller));
            }
        }
        assert(s6.ws(0, w).window_list@.len() == wl[w].window_list@.len());
        assert(s6.ws(0, w).focused_window_idx == wl[w].focused_window_idx);
        assert(forall|k: int| 0 <= k < wl[w].window_list@.len() ==> #[trigger] s6.ws(0, w).window_list@[k].id
            == wl[w].window_list@[k].id);
        if s6.focused_output_idx is Some {
            let foi = s6.focused_output_idx.unwrap();
            assert(focus_pass_ok(s7, s6, foi));
            assert(output_same_but_workspaces(s7.outputs@[0], s6.outputs@[0]));
            assert(s6.has_ws(0, w));
            assert forall|k: int| 0 <= k < wl[w].window_list@.len() implies #[trigger] s7.ws(0, w).window_list@[k].id
                == wl[w].window_list@[k].id by {
                assert(s6.has_win(0, w, k));
                lemma_focus_pass_window(s7, s6, foi, 0, w, k);
            }
            assert(s7.ws(0, w).focused_window_idx == s6.ws(0, w).focused_window_idx);
            assert(s7.ws(0, w).window_list@.len() == s6.ws(0, w).window_list@.len());
        }
        assert(post.ws(0, w) == s7.ws(0, w));
    }
    if moved && s5.overview_state is None {
        assert(output_same_but_workspaces(s6.outputs@[0], s5.outputs@[0]));
    }
    if s6.focused_output_idx is Some {
        assert(output_same_but_workspaces(s7.outputs@[0], s6.outputs@[0]));
    }
}

/// Workspaces survive their output across manage passes: when the only
/// output, named and with nothing kept yet, is marked removed and a manage
/// pass runs, and later (with the kept entries unchanged) the only output
/// is a live one of the same name and another manage pass runs, that
/// output holds the same windows in every workspace, in order and with the
/// same focus, focuses the same workspace, and nothing is kept any more.
pub proof fn lemma_detach_restore_across_passes<S>(
    s0: WindowManager,
    a1: WindowManager,
    r1: Seq<Request>,
    s1: WindowManager,
    a2: WindowManager,
    r2: Seq<Request>,
    scroller: S,
)
    where
        S: Fn(Vec<WindowGeom>, Option<usize>, Rectangle, Rectangle, &Config, i32) -> Vec<WindowGeom>,
    requires
        s0.outputs@.len() == 1,
        s0.outputs@[0].is_removed,
        s0.outputs@[0].name is Some,
        s0.detached_outputs@.len() == 0,
        apply_ok(a1, s0, r1, scroller),
        s1.detached_outputs@ == a1.detached_outputs@,
        s1.outputs@.len() == 1,
        !s1.outputs@[0].is_removed,
        s1.outputs@[0].name is Some,
        s1.outputs@[0].name.unwrap()@ == s0.outputs@[0].name.unwrap()@,
        apply_ok(a2, s1, r2, scroller),
    ensures
        a2.detached_outputs@.len() == 0,
        a2.outputs@.len() == 1,
        a2.outputs@[0].focused_workspace_idx == s0.outputs@[0].focused_workspace_idx,
        a2.outputs@[0].workspace_list@.len() == s0.outputs@[0].workspace_list@.len(),
        forall|w: int|
            0 <= w < s0.outputs@[0].workspace_list@.len() ==> {
                let before = s0.outputs@[0].workspace_list@[w];
                &&& (#[trigger] a2.ws(0, w)).window_list@.len() == before.window_list@.len()
                &&& a2.ws(0, w).focused_window_idx == before.focused_window_idx
                &&& forall|k: int|
                    0 <= k < before.window_list@.len() ==> #[trigger] a2.ws(0, w).window_list@[k].id
                        == before.window_list@[k].id
            },
{
    lemma_apply_detaches_sole_output(a1, s0, r1, scroller);
    lemma_apply_restores_sole_output(a2, s1, r2, scroller);
}

} // verus!
