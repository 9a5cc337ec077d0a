//! Output management: outputs appear and are focused, learn their geometry,
//! usable area and name, and are marked removed; migrating or detaching a
//! removed output's windows happens in the next layout pass.
use vstd::prelude::*;

use crate::layout::{update, update_ok};
use crate::types::{
    new_workspace_list, Config, ObjectId, Output, Rectangle, Request, Status, WindowGeom,
};
use crate::wm::{lemma_inv_same_shape, output_wf, WindowManager};

verus! {

/// The first index of `s` whose element satisfies `p`.
pub open spec fn first_index<A>(s: Seq<A>, p: spec_fn(A) -> bool) -> Option<int> {
    if exists|i: int| 0 <= i < s.len() && p(s[i]) && forall|j: int| 0 <= j < i ==> !p(s[j]) {
        Some(choose|i: int| 0 <= i < s.len() && p(s[i]) && forall|j: int| 0 <= j < i ==> !p(s[j]))
    } else {
        None
    }
}

/// Pins down `first_index` from a first match.
pub proof fn lemma_first_index<A>(s: Seq<A>, p: spec_fn(A) -> bool, i: int)
    requires
        0 <= i < s.len(),
        p(s[i]),
        forall|j: int| 0 <= j < i ==> !p(s[j]),
    ensures
        first_index(s, p) == Some(i),
{
    let c = choose|c: int| 0 <= c < s.len() && p(s[c]) && forall|j: int| 0 <= j < c ==> !p(s[j]);
    if c < i {
        assert(!p(s[c]));
    } else if c > i {
        assert(!p(s[i]));
    }
}

/// An output object is the one with this id.
pub open spec fn has_id(id: ObjectId) -> spec_fn(Output) -> bool {
    |o: Output| o.id == id
}

/// An output with this id that has a layer-shell output object.
pub open spec fn has_layer_shell(id: ObjectId) -> spec_fn(Output) -> bool {
    |o: Output| o.id == id && o.has_layer_shell_output
}

/// An output with this id whose core output object is bound.
pub open spec fn has_wl_output(id: ObjectId) -> spec_fn(Output) -> bool {
    |o: Output| o.id == id && o.wl_output_version is Some
}

/// An output that was not removed.
pub open spec fn is_live() -> spec_fn(Output) -> bool {
    |o: Output| !o.is_removed
}

/// Which outputs a search looks for.
enum Want {
    Id,
    LayerShell,
    WlOutput,
    Live,
}

spec fn want_pred(want: Want, id: ObjectId) -> spec_fn(Output) -> bool {
    match want {
        Want::Id => has_id(id),
        Want::LayerShell => has_layer_shell(id),
        Want::WlOutput => has_wl_output(id),
        Want::Live => is_live(),
    }
}

fn find_output(outs: &Vec<Output>, want: Want, id: ObjectId) -> (r: Option<usize>)
    ensures
        match r {
            Some(i) => first_index(outs@, want_pred(want, id)) == Some(i as int) && i < outs@.len(),
            None => first_index(outs@, want_pred(want, id)) is None,
        },
{
    let ghost p = want_pred(want, id);
    let mut i: usize = 0;
    while i < outs.len()
        invariant
            i <= outs@.len(),
            p == want_pred(want, id),
            forall|j: int| 0 <= j < i ==> !p(outs@[j]),
        decreases outs@.len() - i,
    {
        let o = &outs[i];
        let hit = match want {
            Want::Id => o.id == id,
            Want::LayerShell => o.id == id && o.has_layer_shell_output,
            Want::WlOutput => o.id == id && o.wl_output_version.is_some(),
            Want::Live => !o.is_removed,
        };
        if hit {
            proof {
                lemma_first_index(outs@, p, i as int);
            }
            return Some(i);
        }
        i = i + 1;
    }
    None
}

/// `post` is `pre` with a new output `id` appended: no name or core
/// output object yet, ten empty workspaces with the first focused, an
/// empty geometry; it becomes the focused output, and the pointer is to be
/// warped to it when there were outputs before.
pub open spec fn added_ok(post: WindowManager, pre: WindowManager, id: ObjectId, has_layer_shell_output: bool) -> bool {
    &&& post.outputs@.len() == pre.outputs@.len() + 1
    &&& post.outputs@.drop_last() == pre.outputs@
    &&& {
        let o = post.outputs@.last();
        &&& o.id == id
        &&& o.has_layer_shell_output == has_layer_shell_output
        &&& o.wl_output_version is None
        &&& o.name is None
        &&& o.workspace_list@.len() == 10
        &&& forall|w: int|
            0 <= w < 10 ==> (#[trigger] o.workspace_list@[w]).window_list@.len() == 0
                && o.workspace_list@[w].focused_window_idx is None
        &&& o.focused_workspace_idx == 0
        &&& o.rectangle == Rectangle { x: 0, y: 0, width: 0, height: 0 }
        &&& o.non_exclusive == Rectangle { x: 0, y: 0, width: 0, height: 0 }
        &&& !o.is_removed
    }
    &&& post.same_but_outputs(
        &WindowManager {
            focused_output_idx: Some(pre.outputs@.len() as usize),
            needs_pointer_warp: pre.needs_pointer_warp || pre.outputs@.len() > 0,
            ..pre
        },
    )
}

/// Create and register an output record. A newly connected output becomes
/// focused; when there were outputs before, the pointer is warped to it on
/// the next layout pass. Workspaces of a reappearing output are restored by
/// the layout pass, keyed by the output's name.
pub fn add(wm: &mut WindowManager, id: ObjectId, has_layer_shell_output: bool)
    requires
        old(wm).inv(),
    ensures
        final(wm).inv(),
        added_ok(*final(wm), *old(wm), id, has_layer_shell_output),
{
    let had_previous_output = wm.outputs.len() > 0;
    wm.outputs.push(
        Output {
            id,
            has_layer_shell_output,
            wl_output_version: None,
            name: None,
            workspace_list: new_workspace_list(),
            focused_workspace_idx: 0,
            rectangle: Rectangle::zero(),
            non_exclusive: Rectangle::zero(),
            is_removed: false,
        },
    );
    proof {
        assert(wm.outputs@.drop_last() =~= old(wm).outputs@);
    }
    let new_idx = wm.outputs.len() - 1;
    wm.focused_output_idx = Some(new_idx);
    if had_previous_output {
        wm.needs_pointer_warp = true;
    }
}

/// What the compositor reports about an output.
#[derive(Clone, Copy, Debug, PartialEq, Eq, Structural)]
pub enum OutputEvent {
    Dimensions(i32, i32),
    Position(i32, i32),
    /// The core output object was bound, with this version.
    WlOutput(u32),
    Removed,
}

/// `post` is `pre` with output `i` replaced by `out`; nothing else changed.
pub open spec fn output_replaced(post: WindowManager, pre: WindowManager, i: int, out: Output) -> bool {
    post.outputs@ == pre.outputs@.update(i, out)
}

/// What an output event does to `pre`, giving `post` and the returned flag
/// (whether a manage sequence is wanted). Events for unknown outputs are
/// ignored. New dimensions are laid out at once; removal only marks the
/// output, moves focus to the first live output if the removed one had it,
/// and forgets a remembered workspace on it.
pub open spec fn output_event_ok<S>(
    post: WindowManager,
    pre: WindowManager,
    id: ObjectId,
    event: OutputEvent,
    ret: bool,
    scroller: S,
) -> bool where
    S: Fn(Vec<WindowGeom>, Option<usize>, Rectangle, Rectangle, &Config, i32) -> Vec<WindowGeom>,
 {
    match first_index(pre.outputs@, has_id(id)) {
        None => post == pre && !ret,
        Some(i) => {
            let out = pre.outputs@[i];
            match event {
                OutputEvent::Dimensions(width, height) => {
                    &&& !ret
                    &&& exists|mid: WindowManager, upd: WindowManager|
                        #![trigger update_ok(upd, mid, scroller)]
                        mid.same_but_outputs(&pre) && output_replaced(
                            mid,
                            pre,
                            i,
                            Output { rectangle: Rectangle { width, height, ..out.rectangle }, ..out },
                        ) && update_ok(upd, mid, scroller) && post == WindowManager {
                            status: Status::Layout,
                            ..upd
                        }
                },
                OutputEvent::Position(x, y) => {
                    &&& !ret
                    &&& post.same_but_outputs(&pre)
                    &&& output_replaced(
                        post,
                        pre,
                        i,
                        Output { rectangle: Rectangle { x, y, ..out.rectangle }, ..out },
                    )
                },
                OutputEvent::WlOutput(version) => {
                    &&& !ret
                    &&& post.same_but_outputs(&pre)
                    &&& output_replaced(
                        post,
                        pre,
                        i,
                        Output { wl_output_version: Some(version), ..out },
                    )
                },
                OutputEvent::Removed => {
                    let marked = pre.outputs@.update(i, Output { is_removed: true, ..out });
                    let refocus = pre.focused_output_idx == Some(i as usize) && first_index(
                        marked,
                        is_live(),
                    ) is Some;
                    &&& ret
                    &&& post.outputs@ == marked
                    &&& post.same_but_outputs(
                        &WindowManager {
                            status: Status::Layout,
                            focused_output_idx: if refocus {
                                Some(first_index(marked, is_live()).unwrap() as usize)
                            } else {
                                pre.focused_output_idx
                            },
                            needs_pointer_warp: refocus || pre.needs_pointer_warp,
                            previous_workspace: match pre.previous_workspace {
                                Some(p) => if p.output_idx == i {
                                    None
                                } else {
                                    pre.previous_workspace
                                },
                                None => None,
                            },
                            ..pre
                        },
                    )
                },
            }
        },
    }
}

/// Handle an output event; returns whether a manage sequence is wanted.
pub fn output_event<S>(wm: &mut WindowManager, id: ObjectId, event: OutputEvent, scroller: &S) -> (ret: bool) where
    S: Fn(Vec<WindowGeom>, Option<usize>, Rectangle, Rectangle, &Config, i32) -> Vec<WindowGeom>,

    requires
        old(wm).inv(),
        forall|v: Vec<WindowGeom>, f: Option<usize>, a: Rectangle, b: Rectangle, c: &Config, y: i32|
            #[trigger] scroller.requires((v, f, a, b, c, y)),
    ensures
        final(wm).inv(),
        output_event_ok(*final(wm), *old(wm), id, event, ret, *scroller),
{
    let ghost pre = *wm;
    let i = match find_output(&wm.outputs, Want::Id, id) {
        Some(i) => i,
        None => return false,
    };
    proof {
        assert(output_wf(pre.outputs@[i as int]));
    }
    match event {
        OutputEvent::Dimensions(width, height) => {
            wm.outputs[i].rectangle.width = width;
            wm.outputs[i].rectangle.height = height;
            let ghost mid = *wm;
            proof {
                assert forall|q: int| 0 <= q < mid.outputs@.len() implies output_wf(#[trigger] mid.outputs@[q]) by {
                    assert(output_wf(pre.outputs@[q]));
                }
            }
            update(wm, scroller);
            let ghost upd = *wm;
            wm.status = Status::Layout;
            proof {
                assert(update_ok(upd, mid, *scroller));
                lemma_inv_same_shape(upd, mid);
                let out = pre.outputs@[i as int];
                assert(mid.outputs@ =~= pre.outputs@.update(i as int, Output { rectangle: Rectangle { width, height, ..out.rectangle }, ..out }));
            }
            false
        },
        OutputEvent::Position(x, y) => {
            wm.outputs[i].rectangle.x = x;
            wm.outputs[i].rectangle.y = y;
            proof {
                assert forall|q: int| 0 <= q < wm.outputs@.len() implies output_wf(#[trigger] wm.outputs@[q]) by {
                    assert(output_wf(pre.outputs@[q]));
                }
                let out = pre.outputs@[i as int];
                assert(wm.outputs@ =~= pre.outputs@.update(i as int, Output { rectangle: Rectangle { x, y, ..out.rectangle }, ..out }));
            }
            false
        },
        OutputEvent::WlOutput(version) => {
            wm.outputs[i].wl_output_version = Some(version);
            proof {
                assert forall|q: int| 0 <= q < wm.outputs@.len() implies output_wf(#[trigger] wm.outputs@[q]) by {
                    assert(output_wf(pre.outputs@[q]));
                }
                assert(wm.outputs@ =~= pre.outputs@.update(i as int, Output { wl_output_version: Some(version), ..pre.outputs@[i as int] }));
            }
            false
        },
        OutputEvent::Removed => {
            wm.outputs[i].is_removed = true;
            proof {
                assert(wm.outputs@ =~= pre.outputs@.update(i as int, Output { is_removed: true, ..pre.outputs@[i as int] }));
            }
            wm.status = Status::Layout;
            if wm.focused_output_idx == Some(i) {
                if let Some(active) = find_output(&wm.outputs, Want::Live, 0) {
                    wm.focused_output_idx = Some(active);
                    wm.needs_pointer_warp = true;
                }
            }
            match wm.previous_workspace {
                Some(p) => {
                    if p.output_idx == i {
                        wm.previous_workspace = None;
                    }
                },
                None => {},
            }
            proof {
                assert forall|q: int| 0 <= q < wm.outputs@.len() implies output_wf(#[trigger] wm.outputs@[q]) by {
                    assert(output_wf(pre.outputs@[q]));
                }
            }
            true
        },
    }
}

/// Record the usable (non-exclusive) area of the output whose layer-shell
/// output object reported it, and lay out again.
pub fn layer_shell_output_event<S>(wm: &mut WindowManager, id: ObjectId, area: Rectangle, scroller: &S) where
    S: Fn(Vec<WindowGeom>, Option<usize>, Rectangle, Rectangle, &Config, i32) -> Vec<WindowGeom>,

    requires
        old(wm).inv(),
        forall|v: Vec<WindowGeom>, f: Option<usize>, a: Rectangle, b: Rectangle, c: &Config, y: i32|
            #[trigger] scroller.requires((v, f, a, b, c, y)),
    ensures
        final(wm).inv(),
        match first_index(old(wm).outputs@, has_layer_shell(id)) {
            None => *final(wm) == *old(wm),
            Some(i) => exists|mid: WindowManager, upd: WindowManager|
                #![trigger update_ok(upd, mid, *scroller)]
                mid.same_but_outputs(&*old(wm)) && output_replaced(
                    mid,
                    *old(wm),
                    i,
                    Output { non_exclusive: area, ..old(wm).outputs@[i] },
                ) && update_ok(upd, mid, *scroller) && *final(wm) == WindowManager {
                    status: Status::Layout,
                    ..upd
                },
        },
{
    let ghost pre = *wm;
    let i = match find_output(&wm.outputs, Want::LayerShell, id) {
        Some(i) => i,
        None => return,
    };
    wm.outputs[i].non_exclusive = area;
    let ghost mid = *wm;
    proof {
        assert forall|q: int| 0 <= q < mid.outputs@.len() implies output_wf(#[trigger] mid.outputs@[q]) by {
            assert(output_wf(pre.outputs@[q]));
        }
    }
    update(wm, scroller);
    let ghost upd = *wm;
    wm.status = Status::Layout;
    proof {
        assert(update_ok(upd, mid, *scroller));
        lemma_inv_same_shape(upd, mid);
    }
}

/// Record the name of the output whose core output object reported it;
/// returns whether a manage sequence is wanted, so that the layout pass can
/// restore workspaces or windows keyed to this name.
pub fn wl_output_event(wm: &mut WindowManager, id: ObjectId, name: String) -> (ret: bool)
    requires
        old(wm).inv(),
    ensures
        final(wm).inv(),
        match first_index(old(wm).outputs@, has_wl_output(id)) {
            None => *final(wm) == *old(wm) && !ret,
            Some(i) => {
                &&& ret
                &&& final(wm).same_but_outputs(&WindowManager { status: Status::Layout, ..*old(wm) })
                &&& output_replaced(
                    *final(wm),
                    *old(wm),
                    i,
                    Output { name: Some(name), ..old(wm).outputs@[i] },
                )
            },
        },
{
    let ghost pre = *wm;
    let i = match find_output(&wm.outputs, Want::WlOutput, id) {
        Some(i) => i,
        None => return false,
    };
    wm.outputs[i].name = Some(name);
    wm.status = Status::Layout;
    proof {
        assert forall|q: int| 0 <= q < wm.outputs@.len() implies output_wf(#[trigger] wm.outputs@[q]) by {
            assert(output_wf(pre.outputs@[q]));
        }
    }
    true
}

} // verus!
