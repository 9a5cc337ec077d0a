//! Sequences gathered by walking windows in output, workspace, window
//! order.
use vstd::prelude::*;

use crate::types::{Output, Window, Workspace};

verus! {

/// The requests `f` gives for each window of `ws`, in order.
pub open spec fn reqs_windows<A>(ws: Seq<Window>, f: spec_fn(int, Window) -> Seq<A>) -> Seq<A>
    decreases ws.len(),
{
    if ws.len() == 0 {
        Seq::empty()
    } else {
        reqs_windows(ws.drop_last(), f) + f(ws.len() - 1, ws.last())
    }
}

/// The requests `f` gives for each window of each workspace of `wss`, in
/// order; `f` also receives the workspace index.
pub open spec fn reqs_workspaces<A>(
    wss: Seq<Workspace>,
    f: spec_fn(int, int, Window) -> Seq<A>,
) -> Seq<A>
    decreases wss.len(),
{
    if wss.len() == 0 {
        Seq::empty()
    } else {
        reqs_workspaces(wss.drop_last(), f) + reqs_windows(
            wss.last().window_list@,
            |k: int, win: Window| f(wss.len() - 1, k, win),
        )
    }
}

/// The requests `f` gives for each window of each output of `outs`, in
/// order; `f` also receives the output and workspace indices.
pub open spec fn reqs_outputs<A>(
    outs: Seq<Output>,
    f: spec_fn(int, int, int, Window) -> Seq<A>,
) -> Seq<A>
    decreases outs.len(),
{
    if outs.len() == 0 {
        Seq::empty()
    } else {
        reqs_outputs(outs.drop_last(), f) + reqs_workspaces(
            outs.last().workspace_list@,
            |w: int, k: int, win: Window| f(outs.len() - 1, w, k, win),
        )
    }
}

/// One more window extends the window walk.
pub proof fn lemma_reqs_windows_step<A>(
    ws: Seq<Window>,
    f: spec_fn(int, Window) -> Seq<A>,
    k: int,
)
    requires
        0 <= k < ws.len(),
    ensures
        reqs_windows(ws.take(k + 1), f) == reqs_windows(ws.take(k), f) + f(k, ws[k]),
{
    assert(ws.take(k + 1).drop_last() =~= ws.take(k));
}

/// One more workspace extends the workspace walk.
pub proof fn lemma_reqs_workspaces_step<A>(
    wss: Seq<Workspace>,
    f: spec_fn(int, int, Window) -> Seq<A>,
    w: int,
)
    requires
        0 <= w < wss.len(),
    ensures
        reqs_workspaces(wss.take(w + 1), f) == reqs_workspaces(wss.take(w), f) + reqs_windows(
            wss[w].window_list@,
            |k: int, win: Window| f(w, k, win),
        ),
{
    assert(wss.take(w + 1).drop_last() =~= wss.take(w));
}

/// One more output extends the output walk.
pub proof fn lemma_reqs_outputs_step<A>(
    outs: Seq<Output>,
    f: spec_fn(int, int, int, Window) -> Seq<A>,
    o: int,
)
    requires
        0 <= o < outs.len(),
    ensures
        reqs_outputs(outs.take(o + 1), f) == reqs_outputs(outs.take(o), f) + reqs_workspaces(
            outs[o].workspace_list@,
            |w: int, k: int, win: Window| f(o, w, k, win),
        ),
{
    assert(outs.take(o + 1).drop_last() =~= outs.take(o));
}

/// Taking a whole sequence is the sequence.
pub proof fn lemma_take_all<A>(s: Seq<A>)
    ensures
        s.take(s.len() as int) == s,
{
    assert(s.take(s.len() as int) =~= s);
}

} // verus!
