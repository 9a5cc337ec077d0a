//! Overview grid mode: every window gets a cell of a grid on the focused
//! output while staying in its home workspace; navigation moves a
//! highlight; confirming focuses the highlighted window, canceling returns
//! to the workspace focused at entry.
use vstd::prelude::*;

use crate::traversal::{
    lemma_reqs_outputs_step, lemma_reqs_windows_step, lemma_reqs_workspaces_step, reqs_outputs,
    reqs_windows, reqs_workspaces,
};
use crate::layout::{apply_window_border, border_reqs, spec_border_geom};
use crate::keybinding::{overview_keybind_reqs, set_overview_keybinds, XkbBinding};
use crate::types::{
    Config, ObjectId, Output, OverviewEntry, OverviewHome, OverviewState, Rectangle, Request, Status, Window,
    WindowGeom, Workspace, WORKSPACE_COUNT,
};
use crate::wm::{output_same_but_focus, output_same_but_workspaces, output_wf, ws_mapped, WindowManager};

verus! {

/// The magnitude of `a`.
pub open spec fn abs(a: int) -> int {
    if a < 0 {
        -a
    } else {
        a
    }
}

/// `a / b` rounded toward zero, as Rust's integer division computes it.
pub open spec fn trunc_div(a: int, b: int) -> int {
    if (a >= 0) == (b >= 0) {
        abs(a) / abs(b)
    } else {
        -(abs(a) / abs(b))
    }
}

/// Whether 32-bit integer division of `a` by `b` is defined.
pub open spec fn div_defined(a: i32, b: i32) -> bool {
    b != 0 && !(a == i32::MIN && b == -1)
}

/// 32-bit integer division rounded toward zero.
pub fn div_i32(a: i32, b: i32) -> (r: i32)
    requires
        div_defined(a, b),
    ensures
        r == trunc_div(a as int, b as int),
{
    let x: i64 = a as i64;
    let y: i64 = b as i64;
    let ax: i64 = if x < 0 {
        -x
    } else {
        x
    };
    let ay: i64 = if y < 0 {
        -y
    } else {
        y
    };
    let q: i64 = ax / ay;
    proof {
        assert(0 <= q <= ax) by (nonlinear_arith)
            requires
                q == ax / ay,
                ax >= 0,
                ay >= 1,
        ;
        if q == ax && ax == 2147483648 {
            assert(ay == 1) by (nonlinear_arith)
                requires
                    q == ax / ay,
                    ax == 2147483648,
                    ay >= 1,
                    q == ax,
            ;
        }
    }
    if (x >= 0) == (y >= 0) {
        q as i32
    } else {
        (-q) as i32
    }
}

/// A column count `c` is enough for `total` cells on an area of width `w`
/// and height `h` (a height below one counts as one) when `c` columns of
/// square-ish cells cover the area's aspect ratio: `c * c * h >= total * w`.
pub open spec fn cols_enough(c: int, total: int, w: int, h: int) -> bool {
    c * c * (if h < 1 {
        1
    } else {
        h
    }) >= total * w
}

/// The number of grid columns for `total` windows on `rect`: one for at
/// most one window, otherwise the least positive count `c` with
/// `c * c * height >= total * width`, i.e. the ceiling of the square root
/// of `total` times the aspect ratio.
pub open spec fn spec_grid_columns(total: usize, rect: Rectangle) -> int {
    if total <= 1 {
        1
    } else {
        choose|c: int|
            c >= 1 && #[trigger] cols_enough(c, total as int, rect.width as int, rect.height as int) && (c == 1
                || !cols_enough(c - 1, total as int, rect.width as int, rect.height as int))
    }
}

proof fn lemma_cols_monotone(a: int, b: int, total: int, w: int, h: int)
    requires
        1 <= a <= b,
        cols_enough(a, total, w, h),
    ensures
        cols_enough(b, total, w, h),
{
    let hh = if h < 1 {
        1
    } else {
        h
    };
    assert(a * a * hh <= b * b * hh) by (nonlinear_arith)
        requires
            1 <= a <= b,
            hh >= 1,
    ;
}

/// The number of grid columns for `total` windows on `rect`.
pub fn grid_columns(total: usize, rect: &Rectangle) -> (c: usize)
    ensures
        c == spec_grid_columns(total, *rect),
        c >= 1,
        total > 1 && rect.width <= 0 ==> c == 1,
{
    if total <= 1 {
        return 1;
    }
    let hd: u128 = if rect.height < 1 {
        1
    } else {
        rect.height as u128
    };
    if rect.width <= 0 {
        proof {
            assert(cols_enough(1, total as int, rect.width as int, rect.height as int)) by (nonlinear_arith)
                requires
                    total >= 0,
                    rect.width <= 0,
            ;
            let c = spec_grid_columns(total, *rect);
            assert(c >= 1 && cols_enough(c, total as int, rect.width as int, rect.height as int) && (c == 1
                || !cols_enough(c - 1, total as int, rect.width as int, rect.height as int)));
            if c > 1 {
                lemma_cols_monotone(1, c - 1, total as int, rect.width as int, rect.height as int);
            }
        }
        return 1;
    }
    let t: u128 = total as u128;
    let wd: u128 = rect.width as u128;
    proof {
        assert(t * wd <= 0xFFFF_FFFF_FFFF_FFFFu128 * 0x7FFF_FFFFu128) by (nonlinear_arith)
            requires
                t <= 0xFFFF_FFFF_FFFF_FFFFu128,
                wd <= 0x7FFF_FFFF,
        ;
        assert(t * wd >= 1) by (nonlinear_arith)
            requires
                t >= 2,
                wd >= 1,
        ;
    }
    let need: u128 = t * wd;
    let cap: u128 = 0x1_0000_0000_0000u128;
    // Binary search for the least `c` in [1, hi] with c * c * hd >= need.
    let mut lo: u128 = 1;
    let mut hi: u128 = if need < cap {
        need
    } else {
        cap
    };
    proof {
        assert(hi * hi * hd >= need) by (nonlinear_arith)
            requires
                hi == need || (hi == 0x1_0000_0000_0000u128 && need <= 0xFFFF_FFFF_FFFF_FFFFu128 * 0x7FFF_FFFFu128),
                need >= 1,
                hd >= 1,
        ;
    }
    while lo < hi
        invariant
            1 <= lo <= hi <= need,
            hi <= 0x1_0000_0000_0000u128,
            need == total * rect.width,
            need <= 0xFFFF_FFFF_FFFF_FFFFu128 * 0x7FFF_FFFFu128,
            hd >= 1,
            hd <= 0x7FFF_FFFF,
            hd == (if rect.height < 1 {
                1
            } else {
                rect.height as int
            }),
            hi * hi * hd >= need,
            lo == 1 || (lo - 1) * (lo - 1) * hd < need,
        decreases hi - lo,
    {
        let mid: u128 = lo + (hi - lo) / 2;
        proof {
            assert(mid * mid <= 0x1_0000_0000_0000u128 * 0x1_0000_0000_0000u128) by (nonlinear_arith)
                requires
                    1 <= mid <= 0x1_0000_0000_0000u128,
            ;
            assert(mid * mid * hd <= 0x1_0000_0000_0000u128 * 0x1_0000_0000_0000u128 * 0x7FFF_FFFFu128) by (nonlinear_arith)
                requires
                    1 <= mid <= 0x1_0000_0000_0000u128,
                    1 <= hd <= 0x7FFF_FFFF,
            ;
        }
        if mid * mid * hd >= need {
            hi = mid;
        } else {
            lo = mid + 1;
        }
    }
    proof {
        let c = spec_grid_columns(total, *rect);
        assert(cols_enough(lo as int, total as int, rect.width as int, rect.height as int));
        assert(lo >= 1 && cols_enough(lo as int, total as int, rect.width as int, rect.height as int) && (lo == 1
            || !cols_enough(lo - 1, total as int, rect.width as int, rect.height as int)));
        assert(c >= 1 && cols_enough(c, total as int, rect.width as int, rect.height as int) && (c == 1
            || !cols_enough(c - 1, total as int, rect.width as int, rect.height as int)));
        if c < lo {
            lemma_cols_monotone(c, (lo - 1) as int, total as int, rect.width as int, rect.height as int);
        } else if c > lo {
            lemma_cols_monotone(lo as int, c - 1, total as int, rect.width as int, rect.height as int);
        }
        if lo > 1 {
            assert((lo - 1) * (lo - 1) < need) by (nonlinear_arith)
                requires
                    (lo - 1) * (lo - 1) * hd < need,
                    hd >= 1,
                    lo > 1,
            ;
        }
        assert(lo <= usize::MAX) by (nonlinear_arith)
            requires
                lo == 1 || (lo - 1) * (lo - 1) < need,
                need == total * rect.width,
                total <= usize::MAX,
                rect.width <= 0x7FFF_FFFF,
                lo >= 1,
                lo <= 0x1_0000_0000_0000u128,
                usize::MAX == 0xFFFF_FFFF || usize::MAX == 0xFFFF_FFFF_FFFF_FFFF,
        ;
    }
    lo as usize
}


/// `n` rounded up to a multiple of `d`, divided by `d`.
pub open spec fn div_ceil(n: int, d: int) -> int {
    (n + d - 1) / d
}

/// The numerator of a cell extent: the area's extent minus `n + 1` gaps
/// (in 32-bit wrapping arithmetic, as the release build computes it).
pub open spec fn gaps_removed(extent: i32, gap: i32, n: usize) -> i32 {
    extent.wrapping_sub(gap.wrapping_mul((n as i32).wrapping_add(1)))
}

/// The extent of a cell when `n` cells and `n + 1` gaps share `extent`.
pub open spec fn cell_extent(extent: i32, gap: i32, n: usize) -> i32 {
    trunc_div(gaps_removed(extent, gap, n) as int, (n as i32) as int) as i32
}

/// Cell `i` of the grid with `cols` columns and cells of `cell_w` by
/// `cell_h` inside `area`: row `i / cols`, column `i % cols`, a gap before
/// each cell.
pub open spec fn grid_cell(
    area: Rectangle,
    i: int,
    cols: usize,
    cell_w: i32,
    cell_h: i32,
    h_gap: i32,
    v_gap: i32,
) -> Rectangle {
    let row = (i / (cols as int)) as i32;
    let col = (i % (cols as int)) as i32;
    Rectangle {
        x: area.x.wrapping_add(h_gap).wrapping_add(col.wrapping_mul(cell_w.wrapping_add(h_gap))),
        y: area.y.wrapping_add(v_gap).wrapping_add(row.wrapping_mul(cell_h.wrapping_add(v_gap))),
        width: cell_w,
        height: cell_h,
    }
}

/// Whether the grid for `total` windows in `area` can be computed: the
/// column and row counts used as 32-bit divisors give defined divisions.
pub open spec fn grid_defined(area: Rectangle, total: usize, h_gap: i32, v_gap: i32) -> bool {
    let cols = spec_grid_columns(total, area) as usize;
    let rows = div_ceil(total as int, cols as int) as usize;
    &&& div_defined(gaps_removed(area.width, h_gap, cols), cols as i32)
    &&& div_defined(gaps_removed(area.height, v_gap, rows), rows as i32)
}

/// Compute the grid cell rectangles for `total` windows inside `area`.
/// Returns (columns, cells).
pub fn compute_grid(area: Rectangle, total: usize, h_gap: i32, v_gap: i32) -> (r: (
    usize,
    Vec<Rectangle>,
))
    requires
        grid_defined(area, total, h_gap, v_gap),
    ensures
        r.0 == spec_grid_columns(total, area),
        r.1@.len() == total,
        ({
            let cols = r.0;
            let rows = div_ceil(total as int, cols as int) as usize;
            let cw = cell_extent(area.width, h_gap, cols);
            let ch = cell_extent(area.height, v_gap, rows);
            forall|i: int| 0 <= i < total ==> #[trigger] r.1@[i] == grid_cell(area, i, cols, cw, ch, h_gap, v_gap)
        }),
{
    let cols = grid_columns(total, &area);
    proof {
        assert(total / cols + (if total % cols == 0 { 0int } else { 1int }) <= total) by (nonlinear_arith)
            requires
                cols >= 1,
                total >= 0,
        ;
    }
    let rows: usize = total / cols + if total % cols == 0 {
        0
    } else {
        1
    };
    proof {
        assert(rows == div_ceil(total as int, cols as int)) by (nonlinear_arith)
            requires
                cols >= 1,
                rows == total / cols + if total % cols == 0 { 0int } else { 1int },
        ;
    }
    let cols_i: i32 = cols as i32;
    let rows_i: i32 = rows as i32;
    let cell_w = div_i32(area.width.wrapping_sub(h_gap.wrapping_mul(cols_i.wrapping_add(1))), cols_i);
    let cell_h = div_i32(area.height.wrapping_sub(v_gap.wrapping_mul(rows_i.wrapping_add(1))), rows_i);
    let mut cells: Vec<Rectangle> = Vec::new();
    let mut i: usize = 0;
    while i < total
        invariant
            i <= total,
            cols >= 1,
            cells@.len() == i,
            forall|j: int| 0 <= j < i ==> #[trigger] cells@[j] == grid_cell(area, j, cols, cell_w, cell_h, h_gap, v_gap),
        decreases total - i,
    {
        let row = (i / cols) as i32;
        let col = (i % cols) as i32;
        cells.push(Rectangle {
            x: area.x.wrapping_add(h_gap).wrapping_add(col.wrapping_mul(cell_w.wrapping_add(h_gap))),
            y: area.y.wrapping_add(v_gap).wrapping_add(row.wrapping_mul(cell_h.wrapping_add(v_gap))),
            width: cell_w,
            height: cell_h,
        });
        i = i + 1;
    }
    (cols, cells)
}

} // verus!

verus! {

/// Where a window lives: output, workspace and position in the workspace.
#[derive(Clone, Copy, Debug, PartialEq, Eq, Structural)]
pub struct Located {
    pub output_idx: usize,
    pub workspace_idx: usize,
    pub window_idx: usize,
}

/// Locate a window's current home by scanning the live lists. `None` once
/// the window has closed: entries never rely on captured indices.
pub fn locate(wm: &WindowManager, window: ObjectId) -> (r: Option<Located>)
    ensures
        match r {
            Some(l) => {
                &&& wm.spec_locate(window) == Some(
                    (l.output_idx as int, l.workspace_idx as int, l.window_idx as int),
                )
                &&& wm.is_first_at(window, l.output_idx as int, l.workspace_idx as int, l.window_idx as int)
            },
            None => wm.spec_locate(window) is None,
        },
{
    match wm.locate_window(window) {
        Some((o, w, k)) => Some(Located { output_idx: o, workspace_idx: w, window_idx: k }),
        None => None,
    }
}

/// An overview entry that was fullscreen at entry and whose window is first
/// found at (`o`, `w`, `k`) in `pre`, among the first `n` entries.
pub open spec fn refullscreened(
    pre: WindowManager,
    entries: Seq<OverviewEntry>,
    n: int,
    o: int,
    w: int,
    k: int,
) -> bool {
    exists|i: int|
        #![trigger entries[i]]
        0 <= i < n && entries[i].was_fullscreen && pre.spec_locate(entries[i].window) == Some(
            (o, w, k),
        )
}

/// The window, made fullscreen again when `restore` holds.
pub open spec fn restore_win(win: Window, restore: bool) -> Window {
    if restore {
        Window { geom: WindowGeom { is_fullscreen: true, ..win.geom }, ..win }
    } else {
        win
    }
}

/// `post` is `pre` after leaving the overview whose first `n` entries are
/// `entries`: the windows that were fullscreen when the overview opened are
/// fullscreen again; nothing else changed.
pub open spec fn restored_ok(post: WindowManager, pre: WindowManager, entries: Seq<OverviewEntry>, n: int) -> bool {
    &&& post.same_but_outputs(&pre)
    &&& post.outputs@.len() == pre.outputs@.len()
    &&& forall|o: int|
        0 <= o < pre.outputs@.len() ==> output_same_but_workspaces(
            #[trigger] post.outputs@[o],
            pre.outputs@[o],
        )
    &&& forall|o: int, w: int|
        #![trigger post.ws(o, w)]
        pre.has_ws(o, w) ==> ws_mapped(
            post.ws(o, w),
            pre.ws(o, w),
            |k: int, win: Window| restore_win(win, refullscreened(pre, entries, n, o, w, k)),
        )
}

proof fn lemma_restored_same_ids(post: WindowManager, pre: WindowManager, entries: Seq<OverviewEntry>, n: int)
    requires
        restored_ok(post, pre, entries, n),
    ensures
        post.same_ids(&pre),
{
    assert forall|o: int| 0 <= o < post.outputs@.len() implies (#[trigger] post.outputs@[o]).workspace_list@.len()
        == pre.outputs@[o].workspace_list@.len() by {
        assert(output_same_but_workspaces(post.outputs@[o], pre.outputs@[o]));
    }
    assert forall|o: int, w: int| #![trigger post.ws(o, w)] post.has_ws(o, w) implies post.ws(
        o,
        w,
    ).window_list@.len() == pre.ws(o, w).window_list@.len() by {
        assert(output_same_but_workspaces(post.outputs@[o], pre.outputs@[o]));
        assert(pre.has_ws(o, w));
    }
    assert forall|o: int, w: int, k: int| #![trigger post.win(o, w, k)] post.has_win(
        o,
        w,
        k,
    ) implies post.win(o, w, k).id == pre.win(o, w, k).id by {
        assert(output_same_but_workspaces(post.outputs@[o], pre.outputs@[o]));
        assert(pre.has_ws(o, w));
        assert(post.ws(o, w).window_list@[k] == restore_win(
            pre.ws(o, w).window_list@[k],
            refullscreened(pre, entries, n, o, w, k),
        ));
    }
}

/// Restore the fullscreen flags that entering the overview cleared and
/// disable the overview-only key bindings.
fn exit_overview(
    wm: &mut WindowManager,
    bindings: &Vec<XkbBinding>,
    ov_state: &OverviewState,
    reqs: &mut Vec<Request>,
)
    requires
        old(wm).inv(),
    ensures
        final(wm).inv(),
        restored_ok(*final(wm), *old(wm), ov_state.entries@, ov_state.entries@.len() as int),
        final(reqs)@ == old(reqs)@ + overview_keybind_reqs(bindings@, false),
{
    set_overview_keybinds(bindings, false, reqs);
    let ghost pre = *wm;
    let ghost entries = ov_state.entries@;
    let mut i: usize = 0;
    proof {
        assert forall|o: int, w: int| #![trigger wm.ws(o, w)] pre.has_ws(o, w) implies ws_mapped(
            wm.ws(o, w),
            pre.ws(o, w),
            |k: int, win: Window| restore_win(win, refullscreened(pre, entries, 0, o, w, k)),
        ) by {
            assert(wm.ws(o, w).window_list@ =~= pre.ws(o, w).window_list@.map(
                |k: int, win: Window| restore_win(win, refullscreened(pre, entries, 0, o, w, k)),
            ));
        }
    }
    while i < ov_state.entries.len()
        invariant
            i <= entries.len(),
            entries == ov_state.entries@,
            pre.inv(),
            restored_ok(*wm, pre, entries, i as int),
        decreases entries.len() - i,
    {
        let entry = ov_state.entries[i];
        if entry.was_fullscreen {
            proof {
                lemma_restored_same_ids(*wm, pre, entries, i as int);
                wm.lemma_same_ids_locate(&pre, entry.window);
            }
            match locate(wm, entry.window) {
                Some(loc) => {
                    let ghost before = *wm;
                    let o = loc.output_idx;
                    let w = loc.workspace_idx;
                    let k = loc.window_idx;
                    wm.outputs[o].workspace_list[w].window_list[k].geom.is_fullscreen = true;
                    proof {
                        assert(refullscreened(pre, entries, i + 1, o as int, w as int, k as int));
                        assert forall|o2: int, w2: int|
                            #![trigger wm.ws(o2, w2)]
                            pre.has_ws(o2, w2) implies ws_mapped(
                            wm.ws(o2, w2),
                            pre.ws(o2, w2),
                            |k2: int, win: Window|
                                restore_win(win, refullscreened(pre, entries, i + 1, o2, w2, k2)),
                        ) by {
                            assert(before.ws(o2, w2) == before.ws(o2, w2));
                            assert(wm.ws(o2, w2).window_list@ =~= pre.ws(o2, w2).window_list@.map(
                                |k2: int, win: Window|
                                    restore_win(win, refullscreened(pre, entries, i + 1, o2, w2, k2)),
                            )) by {
                                assert forall|k2: int| 0 <= k2 < pre.ws(o2, w2).window_list@.len() implies
                                    #[trigger] wm.ws(o2, w2).window_list@[k2] == restore_win(
                                    pre.ws(o2, w2).window_list@[k2],
                                    refullscreened(pre, entries, i + 1, o2, w2, k2),
                                ) by {
                                    assert(before.ws(o2, w2).window_list@[k2] == restore_win(
                                        pre.ws(o2, w2).window_list@[k2],
                                        refullscreened(pre, entries, i as int, o2, w2, k2),
                                    ));
                                    if o2 == o && w2 == w && k2 == k {
                                    } else {
                                        if refullscreened(pre, entries, i + 1, o2, w2, k2) {
                                            let j = choose|j: int|
                                                #![trigger entries[j]]
                                                0 <= j < i + 1 && entries[j].was_fullscreen
                                                    && pre.spec_locate(entries[j].window) == Some(
                                                    (o2, w2, k2),
                                                );
                                            assert(j != i);
                                        }
                                    }
                                }
                            }
                        }
                    }
                },
                None => {
                    proof {
                        assert forall|o: int, w: int, k: int|
                            refullscreened(pre, entries, i + 1, o, w, k) implies refullscreened(
                                pre,
                                entries,
                                i as int,
                                o,
                                w,
                                k,
                            ) by {
                            let j = choose|j: int|
                                #![trigger entries[j]]
                                0 <= j < i + 1 && entries[j].was_fullscreen && pre.spec_locate(
                                    entries[j].window,
                                ) == Some((o, w, k));
                            assert(j != i);
                        }
                        assert forall|o: int, w: int|
                            #![trigger wm.ws(o, w)]
                            pre.has_ws(o, w) implies ws_mapped(
                            wm.ws(o, w),
                            pre.ws(o, w),
                            |k: int, win: Window| restore_win(win, refullscreened(pre, entries, i + 1, o, w, k)),
                        ) by {
                            assert(wm.ws(o, w).window_list@ =~= pre.ws(o, w).window_list@.map(
                                |k: int, win: Window| restore_win(win, refullscreened(pre, entries, i + 1, o, w, k)),
                            ));
                        }
                    }
                },
            }
        } else {
            proof {
                assert forall|o: int, w: int, k: int|
                    refullscreened(pre, entries, i + 1, o, w, k) implies refullscreened(
                        pre,
                        entries,
                        i as int,
                        o,
                        w,
                        k,
                    ) by {
                    let j = choose|j: int|
                        #![trigger entries[j]]
                        0 <= j < i + 1 && entries[j].was_fullscreen && pre.spec_locate(
                            entries[j].window,
                        ) == Some((o, w, k));
                    assert(j != i);
                }
                assert forall|o: int, w: int|
                    #![trigger wm.ws(o, w)]
                    pre.has_ws(o, w) implies ws_mapped(
                    wm.ws(o, w),
                    pre.ws(o, w),
                    |k: int, win: Window| restore_win(win, refullscreened(pre, entries, i + 1, o, w, k)),
                ) by {
                    assert(wm.ws(o, w).window_list@ =~= pre.ws(o, w).window_list@.map(
                        |k: int, win: Window| restore_win(win, refullscreened(pre, entries, i + 1, o, w, k)),
                    ));
                }
            }
        }
        i = i + 1;
    }
    proof {
        assert forall|o: int| 0 <= o < wm.outputs@.len() implies output_wf(#[trigger] wm.outputs@[o]) by {
            assert(output_same_but_workspaces(wm.outputs@[o], pre.outputs@[o]));
        }
    }
}

} // verus!

verus! {

/// The workspace that the open overview remembers names an output.
pub open spec fn ov_home_valid(wm: WindowManager) -> bool {
    match wm.overview_state {
        Some(ov) => match ov.previous_workspace {
            Some(p) => p.output_idx < wm.outputs@.len(),
            None => true,
        },
        None => true,
    }
}

/// `post` is `mid` with the remembered workspace `p` focused again: its
/// output is the focused output and it that output's focused workspace.
pub open spec fn home_focused(post: WindowManager, mid: WindowManager, p: OverviewHome) -> bool {
    &&& post.same_but_outputs(&WindowManager { focused_output_idx: Some(p.output_idx), ..mid })
    &&& post.outputs@ == mid.outputs@.update(
        p.output_idx as int,
        Output { focused_workspace_idx: p.workspace_idx, ..mid.outputs@[p.output_idx as int] },
    )
}

/// The manager with the overview closed and nothing else changed.
pub open spec fn closed(pre: WindowManager) -> WindowManager {
    WindowManager { overview_state: None, ..pre }
}

/// `post` is `pre` after canceling its overview `ov`: the overview is
/// closed, the fullscreen flags are restored, and the workspace focused at
/// entry is focused again.
pub open spec fn cancel_ok(post: WindowManager, pre: WindowManager, ov: OverviewState) -> bool {
    match ov.previous_workspace {
        None => restored_ok(post, closed(pre), ov.entries@, ov.entries@.len() as int),
        Some(p) => exists|mid: WindowManager|
            #[trigger] restored_ok(mid, closed(pre), ov.entries@, ov.entries@.len() as int)
                && home_focused(post, mid, p),
    }
}

/// Canceling: nothing happens without an open overview.
pub open spec fn spec_cancel(post: WindowManager, pre: WindowManager) -> bool {
    match pre.overview_state {
        None => post == pre,
        Some(ov) => cancel_ok(post, pre, ov),
    }
}

/// The requests of leaving an open overview: its bare keys are disabled.
pub open spec fn leave_reqs(pre: WindowManager, bindings: Seq<XkbBinding>) -> Seq<Request> {
    if pre.overview_state is Some {
        overview_keybind_reqs(bindings, false)
    } else {
        Seq::empty()
    }
}

/// Cancel the overview: restore fullscreen flags and refocus the workspace
/// that was focused at entry. No other state changed while the overview
/// was open.
pub fn cancel(wm: &mut WindowManager, bindings: &Vec<XkbBinding>, reqs: &mut Vec<Request>)
    requires
        old(wm).inv(),
        ov_home_valid(*old(wm)),
    ensures
        final(wm).inv(),
        spec_cancel(*final(wm), *old(wm)),
        final(reqs)@ == old(reqs)@ + leave_reqs(*old(wm), bindings@),
{
    let ghost pre = *wm;
    let ov_state = match wm.overview_state.take() {
        Some(ov) => ov,
        None => return,
    };
    proof {
        assert(*wm == closed(pre));
    }
    exit_overview(wm, bindings, &ov_state, reqs);
    let ghost mid = *wm;
    match ov_state.previous_workspace {
        Some(p) => {
            wm.focused_output_idx = Some(p.output_idx);
            wm.outputs[p.output_idx].focused_workspace_idx = p.workspace_idx;
            proof {
                assert(restored_ok(mid, closed(pre), ov_state.entries@, ov_state.entries@.len() as int));
                assert(home_focused(*wm, mid, p));
                assert forall|o: int| 0 <= o < wm.outputs@.len() implies output_wf(#[trigger] wm.outputs@[o]) by {
                    assert(output_wf(mid.outputs@[o]));
                }
            }
        },
        None => {},
    }
}

/// `post` is `pre` after confirming its overview `ov`, whose highlighted
/// entry exists: the overview is closed, the fullscreen flags are restored,
/// and the highlighted window, if it still exists, is focused.
pub open spec fn select_ok(post: WindowManager, pre: WindowManager, ov: OverviewState) -> bool {
    exists|mid: WindowManager|
        #[trigger] restored_ok(mid, closed(pre), ov.entries@, ov.entries@.len() as int) && match pre.spec_locate(
            ov.entries@[ov.highlighted as int].window,
        ) {
            Some((o, w, k)) => post.is_focused_at(&mid, o, w, k),
            None => post == mid,
        }
}

/// Confirming: with the highlight past the entries the overview is
/// canceled, otherwise the highlighted window is selected.
pub open spec fn spec_select(post: WindowManager, pre: WindowManager) -> bool {
    match pre.overview_state {
        None => post == pre,
        Some(ov) => if ov.highlighted >= ov.entries@.len() {
            cancel_ok(post, pre, ov)
        } else {
            select_ok(post, pre, ov)
        },
    }
}

/// Confirming cancels when the highlight is past the entries, and canceling
/// needs the remembered workspace's output.
pub open spec fn select_defined(wm: WindowManager) -> bool {
    match wm.overview_state {
        Some(ov) => ov.highlighted >= ov.entries@.len() ==> ov_home_valid(wm),
        None => true,
    }
}

/// Confirm the overview: focus the highlighted window where it lives now.
pub fn select(wm: &mut WindowManager, bindings: &Vec<XkbBinding>, reqs: &mut Vec<Request>)
    requires
        old(wm).inv(),
        select_defined(*old(wm)),
    ensures
        final(wm).inv(),
        spec_select(*final(wm), *old(wm)),
        final(reqs)@ == old(reqs)@ + leave_reqs(*old(wm), bindings@),
{
    let ghost pre = *wm;
    let (selected_idx, n) = match &wm.overview_state {
        Some(ov) => (ov.highlighted, ov.entries.len()),
        None => return,
    };
    if selected_idx >= n {
        cancel(wm, bindings, reqs);
        return;
    }
    let ov_state = wm.overview_state.take().unwrap();
    let entry = ov_state.entries[selected_idx];
    proof {
        assert(*wm == closed(pre));
    }
    exit_overview(wm, bindings, &ov_state, reqs);
    let ghost mid = *wm;
    proof {
        lemma_restored_same_ids(mid, closed(pre), ov_state.entries@, ov_state.entries@.len() as int);
        mid.lemma_same_ids_locate(&closed(pre), entry.window);
        assert(closed(pre).same_ids(&pre));
        closed(pre).lemma_same_ids_locate(&pre, entry.window);
    }
    match locate(wm, entry.window) {
        Some(loc) => {
            wm.focus_at(loc.output_idx, loc.workspace_idx, loc.window_idx);
            proof {
                assert(restored_ok(mid, closed(pre), ov_state.entries@, ov_state.entries@.len() as int));
                assert forall|o: int| 0 <= o < wm.outputs@.len() implies output_wf(#[trigger] wm.outputs@[o]) by {
                    assert(output_wf(mid.outputs@[o]));
                    if o == loc.output_idx {
                        assert(output_same_but_focus(wm.outputs@[o], mid.outputs@[o]));
                    }
                }
            }
        },
        None => {
            proof {
                assert(restored_ok(mid, closed(pre), ov_state.entries@, ov_state.entries@.len() as int));
            }
        },
    }
}

/// Select the window at the given index (from a mouse click).
pub fn select_index(
    wm: &mut WindowManager,
    bindings: &Vec<XkbBinding>,
    index: usize,
    reqs: &mut Vec<Request>,
)
    requires
        old(wm).inv(),
        old(wm).overview_state matches Some(ov) && index >= ov.entries@.len() ==> ov_home_valid(
            *old(wm),
        ),
    ensures
        final(wm).inv(),
        match old(wm).overview_state {
            None => *final(wm) == *old(wm),
            Some(ov) => spec_select(
                *final(wm),
                WindowManager {
                    overview_state: Some(OverviewState { highlighted: index, ..ov }),
                    ..*old(wm)
                },
            ),
        },
        final(reqs)@ == old(reqs)@ + leave_reqs(*old(wm), bindings@),
{
    match &mut wm.overview_state {
        Some(ov) => {
            ov.highlighted = index;
        },
        None => {},
    }
    select(wm, bindings, reqs);
}

} // verus!

verus! {

/// The number of windows in the workspaces `wss`.
pub open spec fn ws_window_count(wss: Seq<Workspace>) -> int
    decreases wss.len(),
{
    if wss.len() == 0 {
        0
    } else {
        ws_window_count(wss.drop_last()) + wss.last().window_list@.len()
    }
}

/// The number of windows on the outputs `outs`.
pub open spec fn window_count(outs: Seq<Output>) -> int
    decreases outs.len(),
{
    if outs.len() == 0 {
        0
    } else {
        window_count(outs.drop_last()) + ws_window_count(outs.last().workspace_list@)
    }
}

/// The position of window (`o`, `w`, `k`) when all windows are counted in
/// output, workspace, window order.
pub open spec fn slot_of(outs: Seq<Output>, o: int, w: int, k: int) -> int {
    window_count(outs.take(o)) + ws_window_count(outs[o].workspace_list@.take(w)) + k
}

proof fn lemma_ws_count_prefix(wss: Seq<Workspace>, w: int)
    requires
        0 <= w <= wss.len(),
    ensures
        0 <= ws_window_count(wss.take(w)) <= ws_window_count(wss),
    decreases wss.len(),
{
    if wss.len() > 0 {
        if w == wss.len() {
            assert(wss.take(w) =~= wss);
            lemma_ws_count_prefix(wss.drop_last(), w - 1);
            assert(wss.drop_last().take(w - 1) =~= wss.drop_last());
        } else {
            lemma_ws_count_prefix(wss.drop_last(), w);
            assert(wss.drop_last().take(w) =~= wss.take(w));
        }
    }
}

proof fn lemma_count_prefix(outs: Seq<Output>, o: int)
    requires
        0 <= o <= outs.len(),
    ensures
        0 <= window_count(outs.take(o)) <= window_count(outs),
    decreases outs.len(),
{
    if outs.len() > 0 {
        lemma_ws_count_prefix(outs.last().workspace_list@, outs.last().workspace_list@.len() as int);
        assert(outs.last().workspace_list@.take(outs.last().workspace_list@.len() as int)
            =~= outs.last().workspace_list@);
        if o == outs.len() {
            assert(outs.take(o) =~= outs);
            lemma_count_prefix(outs.drop_last(), o - 1);
            assert(outs.drop_last().take(o - 1) =~= outs.drop_last());
        } else {
            lemma_count_prefix(outs.drop_last(), o);
            assert(outs.drop_last().take(o) =~= outs.take(o));
        }
    }
}

/// A window's position is below the number of windows.
proof fn lemma_slot_bound(outs: Seq<Output>, o: int, w: int, k: int)
    requires
        0 <= o < outs.len(),
        0 <= w < outs[o].workspace_list@.len(),
        0 <= k < outs[o].workspace_list@[w].window_list@.len(),
    ensures
        0 <= slot_of(outs, o, w, k) < window_count(outs),
{
    let wss = outs[o].workspace_list@;
    lemma_ws_count_prefix(wss, w + 1);
    lemma_ws_count_prefix(wss, w);
    assert(wss.take(w + 1).drop_last() =~= wss.take(w));
    assert(outs.take(o + 1).drop_last() =~= outs.take(o));
    lemma_ws_count_prefix(wss, wss.len() as int);
    assert(wss.take(wss.len() as int) =~= wss);
    lemma_count_prefix(outs, o + 1);
    lemma_count_prefix(outs, o);
}

/// The number of windows on all outputs.
fn count_windows(wm: &WindowManager) -> (total: usize)
    requires
        window_count(wm.outputs@) <= usize::MAX,
    ensures
        total == window_count(wm.outputs@),
{
    let ghost outs = wm.outputs@;
    let mut total: usize = 0;
    let mut o: usize = 0;
    while o < wm.outputs.len()
        invariant
            o <= outs.len(),
            outs == wm.outputs@,
            window_count(outs) <= usize::MAX,
            total == window_count(outs.take(o as int)),
        decreases outs.len() - o,
    {
        let ghost wss = outs[o as int].workspace_list@;
        let mut w: usize = 0;
        while w < wm.outputs[o].workspace_list.len()
            invariant
                o < outs.len(),
                outs == wm.outputs@,
                wss == outs[o as int].workspace_list@,
                w <= wss.len(),
                window_count(outs) <= usize::MAX,
                total == window_count(outs.take(o as int)) + ws_window_count(wss.take(w as int)),
            decreases wss.len() - w,
        {
            proof {
                assert(wss.take(w + 1).drop_last() =~= wss.take(w as int));
                lemma_ws_count_prefix(wss, w + 1);
                lemma_ws_count_prefix(wss, wss.len() as int);
                assert(wss.take(wss.len() as int) =~= wss);
                assert(outs.take(o + 1).drop_last() =~= outs.take(o as int));
                lemma_count_prefix(outs, o + 1);
            }
            total = total + wm.outputs[o].workspace_list[w].window_list.len();
            w = w + 1;
        }
        proof {
            assert(wss.take(wss.len() as int) =~= wss);
            assert(outs.take(o + 1).drop_last() =~= outs.take(o as int));
        }
        o = o + 1;
    }
    proof {
        assert(outs.take(outs.len() as int) =~= outs);
    }
    total
}

} // verus!

verus! {

/// The overview entry of a window: its id and whether it was fullscreen.
pub open spec fn entry_of(win: Window) -> OverviewEntry {
    OverviewEntry { window: win.id, was_fullscreen: win.geom.is_fullscreen }
}

/// The entries of all windows, in output, workspace, window order.
pub open spec fn entries_of(outs: Seq<Output>) -> Seq<OverviewEntry> {
    reqs_outputs(outs, |o: int, w: int, k: int, win: Window| seq![entry_of(win)])
}

/// The window shown in a grid cell: not fullscreen, headed for the cell.
pub open spec fn gridded(win: Window, cell: Rectangle) -> Window {
    Window { geom: WindowGeom { is_fullscreen: false, finish: Some(cell), ..win.geom }, ..win }
}

/// Entering the overview does something: there is a focused output, no
/// overview is open, and there is at least one window.
pub open spec fn enter_applies(pre: WindowManager) -> bool {
    pre.focused_output_idx is Some && pre.overview_state is None && window_count(pre.outputs@) > 0
}

/// The area that the overview grid covers: the usable area of the focused
/// output.
pub open spec fn enter_area(pre: WindowManager) -> Rectangle {
    pre.outputs@[pre.focused_output_idx.unwrap() as int].non_exclusive
}

/// Entering the overview computes without overflow: the windows can be
/// counted, and the grid's divisions are defined.
pub open spec fn enter_defined(pre: WindowManager) -> bool {
    pre.focused_output_idx is Some && pre.overview_state is None ==> {
        &&& window_count(pre.outputs@) <= usize::MAX
        &&& window_count(pre.outputs@) > 0 ==> grid_defined(
            enter_area(pre),
            window_count(pre.outputs@) as usize,
            pre.config.horizontal_gap,
            pre.config.vertical_gap,
        )
    }
}

/// Cell `i` of the overview grid of `pre`.
pub open spec fn enter_cell(pre: WindowManager, i: int) -> Rectangle {
    let area = enter_area(pre);
    let total = window_count(pre.outputs@) as usize;
    let cols = spec_grid_columns(total, area) as usize;
    let rows = div_ceil(total as int, cols as int) as usize;
    grid_cell(
        area,
        i,
        cols,
        cell_extent(area.width, pre.config.horizontal_gap, cols),
        cell_extent(area.height, pre.config.vertical_gap, rows),
        pre.config.horizontal_gap,
        pre.config.vertical_gap,
    )
}

/// `post` is `pre` with the overview open: every window, in output,
/// workspace, window order, is headed for the next cell of the grid and is
/// no longer fullscreen; the entries remember each window and whether it was
/// fullscreen; the first entry is highlighted; the focused workspace is
/// remembered.
pub open spec fn enter_ok(post: WindowManager, pre: WindowManager) -> bool {
    let foi = pre.focused_output_idx.unwrap() as int;
    &&& post.outputs@.len() == pre.outputs@.len()
    &&& forall|o: int|
        0 <= o < pre.outputs@.len() ==> output_same_but_workspaces(
            #[trigger] post.outputs@[o],
            pre.outputs@[o],
        )
    &&& forall|o: int, w: int|
        #![trigger post.ws(o, w)]
        pre.has_ws(o, w) ==> ws_mapped(
            post.ws(o, w),
            pre.ws(o, w),
            |k: int, win: Window| gridded(win, enter_cell(pre, slot_of(pre.outputs@, o, w, k))),
        )
    &&& post.overview_state matches Some(ov) && {
        &&& ov.entries@ == entries_of(pre.outputs@)
        &&& ov.highlighted == 0
        &&& ov.columns == spec_grid_columns(window_count(pre.outputs@) as usize, enter_area(pre))
        &&& ov.previous_workspace == Some(
            OverviewHome {
                output_idx: foi as usize,
                workspace_idx: pre.outputs@[foi].focused_workspace_idx,
            },
        )
    }
    &&& post.same_but_outputs(
        &WindowManager { overview_state: post.overview_state, status: Status::Overview, ..pre },
    )
}

/// Open the overview: every window, across all outputs and workspaces,
/// gets a cell of a grid on the focused output while staying in its home
/// workspace; fullscreen windows leave fullscreen until the overview closes;
/// the overview-only bare keys are enabled.
pub fn enter(wm: &mut WindowManager, bindings: &Vec<XkbBinding>, reqs: &mut Vec<Request>)
    requires
        old(wm).inv(),
        enter_defined(*old(wm)),
    ensures
        final(wm).inv(),
        enter_applies(*old(wm)) ==> {
            &&& enter_ok(*final(wm), *old(wm))
            &&& final(reqs)@ == old(reqs)@ + overview_keybind_reqs(bindings@, true)
        },
        !enter_applies(*old(wm)) ==> *final(wm) == *old(wm) && final(reqs)@ == old(reqs)@,
{
    let output_idx = match wm.focused_output_idx {
        Some(i) => i,
        None => return,
    };
    if wm.overview_state.is_some() {
        return;
    }
    let total = count_windows(wm);
    if total == 0 {
        return;
    }
    let ghost pre = *wm;
    let ghost outs = pre.outputs@;
    let (columns, cells) = compute_grid(
        wm.outputs[output_idx].non_exclusive,
        total,
        wm.config.horizontal_gap,
        wm.config.vertical_gap,
    );
    let previous_workspace = Some(
        OverviewHome { output_idx, workspace_idx: wm.outputs[output_idx].focused_workspace_idx },
    );
    let ghost f = |o: int, w: int, k: int, win: Window| seq![entry_of(win)];
    let mut entries: Vec<OverviewEntry> = Vec::new();
    let mut slot: usize = 0;
    let mut o: usize = 0;
    while o < wm.outputs.len()
        invariant
            o <= outs.len(),
            outs == pre.outputs@,
            pre.inv(),
            wm.outputs@.len() == outs.len(),
            total == window_count(outs),
            cells@.len() == total,
            forall|i: int| 0 <= i < total ==> #[trigger] cells@[i] == enter_cell(pre, i),
            slot == window_count(outs.take(o as int)),
            entries@.len() == slot,
            f == (|o: int, w: int, k: int, win: Window| seq![entry_of(win)]),
            entries@ == reqs_outputs(outs.take(o as int), f),
            wm.same_but_outputs(&pre),
            forall|p: int|
                0 <= p < outs.len() ==> output_same_but_workspaces(
                    #[trigger] wm.outputs@[p],
                    outs[p],
                ),
            forall|p: int, v: int|
                #![trigger wm.ws(p, v)]
                0 <= p < o && pre.has_ws(p, v) ==> ws_mapped(
                    wm.ws(p, v),
                    pre.ws(p, v),
                    |k: int, win: Window| gridded(win, enter_cell(pre, slot_of(outs, p, v, k))),
                ),
            forall|p: int| o <= p < outs.len() ==> #[trigger] wm.outputs@[p] == outs[p],
        decreases outs.len() - o,
    {
        let ghost wss = outs[o as int].workspace_list@;
        let ghost fo = |w: int, k: int, win: Window| f(o as int, w, k, win);
        let mut w: usize = 0;
        while w < wm.outputs[o].workspace_list.len()
            invariant
                o < outs.len(),
                outs == pre.outputs@,
                pre.inv(),
                wss == outs[o as int].workspace_list@,
                w <= wss.len(),
                wm.outputs@.len() == outs.len(),
                total == window_count(outs),
                cells@.len() == total,
                forall|i: int| 0 <= i < total ==> #[trigger] cells@[i] == enter_cell(pre, i),
                slot == window_count(outs.take(o as int)) + ws_window_count(wss.take(w as int)),
                entries@.len() == slot,
                f == (|o: int, w: int, k: int, win: Window| seq![entry_of(win)]),
                fo == (|w: int, k: int, win: Window| f(o as int, w, k, win)),
                entries@ == reqs_outputs(outs.take(o as int), f) + reqs_workspaces(
                    wss.take(w as int),
                    fo,
                ),
                wm.same_but_outputs(&pre),
                forall|p: int|
                    0 <= p < outs.len() ==> output_same_but_workspaces(
                        #[trigger] wm.outputs@[p],
                        outs[p],
                    ),
                forall|p: int, v: int|
                    #![trigger wm.ws(p, v)]
                    0 <= p < o && pre.has_ws(p, v) ==> ws_mapped(
                        wm.ws(p, v),
                        pre.ws(p, v),
                        |k: int, win: Window| gridded(win, enter_cell(pre, slot_of(outs, p, v, k))),
                    ),
                forall|v: int|
                    #![trigger wm.ws(o as int, v)]
                    0 <= v < w ==> ws_mapped(
                        wm.ws(o as int, v),
                        pre.ws(o as int, v),
                        |k: int, win: Window|
                            gridded(win, enter_cell(pre, slot_of(outs, o as int, v, k))),
                    ),
                forall|v: int|
                    #![trigger wm.ws(o as int, v)]
                    w <= v < wss.len() ==> wm.ws(o as int, v) == pre.ws(o as int, v),
                forall|p: int| o < p < outs.len() ==> #[trigger] wm.outputs@[p] == outs[p],
            decreases wss.len() - w,
        {
            let ghost ws0 = wss[w as int].window_list@;
            let ghost fow = |k: int, win: Window| fo(w as int, k, win);
            let ghost g = |k: int, win: Window|
                gridded(win, enter_cell(pre, slot_of(outs, o as int, w as int, k)));
            proof {
                assert(pre.has_ws(o as int, w as int));
                assert(wm.ws(o as int, w as int) == pre.ws(o as int, w as int));
            }
            let mut k: usize = 0;
            while k < wm.outputs[o].workspace_list[w].window_list.len()
                invariant
                    o < outs.len(),
                    outs == pre.outputs@,
                    pre.inv(),
                    wss == outs[o as int].workspace_list@,
                    w < wss.len(),
                    ws0 == wss[w as int].window_list@,
                    k <= ws0.len(),
                    wm.outputs@.len() == outs.len(),
                    total == window_count(outs),
                    cells@.len() == total,
                    forall|i: int| 0 <= i < total ==> #[trigger] cells@[i] == enter_cell(pre, i),
                    slot == window_count(outs.take(o as int)) + ws_window_count(wss.take(w as int))
                        + k,
                    entries@.len() == slot,
                    f == (|o: int, w: int, k: int, win: Window| seq![entry_of(win)]),
                    fo == (|w: int, k: int, win: Window| f(o as int, w, k, win)),
                    fow == (|k: int, win: Window| fo(w as int, k, win)),
                    g == (|k: int, win: Window|
                        gridded(win, enter_cell(pre, slot_of(outs, o as int, w as int, k)))),
                    entries@ == reqs_outputs(outs.take(o as int), f) + reqs_workspaces(
                        wss.take(w as int),
                        fo,
                    ) + reqs_windows(ws0.take(k as int), fow),
                    wm.same_but_outputs(&pre),
                    forall|p: int|
                        0 <= p < outs.len() ==> output_same_but_workspaces(
                            #[trigger] wm.outputs@[p],
                            outs[p],
                        ),
                    forall|p: int, v: int|
                        #![trigger wm.ws(p, v)]
                        0 <= p < o && pre.has_ws(p, v) ==> ws_mapped(
                            wm.ws(p, v),
                            pre.ws(p, v),
                            |k: int, win: Window|
                                gridded(win, enter_cell(pre, slot_of(outs, p, v, k))),
                        ),
                    forall|v: int|
                        #![trigger wm.ws(o as int, v)]
                        0 <= v < w ==> ws_mapped(
                            wm.ws(o as int, v),
                            pre.ws(o as int, v),
                            |k: int, win: Window|
                                gridded(win, enter_cell(pre, slot_of(outs, o as int, v, k))),
                        ),
                    forall|v: int|
                        #![trigger wm.ws(o as int, v)]
                        w < v < wss.len() ==> wm.ws(o as int, v) == pre.ws(o as int, v),
                    wm.ws(o as int, w as int).window_list@.len() == ws0.len(),
                    wm.ws(o as int, w as int).focused_window_idx == pre.ws(
                        o as int,
                        w as int,
                    ).focused_window_idx,
                    wm.ws(o as int, w as int).layout == pre.ws(o as int, w as int).layout,
                    wm.ws(o as int, w as int).is_floating == pre.ws(o as int, w as int).is_floating,
                    forall|j: int|
                        0 <= j < k ==> #[trigger] wm.ws(o as int, w as int).window_list@[j] == g(
                            j,
                            ws0[j],
                        ),
                    forall|j: int|
                        k <= j < ws0.len() ==> #[trigger] wm.ws(o as int, w as int).window_list@[j]
                            == ws0[j],
                    forall|p: int| o < p < outs.len() ==> #[trigger] wm.outputs@[p] == outs[p],
                decreases ws0.len() - k,
            {
                proof {
                    lemma_slot_bound(outs, o as int, w as int, k as int);
                    lemma_reqs_windows_step(ws0, fow, k as int);
                }
                let ghost before = *wm;
                let cell = cells[slot];
                let win = &mut wm.outputs[o].workspace_list[w].window_list[k];
                let was_fullscreen = win.geom.is_fullscreen;
                win.geom.is_fullscreen = false;
                win.geom.finish = Some(cell);
                entries.push(OverviewEntry { window: win.id, was_fullscreen });
                slot = slot + 1;
                proof {
                    assert(wm.ws(o as int, w as int).window_list@[k as int] == g(k as int, ws0[k as int]));
                    assert forall|p: int, v: int|
                        #![trigger wm.ws(p, v)]
                        0 <= p < o && pre.has_ws(p, v) implies ws_mapped(
                            wm.ws(p, v),
                            pre.ws(p, v),
                            |k: int, win: Window|
                                gridded(win, enter_cell(pre, slot_of(outs, p, v, k))),
                        ) by {
                        assert(wm.ws(p, v) == before.ws(p, v));
                    }
                    assert forall|v: int|
                        #![trigger wm.ws(o as int, v)]
                        0 <= v < w implies ws_mapped(
                            wm.ws(o as int, v),
                            pre.ws(o as int, v),
                            |k: int, win: Window|
                                gridded(win, enter_cell(pre, slot_of(outs, o as int, v, k))),
                        ) by {
                        assert(wm.ws(o as int, v) == before.ws(o as int, v));
                    }
                    assert forall|v: int|
                        #![trigger wm.ws(o as int, v)]
                        w < v < wss.len() implies wm.ws(o as int, v) == pre.ws(o as int, v) by {
                        assert(wm.ws(o as int, v) == before.ws(o as int, v));
                    }
                }
                k = k + 1;
            }
            proof {
                assert(ws0.take(ws0.len() as int) =~= ws0);
                lemma_reqs_workspaces_step(wss, fo, w as int);
                assert(wss.take(w + 1).drop_last() =~= wss.take(w as int));
                assert(wm.ws(o as int, w as int).window_list@ =~= pre.ws(o as int, w as int).window_list@.map(g));
            }
            w = w + 1;
        }
        proof {
            assert(wss.take(wss.len() as int) =~= wss);
            lemma_reqs_outputs_step(outs, f, o as int);
            assert(outs.take(o + 1).drop_last() =~= outs.take(o as int));
            assert forall|p: int, v: int|
                #![trigger wm.ws(p, v)]
                0 <= p < o + 1 && pre.has_ws(p, v) implies ws_mapped(
                wm.ws(p, v),
                pre.ws(p, v),
                |k: int, win: Window| gridded(win, enter_cell(pre, slot_of(outs, p, v, k))),
            ) by {
                if p == o {
                    assert(0 <= v < w);
                }
            }
        }
        o = o + 1;
    }
    proof {
        assert(outs.take(outs.len() as int) =~= outs);
    }
    let ghost looped = *wm;
    wm.overview_state = Some(
        OverviewState { entries, highlighted: 0, columns, previous_workspace },
    );
    wm.status = Status::Overview;
    set_overview_keybinds(bindings, true, reqs);
    proof {
        assert forall|p: int| 0 <= p < wm.outputs@.len() implies output_wf(#[trigger] wm.outputs@[p]) by {
            assert(output_same_but_workspaces(wm.outputs@[p], outs[p]));
        }
        assert(enter_area(pre) == pre.outputs@[output_idx as int].non_exclusive);
        assert(wm.overview_state.unwrap().entries@ == entries_of(pre.outputs@));
        assert(wm.overview_state.unwrap().columns == spec_grid_columns(window_count(pre.outputs@) as usize, enter_area(pre)));
        assert(wm.same_but_outputs(
            &WindowManager { overview_state: wm.overview_state, status: Status::Overview, ..pre },
        ));
        assert forall|p: int, v: int|
            #![trigger wm.ws(p, v)]
            pre.has_ws(p, v) implies ws_mapped(
            wm.ws(p, v),
            pre.ws(p, v),
            |k: int, win: Window| gridded(win, enter_cell(pre, slot_of(pre.outputs@, p, v, k))),
        ) by {
            assert(looped.ws(p, v) == wm.ws(p, v));
        }
    }
}

} // verus!

verus! {

/// Whether the entry's window still exists in `wm`.
pub open spec fn alive(wm: WindowManager) -> spec_fn(OverviewEntry) -> bool {
    |e: OverviewEntry| wm.spec_locate(e.window) is Some
}

/// Pruning: nothing happens without an open overview or when every entry's
/// window still exists; when none exists the overview is canceled;
/// otherwise the dead entries go and the highlight is capped at the last
/// remaining entry.
pub open spec fn spec_prune(post: WindowManager, pre: WindowManager) -> bool {
    match pre.overview_state {
        None => post == pre,
        Some(ov) => {
            let kept = ov.entries@.filter(alive(pre));
            if kept.len() == ov.entries@.len() {
                post == pre
            } else if kept.len() == 0 {
                spec_cancel(post, pre)
            } else {
                &&& WindowManager { overview_state: pre.overview_state, ..post } == pre
                &&& post.overview_state matches Some(nov) && {
                    &&& nov.entries@ == kept
                    &&& nov.highlighted == if ov.highlighted < kept.len() - 1 {
                        ov.highlighted as int
                    } else {
                        kept.len() - 1
                    }
                    &&& nov.columns == ov.columns
                    &&& nov.previous_workspace == ov.previous_workspace
                }
            }
        },
    }
}

/// No entry of the open overview of `wm` has its window any more.
pub open spec fn none_alive(wm: WindowManager) -> bool {
    wm.overview_state matches Some(ov) && ov.entries@.filter(alive(wm)).len() == 0
}

/// The requests of pruning: canceling the overview disables its bare keys.
pub open spec fn prune_reqs(pre: WindowManager, bindings: Seq<XkbBinding>) -> Seq<Request> {
    if none_alive(pre) {
        leave_reqs(pre, bindings)
    } else {
        Seq::empty()
    }
}

/// Pruning can cancel the overview only when the remembered workspace's
/// output exists.
pub open spec fn prune_defined(pre: WindowManager) -> bool {
    none_alive(pre) ==> ov_home_valid(pre)
}

/// Drop overview entries whose windows no longer exist, so navigation never
/// highlights a ghost slot. Cancels the overview when nothing is left.
pub fn prune(wm: &mut WindowManager, bindings: &Vec<XkbBinding>, reqs: &mut Vec<Request>)
    requires
        old(wm).inv(),
        prune_defined(*old(wm)),
    ensures
        final(wm).inv(),
        spec_prune(*final(wm), *old(wm)),
        final(reqs)@ == old(reqs)@ + prune_reqs(*old(wm), bindings@),
{
    proof {
        assert(old(reqs)@ + Seq::<Request>::empty() =~= old(reqs)@);
    }
    let ghost pre = *wm;
    let n = match &wm.overview_state {
        Some(ov) => ov.entries.len(),
        None => return,
    };
    let ghost entries = pre.overview_state.unwrap().entries@;
    let mut kept: Vec<OverviewEntry> = Vec::new();
    let mut i: usize = 0;
    while i < n
        invariant
            *wm == pre,
            pre.overview_state is Some,
            entries == pre.overview_state.unwrap().entries@,
            n == entries.len(),
            i <= n,
            kept@ == entries.take(i as int).filter(alive(pre)),
        decreases n - i,
    {
        let entry = match &wm.overview_state {
            Some(ov) => ov.entries[i],
            None => return,
        };
        proof {
            reveal(Seq::filter);
            assert(entries.take(i + 1).drop_last() =~= entries.take(i as int));
            assert(entries.take(i + 1).last() == entry);
        }
        if locate(wm, entry.window).is_some() {
            kept.push(entry);
        }
        i = i + 1;
    }
    proof {
        assert(entries.take(n as int) =~= entries);
    }
    if kept.len() == n {
        return;
    }
    if kept.len() == 0 {
        cancel(wm, bindings, reqs);
        return;
    }
    let last = kept.len() - 1;
    match &mut wm.overview_state {
        Some(ov) => {
            if ov.highlighted > last {
                ov.highlighted = last;
            }
            ov.entries = kept;
        },
        None => {},
    }
}

/// Geometries of the windows touched after the first `n` entries of the
/// overview of `pre` got their borders (the entry `hl` focused, the others
/// not), by position.
pub open spec fn border_geoms(
    pre: WindowManager,
    entries: Seq<OverviewEntry>,
    hl: int,
    config: Config,
    n: int,
) -> Map<(int, int, int), WindowGeom>
    decreases n,
{
    if n <= 0 {
        Map::empty()
    } else {
        let m = border_geoms(pre, entries, hl, config, n - 1);
        match pre.spec_locate(entries[n - 1].window) {
            Some(p) => {
                let g = if m.dom().contains(p) {
                    m[p]
                } else {
                    pre.win(p.0, p.1, p.2).geom
                };
                m.insert(p, spec_border_geom(g, n - 1 == hl, config))
            },
            None => m,
        }
    }
}

/// The requests for the first `n` entries of the overview of `pre`: each
/// entry whose window exists releases fullscreen, gets its border where
/// needed, and the highlighted one is raised and focused.
pub open spec fn border_pass_reqs(
    pre: WindowManager,
    entries: Seq<OverviewEntry>,
    hl: int,
    config: Config,
    n: int,
) -> Seq<Request>
    decreases n,
{
    if n <= 0 {
        Seq::empty()
    } else {
        let m = border_geoms(pre, entries, hl, config, n - 1);
        let id = entries[n - 1].window;
        border_pass_reqs(pre, entries, hl, config, n - 1) + match pre.spec_locate(id) {
            Some(p) => {
                let g = if m.dom().contains(p) {
                    m[p]
                } else {
                    pre.win(p.0, p.1, p.2).geom
                };
                seq![Request::ExitFullscreen(id)] + border_reqs(id, g, n - 1 == hl, config) + if n
                    - 1 == hl {
                    seq![Request::PlaceTop(id), Request::FocusWindow(id)]
                } else {
                    Seq::empty()
                }
            },
            None => Seq::empty(),
        }
    }
}

/// The window at (`o`, `w`, `k`) with the geometry the border pass left it.
pub open spec fn bordered(m: Map<(int, int, int), WindowGeom>, o: int, w: int, k: int, win: Window) -> Window {
    if m.dom().contains((o, w, k)) {
        Window { geom: m[(o, w, k)], ..win }
    } else {
        win
    }
}

/// `post` is `pre` with the border pass of the first `n` entries applied to
/// the windows.
pub open spec fn borders_ok(
    post: WindowManager,
    pre: WindowManager,
    entries: Seq<OverviewEntry>,
    hl: int,
    n: int,
) -> bool {
    let m = border_geoms(pre, entries, hl, pre.config, n);
    &&& post.same_but_outputs(&pre)
    &&& post.outputs@.len() == pre.outputs@.len()
    &&& forall|o: int|
        0 <= o < pre.outputs@.len() ==> output_same_but_workspaces(
            #[trigger] post.outputs@[o],
            pre.outputs@[o],
        )
    &&& forall|o: int, w: int|
        #![trigger post.ws(o, w)]
        pre.has_ws(o, w) ==> ws_mapped(
            post.ws(o, w),
            pre.ws(o, w),
            |k: int, win: Window| bordered(m, o, w, k, win),
        )
}

proof fn lemma_border_geoms_dom(
    pre: WindowManager,
    entries: Seq<OverviewEntry>,
    hl: int,
    config: Config,
    n: int,
    p: (int, int, int),
)
    requires
        border_geoms(pre, entries, hl, config, n).dom().contains(p),
    ensures
        pre.is_first_at(pre.win(p.0, p.1, p.2).id, p.0, p.1, p.2),
    decreases n,
{
    if n > 0 {
        let m = border_geoms(pre, entries, hl, config, n - 1);
        match pre.spec_locate(entries[n - 1].window) {
            Some(q) => {
                if q == p {
                    pre.lemma_locate_some(entries[n - 1].window);
                } else {
                    lemma_border_geoms_dom(pre, entries, hl, config, n - 1, p);
                }
            },
            None => {
                lemma_border_geoms_dom(pre, entries, hl, config, n - 1, p);
            },
        }
    }
}

proof fn lemma_borders_same_ids(post: WindowManager, pre: WindowManager, entries: Seq<OverviewEntry>, hl: int, n: int)
    requires
        borders_ok(post, pre, entries, hl, n),
    ensures
        post.same_ids(&pre),
{
    let m = border_geoms(pre, entries, hl, pre.config, n);
    assert forall|o: int| 0 <= o < post.outputs@.len() implies (#[trigger] post.outputs@[o]).workspace_list@.len()
        == pre.outputs@[o].workspace_list@.len() by {
        assert(output_same_but_workspaces(post.outputs@[o], pre.outputs@[o]));
    }
    assert forall|o: int, w: int| #![trigger post.ws(o, w)] post.has_ws(o, w) implies post.ws(
        o,
        w,
    ).window_list@.len() == pre.ws(o, w).window_list@.len() by {
        assert(output_same_but_workspaces(post.outputs@[o], pre.outputs@[o]));
        assert(pre.has_ws(o, w));
    }
    assert forall|o: int, w: int, k: int| #![trigger post.win(o, w, k)] post.has_win(
        o,
        w,
        k,
    ) implies post.win(o, w, k).id == pre.win(o, w, k).id by {
        assert(output_same_but_workspaces(post.outputs@[o], pre.outputs@[o]));
        assert(pre.has_ws(o, w));
        assert(post.ws(o, w).window_list@[k] == bordered(m, o, w, k, pre.ws(o, w).window_list@[k]));
    }
}

/// The overview border pass on `pre`, giving `post` and requests `r`:
/// nothing without an open overview; otherwise focus is cleared and every
/// entry's window gets the border pass.
pub open spec fn apply_borders_ok(post: WindowManager, pre: WindowManager, r: Seq<Request>) -> bool {
    match pre.overview_state {
        None => post == pre && r == Seq::<Request>::empty(),
        Some(ov) => {
            &&& borders_ok(post, pre, ov.entries@, ov.highlighted as int, ov.entries@.len() as int)
            &&& r == seq![Request::ClearFocus] + border_pass_reqs(
                pre,
                ov.entries@,
                ov.highlighted as int,
                pre.config,
                ov.entries@.len() as int,
            )
        },
    }
}

/// Apply border colors and focus for the open overview without
/// recomputing the layout: focus is cleared, then every entry's window
/// releases fullscreen and gets its border, and the highlighted one is
/// raised and focused.
pub fn apply_borders(wm: &mut WindowManager, reqs: &mut Vec<Request>)
    requires
        old(wm).inv(),
    ensures
        final(wm).inv(),
        final(reqs)@.len() >= old(reqs)@.len(),
        final(reqs)@.take(old(reqs)@.len() as int) == old(reqs)@,
        apply_borders_ok(*final(wm), *old(wm), final(reqs)@.skip(old(reqs)@.len() as int)),
{
    let ghost pre = *wm;
    let (n, hl) = match &wm.overview_state {
        Some(ov) => (ov.entries.len(), ov.highlighted),
        None => {
            proof {
                assert(reqs@.skip(old(reqs)@.len() as int) =~= Seq::<Request>::empty());
                assert(reqs@.take(old(reqs)@.len() as int) =~= old(reqs)@);
            }
            return;
        },
    };
    let ghost entries = pre.overview_state.unwrap().entries@;
    reqs.push(Request::ClearFocus);
    let ghost start = reqs@;
    let mut i: usize = 0;
    proof {
        let m0 = border_geoms(pre, entries, hl as int, pre.config, 0);
        assert forall|o: int, w: int| #![trigger wm.ws(o, w)] pre.has_ws(o, w) implies ws_mapped(
            wm.ws(o, w),
            pre.ws(o, w),
            |k: int, win: Window| bordered(m0, o, w, k, win),
        ) by {
            assert(wm.ws(o, w).window_list@ =~= pre.ws(o, w).window_list@.map(
                |k: int, win: Window| bordered(m0, o, w, k, win),
            ));
        }
    }
    while i < n
        invariant
            pre.inv(),
            pre.overview_state is Some,
            entries == pre.overview_state.unwrap().entries@,
            hl == pre.overview_state.unwrap().highlighted,
            n == entries.len(),
            i <= n,
            borders_ok(*wm, pre, entries, hl as int, i as int),
            reqs@ == start + border_pass_reqs(pre, entries, hl as int, pre.config, i as int),
        decreases n - i,
    {
        let ghost m = border_geoms(pre, entries, hl as int, pre.config, i as int);
        let ghost before = *wm;
        let entry = match &wm.overview_state {
            Some(ov) => ov.entries[i],
            None => return,
        };
        proof {
            lemma_borders_same_ids(*wm, pre, entries, hl as int, i as int);
            wm.lemma_same_ids_locate(&pre, entry.window);
        }
        match locate(wm, entry.window) {
            Some(loc) => {
                let o = loc.output_idx;
                let w = loc.workspace_idx;
                let k = loc.window_idx;
                let ghost p = (o as int, w as int, k as int);
                proof {
                    pre.lemma_locate_some(entry.window);
                    assert(pre.has_win(o as int, w as int, k as int));
                    assert(wm.ws(o as int, w as int).window_list@[k as int] == bordered(
                        m,
                        o as int,
                        w as int,
                        k as int,
                        pre.ws(o as int, w as int).window_list@[k as int],
                    ));
                }
                let is_focused = i == hl;
                let id = wm.outputs[o].workspace_list[w].window_list[k].id;
                reqs.push(Request::ExitFullscreen(id));
                apply_window_border(
                    id,
                    &mut wm.outputs[o].workspace_list[w].window_list[k].geom,
                    is_focused,
                    &wm.config,
                    reqs,
                );
                if is_focused {
                    reqs.push(Request::PlaceTop(id));
                    reqs.push(Request::FocusWindow(id));
                }
                proof {
                    let m1 = border_geoms(pre, entries, hl as int, pre.config, i + 1);
                    assert(m1 == m.insert(p, spec_border_geom(
                        if m.dom().contains(p) { m[p] } else { pre.win(p.0, p.1, p.2).geom },
                        i == hl,
                        pre.config,
                    )));
                    assert(reqs@ =~= start + border_pass_reqs(pre, entries, hl as int, pre.config, i + 1));
                    assert forall|o2: int, w2: int|
                        #![trigger wm.ws(o2, w2)]
                        pre.has_ws(o2, w2) implies ws_mapped(
                        wm.ws(o2, w2),
                        pre.ws(o2, w2),
                        |k2: int, win: Window| bordered(m1, o2, w2, k2, win),
                    ) by {
                        assert(before.ws(o2, w2) == before.ws(o2, w2));
                        assert(wm.ws(o2, w2).window_list@ =~= pre.ws(o2, w2).window_list@.map(
                            |k2: int, win: Window| bordered(m1, o2, w2, k2, win),
                        )) by {
                            assert forall|k2: int| 0 <= k2 < pre.ws(o2, w2).window_list@.len() implies
                                #[trigger] wm.ws(o2, w2).window_list@[k2] == bordered(
                                m1,
                                o2,
                                w2,
                                k2,
                                pre.ws(o2, w2).window_list@[k2],
                            ) by {
                                assert(before.ws(o2, w2).window_list@[k2] == bordered(
                                    m,
                                    o2,
                                    w2,
                                    k2,
                                    pre.ws(o2, w2).window_list@[k2],
                                ));
                            }
                        }
                    }
                    assert forall|q: int| 0 <= q < wm.outputs@.len() implies output_same_but_workspaces(
                        #[trigger] wm.outputs@[q],
                        pre.outputs@[q],
                    ) by {
                        assert(output_same_but_workspaces(before.outputs@[q], pre.outputs@[q]));
                    }
                }
            },
            None => {
                proof {
                    let m1 = border_geoms(pre, entries, hl as int, pre.config, i + 1);
                    assert(m1 == m);
                    assert(reqs@ =~= start + border_pass_reqs(pre, entries, hl as int, pre.config, i + 1));
                }
            },
        }
        i = i + 1;
    }
    proof {
        assert forall|q: int| 0 <= q < wm.outputs@.len() implies output_wf(#[trigger] wm.outputs@[q]) by {
            assert(output_same_but_workspaces(wm.outputs@[q], pre.outputs@[q]));
        }
        assert(reqs@ =~= old(reqs)@ + seq![Request::ClearFocus] + border_pass_reqs(
            pre,
            entries,
            hl as int,
            pre.config,
            n as int,
        ));
        assert(reqs@.skip(old(reqs)@.len() as int) =~= seq![Request::ClearFocus] + border_pass_reqs(
            pre,
            entries,
            hl as int,
            pre.config,
            n as int,
        ));
        assert(reqs@.take(old(reqs)@.len() as int) =~= old(reqs)@);
    }
}

} // verus!

verus! {

/// The number of windows on all outputs, or `None` when it does not fit in
/// a `usize`.
fn checked_window_count(wm: &WindowManager) -> (r: Option<usize>)
    ensures
        match r {
            Some(t) => t == window_count(wm.outputs@),
            None => window_count(wm.outputs@) > usize::MAX,
        },
{
    let ghost outs = wm.outputs@;
    let mut total: usize = 0;
    let mut o: usize = 0;
    while o < wm.outputs.len()
        invariant
            o <= outs.len(),
            outs == wm.outputs@,
            total == window_count(outs.take(o as int)),
        decreases outs.len() - o,
    {
        let ghost wss = outs[o as int].workspace_list@;
        let mut w: usize = 0;
        while w < wm.outputs[o].workspace_list.len()
            invariant
                o < outs.len(),
                outs == wm.outputs@,
                wss == outs[o as int].workspace_list@,
                w <= wss.len(),
                total == window_count(outs.take(o as int)) + ws_window_count(wss.take(w as int)),
            decreases wss.len() - w,
        {
            proof {
                assert(wss.take(w + 1).drop_last() =~= wss.take(w as int));
            }
            let n = wm.outputs[o].workspace_list[w].window_list.len();
            if total > usize::MAX - n {
                proof {
                    lemma_ws_count_prefix(wss, w + 1);
                    lemma_ws_count_prefix(wss, wss.len() as int);
                    assert(wss.take(wss.len() as int) =~= wss);
                    assert(outs.take(o + 1).drop_last() =~= outs.take(o as int));
                    lemma_count_prefix(outs, o + 1);
                }
                return None;
            }
            total = total + n;
            w = w + 1;
        }
        proof {
            assert(wss.take(wss.len() as int) =~= wss);
            assert(outs.take(o + 1).drop_last() =~= outs.take(o as int));
        }
        o = o + 1;
    }
    proof {
        assert(outs.take(outs.len() as int) =~= outs);
    }
    Some(total)
}

/// 32-bit division of `a` by `b` is defined.
fn div_is_defined(a: i32, b: i32) -> (r: bool)
    ensures
        r == div_defined(a, b),
{
    b != 0 && !(a == i32::MIN && b == -1)
}

/// Whether the overview grid for `total` windows in `area` can be computed.
pub fn grid_is_defined(area: Rectangle, total: usize, h_gap: i32, v_gap: i32) -> (r: bool)
    ensures
        r == grid_defined(area, total, h_gap, v_gap),
{
    let cols = grid_columns(total, &area);
    proof {
        assert(total / cols + (if total % cols == 0 { 0int } else { 1int }) <= total) by (nonlinear_arith)
            requires
                cols >= 1,
                total >= 0,
        ;
    }
    let rows: usize = total / cols + if total % cols == 0 {
        0
    } else {
        1
    };
    proof {
        assert(rows == div_ceil(total as int, cols as int)) by (nonlinear_arith)
            requires
                cols >= 1,
                rows == total / cols + if total % cols == 0 { 0int } else { 1int },
        ;
    }
    let cols_i: i32 = cols as i32;
    let rows_i: i32 = rows as i32;
    div_is_defined(area.width.wrapping_sub(h_gap.wrapping_mul(cols_i.wrapping_add(1))), cols_i)
        && div_is_defined(area.height.wrapping_sub(v_gap.wrapping_mul(rows_i.wrapping_add(1))), rows_i)
}

/// Whether entering the overview on `wm` computes without overflow.
pub fn enter_is_defined(wm: &WindowManager) -> (r: bool)
    requires
        wm.inv(),
    ensures
        r == enter_defined(*wm),
{
    let o = match wm.focused_output_idx {
        Some(o) => o,
        None => return true,
    };
    if wm.overview_state.is_some() {
        return true;
    }
    let total = match checked_window_count(wm) {
        Some(t) => t,
        None => return false,
    };
    if total == 0 {
        return true;
    }
    grid_is_defined(wm.outputs[o].non_exclusive, total, wm.config.horizontal_gap, wm.config.vertical_gap)
}

/// Whether the remembered workspace of the open overview names an output.
pub fn ov_home_is_valid(wm: &WindowManager) -> (r: bool)
    ensures
        r == ov_home_valid(*wm),
{
    match &wm.overview_state {
        Some(ov) => match ov.previous_workspace {
            Some(p) => p.output_idx < wm.outputs.len(),
            None => true,
        },
        None => true,
    }
}

proof fn lemma_filter_full<A>(s: Seq<A>, p: spec_fn(A) -> bool)
    ensures
        s.filter(p).len() == s.len() <==> forall|i: int| 0 <= i < s.len() ==> p(s[i]),
    decreases s.len(),
{
    reveal(Seq::filter);
    if s.len() > 0 {
        lemma_filter_full(s.drop_last(), p);
        s.drop_last().lemma_filter_len(p);
        if forall|i: int| 0 <= i < s.len() ==> p(s[i]) {
            assert forall|i: int| 0 <= i < s.drop_last().len() implies p(s.drop_last()[i]) by {
                assert(s.drop_last()[i] == s[i]);
            }
        } else {
            let i = choose|i: int| 0 <= i < s.len() && !p(s[i]);
            if i < s.len() - 1 {
                assert(s.drop_last()[i] == s[i]);
            }
        }
    }
}

proof fn lemma_filter_none<A>(s: Seq<A>, p: spec_fn(A) -> bool)
    ensures
        s.filter(p).len() == 0 <==> forall|i: int| 0 <= i < s.len() ==> !p(s[i]),
    decreases s.len(),
{
    reveal(Seq::filter);
    if s.len() > 0 {
        lemma_filter_none(s.drop_last(), p);
        if forall|i: int| 0 <= i < s.len() ==> !p(s[i]) {
            assert forall|i: int| 0 <= i < s.drop_last().len() implies !p(s.drop_last()[i]) by {
                assert(s.drop_last()[i] == s[i]);
            }
        } else {
            let i = choose|i: int| 0 <= i < s.len() && p(s[i]);
            if i < s.len() - 1 {
                assert(s.drop_last()[i] == s[i]);
            }
        }
    }
}

/// Whether the overview is open and none of its entries has its window.
pub fn no_entry_alive(wm: &WindowManager) -> (r: bool)
    ensures
        r == none_alive(*wm),
{
    let n = match &wm.overview_state {
        Some(ov) => ov.entries.len(),
        None => return false,
    };
    let ghost entries = wm.overview_state.unwrap().entries@;
    proof {
        lemma_filter_none(entries, alive(*wm));
    }
    let mut i: usize = 0;
    while i < n
        invariant
            wm.overview_state is Some,
            entries == wm.overview_state.unwrap().entries@,
            n == entries.len(),
            i <= n,
            forall|j: int| 0 <= j < i ==> !alive(*wm)(entries[j]),
        decreases n - i,
    {
        let id = match &wm.overview_state {
            Some(ov) => ov.entries[i].window,
            None => return false,
        };
        if locate(wm, id).is_some() {
            proof {
                lemma_filter_none(entries, alive(*wm));
                assert(alive(*wm)(entries[i as int]));
            }
            return false;
        }
        i = i + 1;
    }
    true
}

/// Whether every entry of the open overview still has its window.
pub fn all_entries_alive(wm: &WindowManager) -> (r: bool)
    requires
        wm.overview_state is Some,
    ensures
        r == (wm.overview_state.unwrap().entries@.filter(alive(*wm)).len()
            == wm.overview_state.unwrap().entries@.len()),
{
    let ghost entries = wm.overview_state.unwrap().entries@;
    proof {
        lemma_filter_full(entries, alive(*wm));
    }
    let n = match &wm.overview_state {
        Some(ov) => ov.entries.len(),
        None => return true,
    };
    let mut i: usize = 0;
    while i < n
        invariant
            wm.overview_state is Some,
            entries == wm.overview_state.unwrap().entries@,
            n == entries.len(),
            i <= n,
            forall|j: int| 0 <= j < i ==> alive(*wm)(entries[j]),
        decreases n - i,
    {
        let id = match &wm.overview_state {
            Some(ov) => ov.entries[i].window,
            None => return true,
        };
        if locate(wm, id).is_none() {
            proof {
                lemma_filter_full(entries, alive(*wm));
                assert(!alive(*wm)(entries[i as int]));
            }
            return false;
        }
        i = i + 1;
    }
    true
}

} // verus!

verus! {

/// A wider area never gets fewer grid columns: when `wide` has an aspect
/// ratio at least that of `tall` (width over height, a height below one
/// counting as one), the grid for the same number of windows has at least
/// as many columns on `wide`.
pub proof fn lemma_grid_columns_follow_aspect(total: usize, wide: Rectangle, tall: Rectangle)
    requires
        wide.width as int * (if tall.height < 1 { 1 } else { tall.height as int }) >= tall.width as int * (
        if wide.height < 1 {
            1
        } else {
            wide.height as int
        }),
    ensures
        spec_grid_columns(total, wide) >= spec_grid_columns(total, tall),
{
    if total > 1 {
        let hw = if wide.height < 1 { 1int } else { wide.height as int };
        let ht = if tall.height < 1 { 1int } else { tall.height as int };
        let cw = spec_grid_columns(total, wide);
        let ct = spec_grid_columns(total, tall);
        lemma_grid_columns_exists(total, wide);
        lemma_grid_columns_exists(total, tall);
        assert(cw >= 1 && cols_enough(cw, total as int, wide.width as int, wide.height as int));
        assert(ct >= 1 && cols_enough(ct, total as int, tall.width as int, tall.height as int) && (ct == 1
            || !cols_enough(ct - 1, total as int, tall.width as int, tall.height as int)));
        // cw columns are enough for the taller area too.
        assert(cols_enough(cw, total as int, tall.width as int, tall.height as int)) by (nonlinear_arith)
            requires
                cw * cw * hw >= total * wide.width,
                wide.width * ht >= tall.width * hw,
                hw >= 1,
                ht >= 1,
                total >= 0,
                cols_enough(cw, total as int, tall.width as int, tall.height as int) == (cw * cw * ht
                    >= total * tall.width),
        ;
        if ct > cw {
            lemma_cols_monotone(cw, ct - 1, total as int, tall.width as int, tall.height as int);
        }
    }
}

/// Some column count is enough for any area, so the least one exists.
proof fn lemma_grid_columns_exists(total: usize, rect: Rectangle)
    requires
        total > 1,
    ensures
        ({
            let c = spec_grid_columns(total, rect);
            c >= 1 && cols_enough(c, total as int, rect.width as int, rect.height as int) && (c == 1
                || !cols_enough(c - 1, total as int, rect.width as int, rect.height as int))
        }),
{
    let w = rect.width as int;
    let h = rect.height as int;
    let t = total as int;
    let hh = if h < 1 { 1int } else { h };
    let big = if t * w < 1 { 1int } else { t * w };
    assert(cols_enough(big, t, w, h)) by (nonlinear_arith)
        requires
            big >= 1,
            big >= t * w,
            hh >= 1,
            cols_enough(big, t, w, h) == (big * big * hh >= t * w),
    ;
    lemma_least_enough(big, t, w, h);
}

/// From an enough column count, a least enough one exists.
proof fn lemma_least_enough(c: int, t: int, w: int, h: int)
    requires
        c >= 1,
        cols_enough(c, t, w, h),
    ensures
        exists|d: int| d >= 1 && #[trigger] cols_enough(d, t, w, h) && (d == 1 || !cols_enough(d - 1, t, w, h)),
    decreases c,
{
    if c > 1 && cols_enough(c - 1, t, w, h) {
        lemma_least_enough(c - 1, t, w, h);
    } else {
        assert(c >= 1 && cols_enough(c, t, w, h) && (c == 1 || !cols_enough(c - 1, t, w, h)));
    }
}

/// Grid cells line up: a cell and the one a row below it (`cols` later)
/// share their left edge, and cells of one row share their top edge; all
/// cells have the same size.
pub proof fn lemma_grid_cells_aligned(
    area: Rectangle,
    cols: usize,
    cell_w: i32,
    cell_h: i32,
    h_gap: i32,
    v_gap: i32,
    i: int,
    j: int,
)
    requires
        cols >= 1,
        0 <= i,
        0 <= j,
    ensures
        j == i + cols ==> grid_cell(area, i, cols, cell_w, cell_h, h_gap, v_gap).x == grid_cell(
            area,
            j,
            cols,
            cell_w,
            cell_h,
            h_gap,
            v_gap,
        ).x,
        i / (cols as int) == j / (cols as int) ==> grid_cell(area, i, cols, cell_w, cell_h, h_gap, v_gap).y
            == grid_cell(area, j, cols, cell_w, cell_h, h_gap, v_gap).y,
        grid_cell(area, i, cols, cell_w, cell_h, h_gap, v_gap).width == cell_w,
        grid_cell(area, i, cols, cell_w, cell_h, h_gap, v_gap).height == cell_h,
{
    if j == i + cols {
        assert((i + cols as int) % (cols as int) == i % (cols as int)) by (nonlinear_arith)
            requires
                cols >= 1,
                i >= 0,
        ;
    }
}

/// Pruning leaves only entries whose windows exist, with the highlight on
/// one of them.
pub proof fn lemma_pruned_entries_alive(post: WindowManager, pre: WindowManager)
    requires
        spec_prune(post, pre),
        pre.overview_state is Some,
        post != pre,
        post.overview_state is Some,
    ensures
        forall|i: int|
            0 <= i < post.overview_state.unwrap().entries@.len() ==> alive(pre)(
                #[trigger] post.overview_state.unwrap().entries@[i],
            ),
        post.overview_state.unwrap().highlighted < post.overview_state.unwrap().entries@.len(),
{
    let ov = pre.overview_state.unwrap();
    let kept = ov.entries@.filter(alive(pre));
    assert forall|i: int| 0 <= i < kept.len() implies alive(pre)(#[trigger] kept[i]) by {
        ov.entries@.lemma_filter_pred(alive(pre), i);
    }
}

} // verus!

verus! {

/// A walk that gives one item per window gives, at each window's position
/// in the count, that window's item.
proof fn lemma_walk_windows<A>(ws: Seq<Window>, h: spec_fn(int, Window) -> Seq<A>, g: spec_fn(Window) -> A)
    requires
        forall|k: int, win: Window| #[trigger] h(k, win) == seq![g(win)],
    ensures
        reqs_windows(ws, h).len() == ws.len(),
        forall|k: int| 0 <= k < ws.len() ==> #[trigger] reqs_windows(ws, h)[k] == g(ws[k]),
    decreases ws.len(),
{
    if ws.len() > 0 {
        lemma_walk_windows(ws.drop_last(), h, g);
        assert(h(ws.len() - 1, ws.last()) == seq![g(ws.last())]);
        assert forall|k: int| 0 <= k < ws.len() implies #[trigger] reqs_windows(ws, h)[k] == g(ws[k]) by {
            if k < ws.len() - 1 {
                assert(reqs_windows(ws.drop_last(), h)[k] == g(ws.drop_last()[k]));
            }
        }
    }
}

/// The workspace level of `lemma_walk_windows`.
proof fn lemma_walk_workspaces<A>(
    wss: Seq<Workspace>,
    f: spec_fn(int, int, Window) -> Seq<A>,
    g: spec_fn(Window) -> A,
)
    requires
        forall|w: int, k: int, win: Window| #[trigger] f(w, k, win) == seq![g(win)],
    ensures
        reqs_workspaces(wss, f).len() == ws_window_count(wss),
        forall|w: int, k: int|
            0 <= w < wss.len() && 0 <= k < wss[w].window_list@.len() ==> #[trigger] reqs_workspaces(
                wss,
                f,
            )[ws_window_count(wss.take(w)) + k] == g(wss[w].window_list@[k]),
        forall|i: int|
            0 <= i < reqs_workspaces(wss, f).len() ==> exists|w: int, k: int|
                0 <= w < wss.len() && 0 <= k < wss[w].window_list@.len() && #[trigger] reqs_workspaces(
                    wss,
                    f,
                )[i] == g(wss[w].window_list@[k]),
    decreases wss.len(),
{
    if wss.len() > 0 {
        let n = wss.len() - 1;
        let init = wss.drop_last();
        let h = |k: int, win: Window| f(n, k, win);
        lemma_walk_workspaces(init, f, g);
        lemma_walk_windows(wss.last().window_list@, h, g);
        let a = reqs_workspaces(init, f);
        let b = reqs_windows(wss.last().window_list@, h);
        assert(reqs_workspaces(wss, f) == a + b);
        assert forall|w: int, k: int|
            0 <= w < wss.len() && 0 <= k < wss[w].window_list@.len() implies #[trigger] reqs_workspaces(
                wss,
                f,
            )[ws_window_count(wss.take(w)) + k] == g(wss[w].window_list@[k]) by {
            if w < n {
                assert(init.take(w) =~= wss.take(w));
                lemma_ws_count_prefix(init, w + 1);
                lemma_ws_count_prefix(init, w);
                assert(init.take(w + 1).drop_last() =~= init.take(w));
                assert(init[w] == wss[w]);
                assert(ws_window_count(wss.take(w)) + k < a.len());
                assert(a[ws_window_count(init.take(w)) + k] == g(init[w].window_list@[k]));
            } else {
                assert(wss.take(w) =~= init);
                assert(ws_window_count(wss.take(w)) == a.len());
                assert(k < b.len());
                assert(b[k] == g(wss.last().window_list@[k]));
                assert((a + b)[a.len() + k] == b[k]);
            }
        }
        assert forall|i: int| 0 <= i < reqs_workspaces(wss, f).len() implies exists|w: int, k: int|
            0 <= w < wss.len() && 0 <= k < wss[w].window_list@.len() && #[trigger] reqs_workspaces(
                wss,
                f,
            )[i] == g(wss[w].window_list@[k]) by {
            if i < a.len() {
                let (w, k) = choose|w: int, k: int|
                    0 <= w < init.len() && 0 <= k < init[w].window_list@.len() && #[trigger] a[i] == g(
                        init[w].window_list@[k],
                    );
                assert(init[w] == wss[w]);
                assert(reqs_workspaces(wss, f)[i] == g(wss[w].window_list@[k]));
            } else {
                let k = i - a.len();
                assert(b[k] == g(wss.last().window_list@[k]));
                assert(reqs_workspaces(wss, f)[i] == g(wss[n].window_list@[k]));
            }
        }
    }
}

/// The output level of `lemma_walk_windows`: the walk has one item per
/// window, the window at (`o`, `w`, `k`) at its slot, and every item is
/// some window's.
proof fn lemma_walk_outputs<A>(
    outs: Seq<Output>,
    f: spec_fn(int, int, int, Window) -> Seq<A>,
    g: spec_fn(Window) -> A,
)
    requires
        forall|o: int, w: int, k: int, win: Window| #[trigger] f(o, w, k, win) == seq![g(win)],
    ensures
        reqs_outputs(outs, f).len() == window_count(outs),
        forall|o: int, w: int, k: int|
            0 <= o < outs.len() && 0 <= w < outs[o].workspace_list@.len() && 0 <= k
                < outs[o].workspace_list@[w].window_list@.len() ==> #[trigger] reqs_outputs(outs, f)[slot_of(
                outs,
                o,
                w,
                k,
            )] == g(outs[o].workspace_list@[w].window_list@[k]),
        forall|i: int|
            0 <= i < reqs_outputs(outs, f).len() ==> exists|o: int, w: int, k: int|
                0 <= o < outs.len() && 0 <= w < outs[o].workspace_list@.len() && 0 <= k
                    < outs[o].workspace_list@[w].window_list@.len() && #[trigger] reqs_outputs(outs, f)[i]
                    == g(outs[o].workspace_list@[w].window_list@[k]),
    decreases outs.len(),
{
    if outs.len() > 0 {
        let n = outs.len() - 1;
        let init = outs.drop_last();
        let f2 = |w: int, k: int, win: Window| f(n, w, k, win);
        lemma_walk_outputs(init, f, g);
        lemma_walk_workspaces(outs.last().workspace_list@, f2, g);
        let a = reqs_outputs(init, f);
        let b = reqs_workspaces(outs.last().workspace_list@, f2);
        assert(reqs_outputs(outs, f) == a + b);
        assert forall|o: int, w: int, k: int|
            0 <= o < outs.len() && 0 <= w < outs[o].workspace_list@.len() && 0 <= k
                < outs[o].workspace_list@[w].window_list@.len() implies #[trigger] reqs_outputs(outs, f)[slot_of(
                outs,
                o,
                w,
                k,
            )] == g(outs[o].workspace_list@[w].window_list@[k]) by {
            if o < n {
                assert(init.take(o) =~= outs.take(o));
                assert(init[o] == outs[o]);
                lemma_slot_bound(init, o, w, k);
                assert(slot_of(outs, o, w, k) == slot_of(init, o, w, k));
                assert(a[slot_of(init, o, w, k)] == g(init[o].workspace_list@[w].window_list@[k]));
            } else {
                let lw = outs.last().workspace_list@;
                assert(outs.take(o) =~= init);
                assert(window_count(outs.take(o)) == a.len());
                lemma_ws_count_prefix(lw, w + 1);
                lemma_ws_count_prefix(lw, w);
                lemma_ws_count_prefix(lw, lw.len() as int);
                assert(lw.take(w + 1).drop_last() =~= lw.take(w));
                assert(lw.take(lw.len() as int) =~= lw);
                assert(ws_window_count(lw.take(w)) + k < b.len());
                assert(b[ws_window_count(lw.take(w)) + k] == g(lw[w].window_list@[k]));
                assert((a + b)[a.len() + ws_window_count(lw.take(w)) + k] == b[ws_window_count(lw.take(w)) + k]);
            }
        }
        assert forall|i: int| 0 <= i < reqs_outputs(outs, f).len() implies exists|o: int, w: int, k: int|
            0 <= o < outs.len() && 0 <= w < outs[o].workspace_list@.len() && 0 <= k
                < outs[o].workspace_list@[w].window_list@.len() && #[trigger] reqs_outputs(outs, f)[i]
                == g(outs[o].workspace_list@[w].window_list@[k]) by {
            if i < a.len() {
                let (o, w, k) = choose|o: int, w: int, k: int|
                    0 <= o < init.len() && 0 <= w < init[o].workspace_list@.len() && 0 <= k
                        < init[o].workspace_list@[w].window_list@.len() && #[trigger] a[i] == g(
                        init[o].workspace_list@[w].window_list@[k],
                    );
                assert(init[o] == outs[o]);
                assert(reqs_outputs(outs, f)[i] == g(outs[o].workspace_list@[w].window_list@[k]));
            } else {
                let j = i - a.len();
                let (w, k) = choose|w: int, k: int|
                    0 <= w < outs.last().workspace_list@.len() && 0 <= k < outs.last().workspace_list@[w].window_list@.len()
                        && #[trigger] b[j] == g(outs.last().workspace_list@[w].window_list@[k]);
                assert(reqs_outputs(outs, f)[i] == g(outs[n].workspace_list@[w].window_list@[k]));
            }
        }
    }
}

/// Every window of `pre` has its entry at its slot, and every entry is the
/// entry of some window of `pre`.
proof fn lemma_entries_of(outs: Seq<Output>)
    ensures
        entries_of(outs).len() == window_count(outs),
        forall|o: int, w: int, k: int|
            0 <= o < outs.len() && 0 <= w < outs[o].workspace_list@.len() && 0 <= k
                < outs[o].workspace_list@[w].window_list@.len() ==> #[trigger] entries_of(outs)[slot_of(
                outs,
                o,
                w,
                k,
            )] == entry_of(outs[o].workspace_list@[w].window_list@[k]),
        forall|i: int|
            0 <= i < entries_of(outs).len() ==> exists|o: int, w: int, k: int|
                0 <= o < outs.len() && 0 <= w < outs[o].workspace_list@.len() && 0 <= k
                    < outs[o].workspace_list@[w].window_list@.len() && #[trigger] entries_of(outs)[i]
                    == entry_of(outs[o].workspace_list@[w].window_list@[k]),
{
    let f = |o: int, w: int, k: int, win: Window| seq![entry_of(win)];
    let g = |win: Window| entry_of(win);
    assert(entries_of(outs) == reqs_outputs(outs, f));
    lemma_walk_outputs(outs, f, g);
}

/// Opening the overview changes no window's id or position; `m` is any
/// manager with the outputs of the opened one.
proof fn lemma_enter_same_ids(m: WindowManager, mid: WindowManager, pre: WindowManager)
    requires
        enter_ok(mid, pre),
        m.outputs@ == mid.outputs@,
    ensures
        m.same_ids(&pre),
{
    assert forall|o: int| 0 <= o < m.outputs@.len() implies (#[trigger] m.outputs@[o]).workspace_list@.len()
        == pre.outputs@[o].workspace_list@.len() by {
        assert(output_same_but_workspaces(mid.outputs@[o], pre.outputs@[o]));
    }
    assert forall|o: int, w: int| #![trigger m.ws(o, w)] m.has_ws(o, w) implies m.ws(
        o,
        w,
    ).window_list@.len() == pre.ws(o, w).window_list@.len() by {
        assert(output_same_but_workspaces(mid.outputs@[o], pre.outputs@[o]));
        assert(pre.has_ws(o, w));
        assert(m.ws(o, w) == mid.ws(o, w));
    }
    assert forall|o: int, w: int, k: int| #![trigger m.win(o, w, k)] m.has_win(o, w, k) implies m.win(
        o,
        w,
        k,
    ).id == pre.win(o, w, k).id by {
        assert(output_same_but_workspaces(mid.outputs@[o], pre.outputs@[o]));
        assert(pre.has_ws(o, w));
        assert(m.ws(o, w) == mid.ws(o, w));
        assert(mid.ws(o, w).window_list@.len() == pre.ws(o, w).window_list@.len());
    }
}

/// After opening the overview, a window is brought back to fullscreen on
/// leaving exactly when it was fullscreen before.
proof fn lemma_refullscreened_iff(pre: WindowManager, mid: WindowManager, o: int, w: int, k: int)
    requires
        pre.ids_unique(),
        enter_ok(mid, pre),
        pre.has_win(o, w, k),
    ensures
        refullscreened(
            closed(mid),
            entries_of(pre.outputs@),
            entries_of(pre.outputs@).len() as int,
            o,
            w,
            k,
        ) == pre.win(o, w, k).geom.is_fullscreen,
{
    let outs = pre.outputs@;
    let entries = entries_of(outs);
    let n = entries.len() as int;
    let cm = closed(mid);
    lemma_enter_same_ids(cm, mid, pre);
    lemma_entries_of(outs);
    let pw = pre.win(o, w, k);
    pre.lemma_unique_locate(o, w, k);
    cm.lemma_same_ids_locate(&pre, pw.id);
    if pw.geom.is_fullscreen {
        let i = slot_of(outs, o, w, k);
        lemma_slot_bound(outs, o, w, k);
        assert(entries[i] == entry_of(pw));
        assert(0 <= i < n && entries[i].was_fullscreen && cm.spec_locate(entries[i].window) == Some((o, w, k)));
    }
    if refullscreened(cm, entries, n, o, w, k) {
        let i = choose|i: int|
            #![trigger entries[i]]
            0 <= i < n && entries[i].was_fullscreen && cm.spec_locate(entries[i].window) == Some((o, w, k));
        let (o2, w2, k2) = choose|o2: int, w2: int, k2: int|
            0 <= o2 < outs.len() && 0 <= w2 < outs[o2].workspace_list@.len() && 0 <= k2
                < outs[o2].workspace_list@[w2].window_list@.len() && #[trigger] entries[i] == entry_of(
                outs[o2].workspace_list@[w2].window_list@[k2],
            );
        assert(pre.has_win(o2, w2, k2));
        pre.lemma_unique_locate(o2, w2, k2);
        cm.lemma_same_ids_locate(&pre, entries[i].window);
    }
}

/// A window headed for `cell`, and otherwise as it was.
pub open spec fn headed_for(win: Window, cell: Rectangle) -> Window {
    Window { geom: WindowGeom { finish: Some(cell), ..win.geom }, ..win }
}

/// Opening the overview and canceling it gives everything back as it was:
/// the same output and workspace are focused, every window has its
/// fullscreen state again, and no overview is open. Each window is left
/// headed for its grid cell (the next layout pass places it), and the
/// manager still has the overview's layout pass to run.
pub proof fn lemma_enter_cancel_restores(pre: WindowManager, mid: WindowManager, post: WindowManager)
    requires
        pre.inv(),
        pre.ids_unique(),
        enter_applies(pre),
        enter_ok(mid, pre),
        spec_cancel(post, mid),
    ensures
        post.same_but_outputs(&WindowManager { status: Status::Overview, ..pre }),
        post.outputs@.len() == pre.outputs@.len(),
        forall|o: int|
            0 <= o < pre.outputs@.len() ==> output_same_but_workspaces(
                #[trigger] post.outputs@[o],
                pre.outputs@[o],
            ),
        forall|o: int, w: int|
            #![trigger post.ws(o, w)]
            pre.has_ws(o, w) ==> ws_mapped(
                post.ws(o, w),
                pre.ws(o, w),
                |k: int, win: Window| headed_for(win, enter_cell(pre, slot_of(pre.outputs@, o, w, k))),
            ),
{
    let ov = mid.overview_state.unwrap();
    let entries = ov.entries@;
    let n = entries.len() as int;
    let p = ov.previous_workspace.unwrap();
    let foi = pre.focused_output_idx.unwrap() as int;
    let m2 = choose|m2: WindowManager|
        #[trigger] restored_ok(m2, closed(mid), entries, n) && home_focused(post, m2, p);
    assert(restored_ok(m2, closed(mid), entries, n) && home_focused(post, m2, p));
    assert(p.output_idx == foi && p.workspace_idx == pre.outputs@[foi].focused_workspace_idx);
    assert(closed(mid).outputs@ == mid.outputs@);
    assert(m2.outputs@.len() == pre.outputs@.len());
    assert(post.outputs@.len() == pre.outputs@.len());
    assert forall|o: int| 0 <= o < pre.outputs@.len() implies output_same_but_workspaces(
        #[trigger] post.outputs@[o],
        pre.outputs@[o],
    ) by {
        assert(output_same_but_workspaces(mid.outputs@[o], pre.outputs@[o]));
        assert(output_same_but_workspaces(m2.outputs@[o], closed(mid).outputs@[o]));
        if o == foi {
            assert(post.outputs@[o] == Output { focused_workspace_idx: p.workspace_idx, ..m2.outputs@[o] });
        } else {
            assert(post.outputs@[o] == m2.outputs@[o]);
        }
    }
    assert forall|o: int, w: int|
        #![trigger post.ws(o, w)]
        pre.has_ws(o, w) implies ws_mapped(
        post.ws(o, w),
        pre.ws(o, w),
        |k: int, win: Window| headed_for(win, enter_cell(pre, slot_of(pre.outputs@, o, w, k))),
    ) by {
        let f = |k: int, win: Window| headed_for(win, enter_cell(pre, slot_of(pre.outputs@, o, w, k)));
        assert(output_same_but_workspaces(mid.outputs@[o], pre.outputs@[o]));
        assert(mid.has_ws(o, w));
        assert(closed(mid).has_ws(o, w));
        assert(ws_mapped(
            mid.ws(o, w),
            pre.ws(o, w),
            |k: int, win: Window| gridded(win, enter_cell(pre, slot_of(pre.outputs@, o, w, k))),
        ));
        assert(ws_mapped(
            m2.ws(o, w),
            closed(mid).ws(o, w),
            |k: int, win: Window| restore_win(win, refullscreened(closed(mid), entries, n, o, w, k)),
        ));
        assert(post.ws(o, w) == m2.ws(o, w));
        assert forall|k: int| 0 <= k < pre.ws(o, w).window_list@.len() implies #[trigger] post.ws(
            o,
            w,
        ).window_list@[k] == f(k, pre.ws(o, w).window_list@[k]) by {
            assert(pre.has_win(o, w, k));
            lemma_refullscreened_iff(pre, mid, o, w, k);
        }
        assert(post.ws(o, w).window_list@ =~= pre.ws(o, w).window_list@.map(f));
    }
}

/// Leaving an overview opened on `pre` (whatever was highlighted) gives each
/// window back its fullscreen state and leaves it headed for its cell.
proof fn lemma_left_windows(pre: WindowManager, mid: WindowManager, m2: WindowManager, o: int, w: int, k: int)
    requires
        pre.ids_unique(),
        enter_ok(mid, pre),
        restored_ok(
            m2,
            closed(mid),
            entries_of(pre.outputs@),
            entries_of(pre.outputs@).len() as int,
        ),
        pre.has_win(o, w, k),
    ensures
        m2.has_win(o, w, k),
        m2.win(o, w, k) == headed_for(pre.win(o, w, k), enter_cell(pre, slot_of(pre.outputs@, o, w, k))),
{
    let entries = entries_of(pre.outputs@);
    let n = entries.len() as int;
    assert(output_same_but_workspaces(mid.outputs@[o], pre.outputs@[o]));
    assert(mid.has_ws(o, w));
    assert(closed(mid).has_ws(o, w));
    assert(ws_mapped(
        mid.ws(o, w),
        pre.ws(o, w),
        |k: int, win: Window| gridded(win, enter_cell(pre, slot_of(pre.outputs@, o, w, k))),
    ));
    assert(ws_mapped(
        m2.ws(o, w),
        closed(mid).ws(o, w),
        |k: int, win: Window| restore_win(win, refullscreened(closed(mid), entries, n, o, w, k)),
    ));
    assert(output_same_but_workspaces(m2.outputs@[o], closed(mid).outputs@[o]));
    lemma_refullscreened_iff(pre, mid, o, w, k);
}

/// Opening the overview, highlighting the cell of a window and confirming
/// focuses that window: its output, its workspace there and the window
/// itself become focused. The overview is closed, and every window has its
/// fullscreen state back and is headed for its grid cell, as on canceling.
pub proof fn lemma_enter_select_focuses(
    pre: WindowManager,
    mid: WindowManager,
    sel: WindowManager,
    post: WindowManager,
    o: int,
    w: int,
    k: int,
)
    requires
        pre.inv(),
        pre.ids_unique(),
        enter_applies(pre),
        enter_ok(mid, pre),
        pre.has_win(o, w, k),
        sel == (WindowManager {
            overview_state: Some(
                OverviewState {
                    highlighted: slot_of(pre.outputs@, o, w, k) as usize,
                    ..mid.overview_state.unwrap()
                },
            ),
            ..mid
        }),
        spec_select(post, sel),
    ensures
        post.overview_state is None,
        post.focused_output_idx == Some(o as usize),
        post.outputs@[o].focused_workspace_idx == w,
        post.ws(o, w).focused_window_idx == Some(k as usize),
        forall|o2: int, w2: int, k2: int|
            #![trigger post.win(o2, w2, k2)]
            pre.has_win(o2, w2, k2) ==> post.has_win(o2, w2, k2) && post.win(o2, w2, k2) == headed_for(
                pre.win(o2, w2, k2),
                enter_cell(pre, slot_of(pre.outputs@, o2, w2, k2)),
            ),
{
    let outs = pre.outputs@;
    let ov = sel.overview_state.unwrap();
    let entries = ov.entries@;
    let n = entries.len() as int;
    let i = slot_of(outs, o, w, k);
    lemma_entries_of(outs);
    lemma_slot_bound(outs, o, w, k);
    assert(entries == entries_of(outs));
    assert(0 <= i < n);
    assert(i < mid.overview_state.unwrap().entries.len());
    assert(ov.highlighted == i);
    assert(entries[i] == entry_of(pre.win(o, w, k)));
    assert(closed(sel) == closed(mid));
    let m2 = choose|m2: WindowManager|
        #[trigger] restored_ok(m2, closed(sel), ov.entries@, ov.entries@.len() as int) && match sel.spec_locate(
            ov.entries@[ov.highlighted as int].window,
        ) {
            Some((a, b, c)) => post.is_focused_at(&m2, a, b, c),
            None => post == m2,
        };
    lemma_enter_same_ids(sel, mid, pre);
    pre.lemma_unique_locate(o, w, k);
    sel.lemma_same_ids_locate(&pre, pre.win(o, w, k).id);
    assert(sel.spec_locate(entries[i].window) == Some((o, w, k)));
    assert(post.is_focused_at(&m2, o, w, k));
    lemma_left_windows(pre, mid, m2, o, w, k);
    assert forall|o2: int, w2: int, k2: int|
        #![trigger post.win(o2, w2, k2)]
        pre.has_win(o2, w2, k2) implies post.has_win(o2, w2, k2) && post.win(o2, w2, k2) == headed_for(
            pre.win(o2, w2, k2),
            enter_cell(pre, slot_of(pre.outputs@, o2, w2, k2)),
        ) by {
        lemma_left_windows(pre, mid, m2, o2, w2, k2);
        assert(output_same_but_focus(post.outputs@[o], m2.outputs@[o]));
        if o2 != o {
            assert(post.outputs@[o2] == m2.outputs@[o2]);
        } else if w2 != w {
            assert(post.ws(o2, w2) == m2.ws(o2, w2));
        }
    }
}

} // verus!
