use rwm::actions::{Fraction, KeybindingAction, HALF_BITS};
use rwm::config::{default_config, load, reload, with_default_bindings, ReadOutcome};
use rwm::keybinding::{
    binding_pressed, press_is_defined, reload_config, set_overview_keybinds, Effect, GeometryRequest, XkbBinding,
};
use rwm::layout::{apply_focus_and_borders, snap_to_finish};
use rwm::manage::{window_manager_event, WmEvent};
use rwm::output::{add, output_event, wl_output_event, OutputEvent};
use rwm::overview::{cancel, compute_grid, div_i32, enter, grid_columns, ov_home_is_valid, enter_is_defined, prune};
use rwm::types::{Config, OverviewEntry, OverviewHome, OverviewState, Rectangle, Request, Status, Window, WindowGeom};
use rwm::wm::{move_window, WindowManager};

const SCREEN: Rectangle = Rectangle {
    x: 0,
    y: 0,
    width: 1920,
    height: 1080,
};

fn scroller(
    v: Vec<WindowGeom>,
    _focus: Option<usize>,
    _rect: Rectangle,
    _area: Rectangle,
    _config: &Config,
    _y: i32,
) -> Vec<WindowGeom> {
    v
}

fn geometry(
    _req: GeometryRequest,
    g: WindowGeom,
    _rect: Rectangle,
    _area: Rectangle,
    _config: &Config,
) -> Option<WindowGeom> {
    Some(g)
}

fn window(id: u64) -> Window {
    Window {
        id,
        geom: WindowGeom::new(
            Fraction { bits: HALF_BITS },
            Rectangle {
                x: 10,
                y: 10,
                width: 500,
                height: 400,
            },
        ),
    }
}

/// One output called DP-1 with windows `ids` on its first workspace, the
/// first of them focused.
fn manager(ids: &[u64]) -> WindowManager {
    let mut wm = WindowManager::new(default_config());
    add(&mut wm, 1, true);
    wm.outputs[0].name = Some("DP-1".to_string());
    wm.outputs[0].rectangle = SCREEN;
    wm.outputs[0].non_exclusive = SCREEN;
    for id in ids {
        wm.outputs[0].workspace_list[0].window_list.push(window(*id));
    }
    if !ids.is_empty() {
        wm.outputs[0].workspace_list[0].focused_window_idx = Some(0);
    }
    wm
}

fn has_focus_or_border_request(reqs: &[Request]) -> bool {
    reqs.iter().any(|r| {
        matches!(
            r,
            Request::FocusWindow(_) | Request::ClearFocus | Request::SetBorders { .. }
        )
    })
}

#[test]
fn enter_then_cancel_gives_fullscreen_and_focus_back() {
    let mut wm = manager(&[10, 11]);
    wm.outputs[0].workspace_list[0].window_list[1].geom.is_fullscreen = true;
    wm.outputs[0].workspace_list[3].window_list.push(window(12));
    wm.outputs[0].workspace_list[3].focused_window_idx = Some(0);
    let bindings: Vec<XkbBinding> = vec![];
    let mut reqs = vec![];
    assert!(enter_is_defined(&wm));
    enter(&mut wm, &bindings, &mut reqs);

    let ov = wm.overview_state.clone().unwrap();
    assert_eq!(
        ov.entries,
        vec![
            OverviewEntry { window: 10, was_fullscreen: false },
            OverviewEntry { window: 11, was_fullscreen: true },
            OverviewEntry { window: 12, was_fullscreen: false },
        ]
    );
    assert_eq!(ov.highlighted, 0);
    assert_eq!(wm.status, Status::Overview);
    let (cols, cells) = compute_grid(SCREEN, 3, 9, 9);
    assert_eq!(ov.columns, cols);
    let ws0 = &wm.outputs[0].workspace_list[0].window_list;
    let ws3 = &wm.outputs[0].workspace_list[3].window_list;
    assert_eq!(ws0[0].geom.finish, Some(cells[0]));
    assert_eq!(ws0[1].geom.finish, Some(cells[1]));
    assert_eq!(ws3[0].geom.finish, Some(cells[2]));
    assert!(!ws0[1].geom.is_fullscreen);

    assert!(ov_home_is_valid(&wm));
    cancel(&mut wm, &bindings, &mut reqs);
    assert!(wm.overview_state.is_none());
    assert_eq!(wm.focused_output_idx, Some(0));
    assert_eq!(wm.outputs[0].focused_workspace_idx, 0);
    let ws0 = &wm.outputs[0].workspace_list[0].window_list;
    assert!(!ws0[0].geom.is_fullscreen);
    assert!(ws0[1].geom.is_fullscreen);
    assert_eq!(ws0[1].geom.finish, Some(cells[1]));
    assert!(!wm.outputs[0].workspace_list[3].window_list[0].geom.is_fullscreen);
}

#[test]
fn overview_keybinds_are_enabled_then_disabled() {
    let bindings = vec![
        XkbBinding { proxy: 1, action: KeybindingAction::CloseWindow },
        XkbBinding { proxy: 2, action: KeybindingAction::OverviewCancel },
        XkbBinding { proxy: 3, action: KeybindingAction::OverviewNavLeft },
    ];
    let mut reqs = vec![];
    set_overview_keybinds(&bindings, true, &mut reqs);
    assert_eq!(reqs, vec![Request::EnableBinding(2), Request::EnableBinding(3)]);
    reqs.clear();
    set_overview_keybinds(&bindings, false, &mut reqs);
    assert_eq!(reqs, vec![Request::DisableBinding(2), Request::DisableBinding(3)]);
}

#[test]
fn second_focus_pass_sends_no_focus_or_border_request() {
    let mut wm = manager(&[10, 11]);
    let mut first = vec![];
    apply_focus_and_borders(&mut wm, &mut first);
    assert!(first.contains(&Request::FocusWindow(10)));
    assert!(first.contains(&Request::SetBorders { window: 10, width: 3, focused: true }));
    assert!(first.contains(&Request::SetBorders { window: 11, width: 3, focused: false }));
    assert!(first.contains(&Request::PlaceTop(10)));
    assert_eq!(wm.last_focused_window, Some(10));
    let mut second = vec![];
    apply_focus_and_borders(&mut wm, &mut second);
    assert!(!has_focus_or_border_request(&second));
}

#[test]
fn focus_moves_border_to_new_window_only() {
    let mut wm = manager(&[10, 11]);
    let mut reqs = vec![];
    apply_focus_and_borders(&mut wm, &mut reqs);
    wm.outputs[0].workspace_list[0].focused_window_idx = Some(1);
    reqs.clear();
    apply_focus_and_borders(&mut wm, &mut reqs);
    assert!(reqs.contains(&Request::FocusWindow(11)));
    assert!(reqs.contains(&Request::SetBorders { window: 10, width: 3, focused: false }));
    assert!(reqs.contains(&Request::SetBorders { window: 11, width: 3, focused: true }));
}

#[test]
fn workspaces_come_back_with_their_output() {
    let mut wm = manager(&[10]);
    wm.outputs[0].wl_output_version = Some(4);
    wm.outputs[0].workspace_list[3].window_list.push(window(12));
    wm.outputs[0].workspace_list[3].focused_window_idx = Some(0);
    wm.outputs[0].focused_workspace_idx = 3;
    let mut reqs = vec![];

    assert!(output_event(&mut wm, 1, OutputEvent::Removed, &scroller));
    rwm::layout::apply(&mut wm, &scroller, &mut reqs);
    assert!(wm.outputs.is_empty());
    assert_eq!(wm.detached_outputs.len(), 1);
    assert_eq!(wm.detached_outputs[0].name, "DP-1");

    add(&mut wm, 2, true);
    output_event(&mut wm, 2, OutputEvent::WlOutput(4), &scroller);
    assert!(wl_output_event(&mut wm, 2, "DP-1".to_string()));
    output_event(&mut wm, 2, OutputEvent::Dimensions(1920, 1080), &scroller);
    rwm::layout::apply(&mut wm, &scroller, &mut reqs);

    assert!(wm.detached_outputs.is_empty());
    assert_eq!(wm.outputs.len(), 1);
    assert_eq!(wm.outputs[0].id, 2);
    assert_eq!(wm.outputs[0].focused_workspace_idx, 3);
    assert_eq!(wm.outputs[0].workspace_list[0].window_list[0].id, 10);
    assert_eq!(wm.outputs[0].workspace_list[3].window_list[0].id, 12);
}

#[test]
fn unlock_focuses_the_window_focused_at_lock() {
    let mut wm = manager(&[10, 11]);
    let mut reqs = vec![];
    window_manager_event(&mut wm, WmEvent::SessionLocked, &mut reqs);
    assert!(wm.session_locked);
    assert_eq!(wm.lock_focus, Some(10));
    assert!(reqs.is_empty());
    wm.outputs[0].workspace_list[0].focused_window_idx = Some(1);
    window_manager_event(&mut wm, WmEvent::SessionUnlocked, &mut reqs);
    assert!(!wm.session_locked);
    assert_eq!(wm.lock_focus, None);
    assert_eq!(wm.outputs[0].workspace_list[0].focused_window_idx, Some(0));
    assert!(wm.needs_refocus);
    assert_eq!(reqs, vec![Request::ManageDirty]);
}

#[test]
fn locked_session_ignores_key_presses() {
    let mut wm = manager(&[10]);
    let bindings = vec![XkbBinding { proxy: 7, action: KeybindingAction::CloseWindow }];
    let mut reqs = vec![];
    window_manager_event(&mut wm, WmEvent::SessionLocked, &mut reqs);
    assert!(press_is_defined(&wm, &bindings, 7));
    let effect = binding_pressed(&mut wm, &bindings, 7, &scroller, &geometry, &mut reqs);
    assert!(matches!(effect, Effect::Nothing));
    assert!(reqs.is_empty());
}

#[test]
fn spawn_and_reload_are_left_to_the_caller() {
    let mut wm = manager(&[10]);
    let bindings = vec![
        XkbBinding { proxy: 1, action: KeybindingAction::Spawn(vec!["alacritty".to_string()]) },
        XkbBinding { proxy: 2, action: KeybindingAction::ReloadConfig },
    ];
    let mut reqs = vec![];
    assert!(press_is_defined(&wm, &bindings, 1));
    match binding_pressed(&mut wm, &bindings, 1, &scroller, &geometry, &mut reqs) {
        Effect::Spawn(args) => assert_eq!(args, vec!["alacritty".to_string()]),
        _ => panic!("spawn expected"),
    }
    assert_eq!(reqs, vec![Request::ManageDirty]);
    reqs.clear();
    let effect = binding_pressed(&mut wm, &bindings, 2, &scroller, &geometry, &mut reqs);
    assert!(matches!(effect, Effect::ReloadConfig));
    let unbound = binding_pressed(&mut wm, &bindings, 99, &scroller, &geometry, &mut reqs);
    assert!(matches!(unbound, Effect::Nothing));
}

#[test]
fn number_keys_focus_and_move_to_workspaces() {
    let mut wm = manager(&[10, 11]);
    let bindings = vec![
        XkbBinding { proxy: 1, action: KeybindingAction::FocusWorkspaceNumber(4) },
        XkbBinding { proxy: 2, action: KeybindingAction::MoveWindowToWorkspaceNumber(6) },
        XkbBinding { proxy: 3, action: KeybindingAction::FocusWorkspacePrevious },
    ];
    let mut reqs = vec![];
    assert!(press_is_defined(&wm, &bindings, 2));
    binding_pressed(&mut wm, &bindings, 2, &scroller, &geometry, &mut reqs);
    assert_eq!(wm.outputs[0].workspace_list[0].window_list.len(), 1);
    assert_eq!(wm.outputs[0].workspace_list[0].window_list[0].id, 11);
    assert_eq!(wm.outputs[0].workspace_list[5].window_list[0].id, 10);
    assert_eq!(wm.outputs[0].focused_workspace_idx, 5);
    assert_eq!(wm.previous_workspace, Some(OverviewHome { output_idx: 0, workspace_idx: 0 }));
    assert_eq!(wm.status, Status::Layout);

    binding_pressed(&mut wm, &bindings, 1, &scroller, &geometry, &mut reqs);
    assert_eq!(wm.outputs[0].focused_workspace_idx, 3);
    binding_pressed(&mut wm, &bindings, 3, &scroller, &geometry, &mut reqs);
    assert_eq!(wm.outputs[0].focused_workspace_idx, 5);
}

#[test]
fn exit_key_ends_the_session() {
    let mut wm = manager(&[]);
    let bindings = vec![XkbBinding { proxy: 1, action: KeybindingAction::Exit }];
    let mut reqs = vec![];
    binding_pressed(&mut wm, &bindings, 1, &scroller, &geometry, &mut reqs);
    assert_eq!(wm.status, Status::Exit);
}

#[test]
fn overview_navigation_stays_on_the_grid() {
    let mut wm = manager(&[10, 11, 12, 13]);
    let bindings = vec![
        XkbBinding { proxy: 1, action: KeybindingAction::EnterOverview },
        XkbBinding { proxy: 2, action: KeybindingAction::OverviewNavRight },
        XkbBinding { proxy: 3, action: KeybindingAction::OverviewNavDown },
        XkbBinding { proxy: 4, action: KeybindingAction::OverviewNavLeft },
        XkbBinding { proxy: 5, action: KeybindingAction::OverviewConfirm },
    ];
    let mut reqs = vec![];
    assert!(press_is_defined(&wm, &bindings, 1));
    binding_pressed(&mut wm, &bindings, 1, &scroller, &geometry, &mut reqs);
    assert!(reqs.contains(&Request::EnableBinding(2)));
    let cols = wm.overview_state.as_ref().unwrap().columns;
    assert_eq!(cols, grid_columns(4, &SCREEN));
    for proxy in [4, 4, 2, 2, 2, 2, 3, 3, 3] {
        assert!(press_is_defined(&wm, &bindings, proxy));
        binding_pressed(&mut wm, &bindings, proxy, &scroller, &geometry, &mut reqs);
        let ov = wm.overview_state.as_ref().unwrap();
        assert!(ov.highlighted < ov.entries.len());
    }
    let highlighted = wm.overview_state.as_ref().unwrap().highlighted;
    assert!(press_is_defined(&wm, &bindings, 5));
    binding_pressed(&mut wm, &bindings, 5, &scroller, &geometry, &mut reqs);
    assert!(wm.overview_state.is_none());
    assert!(reqs.contains(&Request::DisableBinding(2)));
    assert_eq!(wm.outputs[0].workspace_list[0].focused_window_idx, Some(highlighted));
}

#[test]
fn prune_drops_entries_of_closed_windows() {
    let mut wm = manager(&[10, 12]);
    wm.overview_state = Some(OverviewState {
        entries: vec![
            OverviewEntry { window: 10, was_fullscreen: false },
            OverviewEntry { window: 11, was_fullscreen: false },
            OverviewEntry { window: 12, was_fullscreen: true },
        ],
        highlighted: 2,
        columns: 2,
        previous_workspace: None,
    });
    let bindings = vec![XkbBinding { proxy: 4, action: KeybindingAction::OverviewConfirm }];
    let mut reqs = vec![];
    prune(&mut wm, &bindings, &mut reqs);
    assert!(reqs.is_empty());
    let ov = wm.overview_state.as_ref().unwrap();
    assert_eq!(
        ov.entries,
        vec![
            OverviewEntry { window: 10, was_fullscreen: false },
            OverviewEntry { window: 12, was_fullscreen: true },
        ]
    );
    assert!(ov.highlighted < ov.entries.len());
}

#[test]
fn snap_commits_every_target() {
    let mut wm = manager(&[10, 11]);
    let target = Rectangle {
        x: 9,
        y: 9,
        width: 951,
        height: 1062,
    };
    wm.outputs[0].workspace_list[0].window_list[0].geom.finish = Some(target);
    let mut reqs = vec![];
    snap_to_finish(&mut wm, &mut reqs);
    let w0 = &wm.outputs[0].workspace_list[0].window_list[0];
    assert_eq!(w0.geom.current, target);
    assert_eq!(w0.geom.finish, None);
    assert!(wm.outputs[0].workspace_list[0].window_list[1].geom.finish.is_none());
}

#[test]
fn moving_windows_keeps_every_item() {
    let mut src = vec![1, 2, 3, 4];
    let mut src_focus = Some(3);
    let mut dst = vec![5, 6];
    let mut dst_focus = Some(0);
    move_window(&mut src, &mut src_focus, &mut dst, &mut dst_focus, 1);
    let mut all: Vec<i32> = src.iter().chain(dst.iter()).cloned().collect();
    all.sort();
    assert_eq!(all, vec![1, 2, 3, 4, 5, 6]);
    assert_eq!(src, vec![1, 3, 4]);
    assert_eq!(src_focus, Some(0));
    assert_eq!(dst, vec![5, 2, 6]);
    assert_eq!(dst_focus, Some(1));
}

#[test]
fn grid_columns_exact_values() {
    assert_eq!(grid_columns(4, &SCREEN), 3);
    assert_eq!(grid_columns(2, &SCREEN), 2);
    let narrow = Rectangle {
        x: 0,
        y: 0,
        width: 0,
        height: 500,
    };
    assert_eq!(grid_columns(9, &narrow), 1);
    let tall = Rectangle {
        x: 0,
        y: 0,
        width: 1000,
        height: 4000,
    };
    assert!(grid_columns(16, &SCREEN) >= grid_columns(16, &tall));
}

#[test]
fn grid_cells_have_exact_geometry() {
    let (cols, cells) = compute_grid(SCREEN, 4, 9, 9);
    assert_eq!(cols, 3);
    assert_eq!(cells.len(), 4);
    assert_eq!(cells[0], Rectangle { x: 9, y: 9, width: 628, height: 526 });
    assert_eq!(cells[1], Rectangle { x: 646, y: 9, width: 628, height: 526 });
    assert_eq!(cells[3], Rectangle { x: 9, y: 544, width: 628, height: 526 });
}

#[test]
fn division_truncates_toward_zero() {
    assert_eq!(div_i32(7, 2), 3);
    assert_eq!(div_i32(-7, 2), -3);
    assert_eq!(div_i32(7, -2), -3);
    assert_eq!(div_i32(-7, -2), 3);
}

#[test]
fn unknown_modifier_is_named_in_the_error() {
    let r = rwm::keybinding::parse_modifiers(&vec!["ctrl".to_string(), "hyper".to_string(), "x".to_string()]);
    assert_eq!(r, Err("hyper".to_string()));
    let ok = rwm::keybinding::parse_modifiers(&vec!["ctrl".to_string(), "mod1".to_string(), "mod5".to_string()]);
    assert_eq!(ok.unwrap().bits, 4 | 8 | 128);
}

#[test]
fn first_existing_config_file_decides() {
    let mut custom = Config::empty();
    custom.vertical_gap = 3;
    let r = load(vec![ReadOutcome::NotFound, ReadOutcome::Parsed(custom.clone()), ReadOutcome::Failed("later".to_string())]);
    assert_eq!(r.unwrap().vertical_gap, 3);
    let e = load(vec![ReadOutcome::Failed("bad toml".to_string()), ReadOutcome::Parsed(custom.clone())]);
    assert_eq!(e.err(), Some("bad toml".to_string()));
    let d = load(vec![ReadOutcome::NotFound, ReadOutcome::NotFound]).unwrap();
    assert_eq!(d.vertical_gap, 9);
    assert!(d.keybindings.len() > 50);
}

#[test]
fn failed_reload_keeps_current_config() {
    let mut custom = Config::empty();
    custom.horizontal_gap = 20;
    assert!(reload(vec![ReadOutcome::Failed("oops".to_string())]).is_none());
    assert!(reload(vec![ReadOutcome::NotFound]).is_none());
    assert_eq!(reload(vec![ReadOutcome::NotFound, ReadOutcome::Parsed(custom)]).unwrap().horizontal_gap, 20);

    let mut wm = manager(&[10]);
    let mut reqs = vec![];
    reload_config(&mut wm, None, true, &scroller, &mut reqs);
    assert!(reqs.is_empty());
    assert_eq!(wm.config.horizontal_gap, 9);
    let mut next = default_config();
    next.horizontal_gap = 20;
    reload_config(&mut wm, Some(next), true, &scroller, &mut reqs);
    assert_eq!(wm.config.horizontal_gap, 20);
    assert_eq!(wm.status, Status::SetupBindings);
    assert!(wm.needs_setup_bindings);
    assert_eq!(reqs, vec![Request::ManageDirty]);
}

#[test]
fn empty_binding_tables_fall_back_to_defaults() {
    let c = with_default_bindings(Config::empty());
    assert!(c.keybindings.len() > 50);
    assert_eq!(c.pointer_bindings.len(), 2);
    let mut own = Config::empty();
    own.keybindings.push(rwm::types::Keybinding {
        key: "x".to_string(),
        modifiers: vec![],
        action: KeybindingAction::Exit,
    });
    let c = with_default_bindings(own);
    assert_eq!(c.keybindings.len(), 1);
    assert_eq!(c.pointer_bindings.len(), 2);
}

#[test]
fn clicking_a_window_focuses_it() {
    let mut wm = manager(&[10, 11]);
    let bindings: Vec<XkbBinding> = vec![];
    let mut reqs = vec![];
    let event = rwm::seat::SeatEvent::WindowInteraction(11);
    assert!(rwm::seat::seat_event_is_defined(&wm, event));
    let dirty = rwm::seat::seat_event(&mut wm, &bindings, event, &scroller, &mut reqs);
    assert!(!dirty);
    assert_eq!(wm.outputs[0].workspace_list[0].focused_window_idx, Some(1));
    assert_eq!(wm.status, Status::Layout);
}

#[test]
fn exclusive_layer_focus_holds_back_window_focus() {
    let mut wm = manager(&[10]);
    rwm::seat::layer_shell_seat_event(&mut wm, rwm::seat::LayerShellSeatEvent::FocusExclusive);
    let mut reqs = vec![];
    apply_focus_and_borders(&mut wm, &mut reqs);
    assert!(!reqs.contains(&Request::FocusWindow(10)));
    assert!(reqs.contains(&Request::SetBorders { window: 10, width: 3, focused: true }));
    assert_eq!(wm.last_focused_window, None);
}

#[test]
fn output_dimensions_and_position_are_recorded() {
    let mut wm = manager(&[]);
    output_event(&mut wm, 1, OutputEvent::Dimensions(1280, 720), &scroller);
    output_event(&mut wm, 1, OutputEvent::Position(1920, 0), &scroller);
    assert_eq!(wm.outputs[0].rectangle, Rectangle { x: 1920, y: 0, width: 1280, height: 720 });
    assert!(!output_event(&mut wm, 99, OutputEvent::Dimensions(1, 1), &scroller));
}

#[test]
fn second_output_takes_focus_and_warps_pointer() {
    let mut wm = manager(&[10]);
    let mut reqs = vec![];
    window_manager_event(&mut wm, WmEvent::Output(2, false), &mut reqs);
    assert_eq!(wm.outputs.len(), 2);
    assert_eq!(wm.focused_output_idx, Some(1));
    assert!(wm.needs_pointer_warp);
    assert!(reqs.is_empty());
}

#[test]
fn windows_return_to_their_output_when_it_reappears() {
    let mut wm = manager(&[10, 11]);
    wm.outputs[0].wl_output_version = Some(4);
    let mut reqs = vec![];
    window_manager_event(&mut wm, WmEvent::Output(2, false), &mut reqs);
    output_event(&mut wm, 2, OutputEvent::WlOutput(4), &scroller);
    wl_output_event(&mut wm, 2, "DP-2".to_string());
    output_event(&mut wm, 2, OutputEvent::Dimensions(1280, 720), &scroller);
    wm.outputs[1].workspace_list[0].window_list.push(window(20));
    wm.outputs[1].workspace_list[0].focused_window_idx = Some(0);

    output_event(&mut wm, 1, OutputEvent::Removed, &scroller);
    rwm::layout::apply(&mut wm, &scroller, &mut reqs);
    assert_eq!(wm.outputs.len(), 1);
    let ids: Vec<u64> = wm.outputs[0].workspace_list[0].window_list.iter().map(|w| w.id).collect();
    assert_eq!(ids, vec![20, 10, 11]);
    assert_eq!(
        wm.outputs[0].workspace_list[0].window_list[1].geom.former_output_name,
        Some("DP-1".to_string())
    );

    window_manager_event(&mut wm, WmEvent::Output(3, false), &mut reqs);
    output_event(&mut wm, 3, OutputEvent::WlOutput(4), &scroller);
    wl_output_event(&mut wm, 3, "DP-1".to_string());
    output_event(&mut wm, 3, OutputEvent::Dimensions(1920, 1080), &scroller);
    rwm::layout::apply(&mut wm, &scroller, &mut reqs);
    let back: Vec<u64> = wm.outputs[1].workspace_list[0].window_list.iter().map(|w| w.id).collect();
    assert_eq!(back, vec![10, 11]);
    assert!(wm.outputs[1].workspace_list[0].window_list[0].geom.former_output_name.is_none());
    let stayed: Vec<u64> = wm.outputs[0].workspace_list[0].window_list.iter().map(|w| w.id).collect();
    assert_eq!(stayed, vec![20]);
}

#[test]
fn selecting_an_overview_cell_focuses_its_window() {
    let mut wm = manager(&[10, 11]);
    wm.outputs[0].workspace_list[0].window_list[0].geom.is_fullscreen = true;
    wm.outputs[0].workspace_list[3].window_list.push(window(12));
    wm.outputs[0].workspace_list[3].window_list.push(window(13));
    let bindings: Vec<XkbBinding> = vec![];
    let mut reqs = vec![];
    enter(&mut wm, &bindings, &mut reqs);
    rwm::overview::select_index(&mut wm, &bindings, 3, &mut reqs);
    assert!(wm.overview_state.is_none());
    assert_eq!(wm.focused_output_idx, Some(0));
    assert_eq!(wm.outputs[0].focused_workspace_idx, 3);
    assert_eq!(wm.outputs[0].workspace_list[3].focused_window_idx, Some(1));
    assert!(wm.outputs[0].workspace_list[0].window_list[0].geom.is_fullscreen);
    let (_, cells) = compute_grid(SCREEN, 4, 9, 9);
    assert_eq!(wm.outputs[0].workspace_list[3].window_list[1].geom.finish, Some(cells[3]));
}

#[test]
fn pruning_the_last_entry_cancels_the_overview() {
    let mut wm = manager(&[10]);
    wm.outputs[0].focused_workspace_idx = 4;
    wm.overview_state = Some(OverviewState {
        entries: vec![OverviewEntry { window: 11, was_fullscreen: false }],
        highlighted: 0,
        columns: 1,
        previous_workspace: Some(OverviewHome { output_idx: 0, workspace_idx: 0 }),
    });
    let bindings = vec![
        XkbBinding { proxy: 4, action: KeybindingAction::OverviewConfirm },
        XkbBinding { proxy: 5, action: KeybindingAction::CloseWindow },
    ];
    let mut reqs = vec![];
    prune(&mut wm, &bindings, &mut reqs);
    assert!(wm.overview_state.is_none());
    assert_eq!(reqs, vec![Request::DisableBinding(4)]);
    assert_eq!(wm.focused_output_idx, Some(0));
    assert_eq!(wm.outputs[0].focused_workspace_idx, 0);
}

#[test]
fn super_left_and_right_fall_through_to_outputs() {
    let c = default_config();
    let left = c.keybindings.iter().find(|k| k.key == "Left" && k.modifiers == vec!["mod4".to_string()]).unwrap();
    let right = c.keybindings.iter().find(|k| k.key == "Right" && k.modifiers == vec!["mod4".to_string()]).unwrap();
    assert_eq!(left.action, KeybindingAction::FocusWindowOrOutputLeft);
    assert_eq!(right.action, KeybindingAction::FocusWindowOrOutputRight);
}

#[test]
fn moving_the_first_window_left_does_nothing() {
    let mut wm = manager(&[10, 11]);
    let bindings = vec![XkbBinding { proxy: 1, action: KeybindingAction::MoveWindowLeft }];
    let mut reqs = vec![];
    assert!(press_is_defined(&wm, &bindings, 1));
    binding_pressed(&mut wm, &bindings, 1, &scroller, &geometry, &mut reqs);
    let ids: Vec<u64> = wm.outputs[0].workspace_list[0].window_list.iter().map(|w| w.id).collect();
    assert_eq!(ids, vec![10, 11]);
    assert_eq!(wm.outputs[0].workspace_list[0].focused_window_idx, Some(0));
}

#[test]
fn binding_plans_skip_unknown_keys_and_modifiers() {
    let kbs = vec![
        rwm::types::Keybinding { key: "q".to_string(), modifiers: vec!["mod4".to_string()], action: KeybindingAction::CloseWindow },
        rwm::types::Keybinding { key: "nokey".to_string(), modifiers: vec![], action: KeybindingAction::Exit },
        rwm::types::Keybinding { key: "r".to_string(), modifiers: vec!["hyper".to_string()], action: KeybindingAction::ReloadConfig },
        rwm::types::Keybinding { key: "t".to_string(), modifiers: vec!["mod4".to_string(), "shift".to_string()], action: KeybindingAction::EnterOverview },
    ];
    let keysym_of = |key: &String| match key.as_str() {
        "q" => 0x71,
        "r" => 0x72,
        "t" => 0x74,
        _ => 0,
    };
    assert_eq!(rwm::keybinding::binding_plan(&kbs, &keysym_of), vec![(0, 0x71, 64), (3, 0x74, 65)]);
    let mut pbs = rwm::keybinding::default_pointer_bindings();
    pbs[1].modifiers.push("bogus".to_string());
    assert_eq!(
        rwm::keybinding::pointer_binding_plan(&pbs),
        vec![(0x110, 64, rwm::actions::PointerAction::MoveWindow)]
    );
}

#[test]
fn unlock_follows_the_window_to_where_it_lives_now() {
    let mut wm = manager(&[10, 11]);
    let mut reqs = vec![];
    window_manager_event(&mut wm, WmEvent::SessionLocked, &mut reqs);
    let moved = wm.outputs[0].workspace_list[0].window_list.remove(0);
    wm.outputs[0].workspace_list[0].focused_window_idx = Some(0);
    wm.outputs[0].workspace_list[3].window_list.push(window(12));
    wm.outputs[0].workspace_list[3].window_list.push(moved);
    window_manager_event(&mut wm, WmEvent::SessionUnlocked, &mut reqs);
    assert_eq!(wm.focused_output_idx, Some(0));
    assert_eq!(wm.outputs[0].focused_workspace_idx, 3);
    assert_eq!(wm.outputs[0].workspace_list[3].focused_window_idx, Some(1));
    assert_eq!(wm.last_focused_window, None);
    assert_eq!(wm.status, Status::Layout);
}

#[test]
fn previous_workspace_twice_returns_home() {
    let mut wm = manager(&[10]);
    let bindings = vec![
        XkbBinding { proxy: 1, action: KeybindingAction::FocusWorkspaceNumber(7) },
        XkbBinding { proxy: 2, action: KeybindingAction::FocusWorkspacePrevious },
    ];
    let mut reqs = vec![];
    binding_pressed(&mut wm, &bindings, 1, &scroller, &geometry, &mut reqs);
    assert_eq!(wm.outputs[0].focused_workspace_idx, 6);
    let home = wm.previous_workspace;
    binding_pressed(&mut wm, &bindings, 2, &scroller, &geometry, &mut reqs);
    assert_eq!(wm.outputs[0].focused_workspace_idx, 0);
    binding_pressed(&mut wm, &bindings, 2, &scroller, &geometry, &mut reqs);
    assert_eq!(wm.outputs[0].focused_workspace_idx, 6);
    assert_eq!(wm.previous_workspace, home);
    assert_eq!(wm.outputs[0].workspace_list[0].window_list[0].id, 10);
}

#[test]
fn manage_pass_leaves_no_removed_output() {
    let mut wm = manager(&[10]);
    let mut reqs = vec![];
    window_manager_event(&mut wm, WmEvent::Output(2, false), &mut reqs);
    output_event(&mut wm, 2, OutputEvent::Dimensions(1280, 720), &scroller);
    wm.previous_workspace = Some(OverviewHome { output_idx: 1, workspace_idx: 2 });
    output_event(&mut wm, 2, OutputEvent::Removed, &scroller);
    rwm::layout::apply(&mut wm, &scroller, &mut reqs);
    assert_eq!(wm.outputs.len(), 1);
    assert!(!wm.outputs[0].is_removed);
    assert_eq!(wm.focused_output_idx, Some(0));
    assert!(wm.previous_workspace.map_or(true, |p| p.output_idx < 1));
    assert!(!wm.needs_pointer_warp);
}

#[test]
fn moving_a_window_to_its_own_workspace_changes_nothing() {
    let mut wm = manager(&[10, 11]);
    wm.move_window_to_workspace((0, 0), (0, 0), 1);
    let ids: Vec<u64> = wm.outputs[0].workspace_list[0].window_list.iter().map(|w| w.id).collect();
    assert_eq!(ids, vec![10, 11]);
    assert_eq!(wm.outputs[0].workspace_list[0].focused_window_idx, Some(0));
    wm.move_window_to_workspace((0, 0), (0, 2), 1);
    assert_eq!(wm.outputs[0].workspace_list[2].window_list[0].id, 11);
    assert_eq!(wm.outputs[0].workspace_list[0].window_list.len(), 1);
}
