use rwm::actions::{Fraction, KeybindingAction, HALF_BITS};
use rwm::config::default_config;
use rwm::keybinding::{parse_modifiers, Modifiers};
use rwm::layout::fixup_indices_after_output_removal;
use rwm::layout::floating::apply;
use rwm::overview::{compute_grid, grid_columns};
use rwm::types::{Rectangle, WindowGeom};
use rwm::wm::move_window;

const OUTPUT: Rectangle = Rectangle {
    x: 0,
    y: 0,
    width: 1920,
    height: 1080,
};

fn floating_geom(floating: Rectangle, current: Rectangle) -> WindowGeom {
    let mut g = WindowGeom::new(Fraction { bits: HALF_BITS }, current);
    g.is_floating = true;
    g.floating = floating;
    g
}

fn move_in_list(
    source: &mut Vec<i32>,
    source_focus: &mut Option<usize>,
    target: &mut Vec<i32>,
    target_focus: &mut Option<usize>,
    window_idx: usize,
) {
    move_window(source, source_focus, target, target_focus, window_idx);
}

#[test]
fn default_config_has_bindings() {
    let config = default_config();
    assert!(config.keybindings.len() > 50);
    assert!(config
        .keybindings
        .iter()
        .any(|kb| kb.action == KeybindingAction::CloseWindow));
    assert_eq!(config.pointer_bindings.len(), 2);
}

#[test]
fn modifiers_parse() {
    let m = parse_modifiers(&vec!["mod4".to_string(), "shift".to_string()]).unwrap();
    assert_eq!(m, Modifiers::mod4().union(Modifiers::shift()));
    assert!(parse_modifiers(&vec!["bogus".to_string()]).is_err());
    assert_eq!(parse_modifiers(&vec![]).unwrap(), Modifiers::none());
}

#[test]
fn new_floating_window_snaps_to_centered_rect() {
    let mut windows = vec![floating_geom(
        Rectangle {
            x: 460,
            y: 90,
            width: 1000,
            height: 900,
        },
        Rectangle {
            x: 920,
            y: 90,
            width: 1000,
            height: 900,
        },
    )];

    apply(&mut windows, OUTPUT, 0);

    let finish = windows[0].finish.expect("finish computed");
    assert!(finish.eql(windows[0].floating));
}

#[test]
fn fullscreen_floating_window_fills_output() {
    let mut windows = vec![floating_geom(
        Rectangle {
            x: 460,
            y: 90,
            width: 1000,
            height: 900,
        },
        Rectangle {
            x: 460,
            y: 90,
            width: 1000,
            height: 900,
        },
    )];
    windows[0].is_fullscreen = true;

    apply(&mut windows, OUTPUT, 0);
    assert!(windows[0].finish.unwrap().eql(OUTPUT));
}

#[test]
fn focused_output_idx_stays_valid_after_swap_remove() {
    let mut focused: Option<usize> = Some(0);

    fixup_indices_after_output_removal(&mut focused, 0, 2);
    assert_eq!(focused, Some(0));

    focused = Some(0);
    fixup_indices_after_output_removal(&mut focused, 1, 2);
    assert_eq!(focused, Some(0));

    focused = Some(0);
    fixup_indices_after_output_removal(&mut focused, 0, 1);
    assert_eq!(focused, None);

    focused = Some(0);
    fixup_indices_after_output_removal(&mut focused, 0, 3);
    assert_eq!(focused, Some(0));

    focused = Some(2);
    fixup_indices_after_output_removal(&mut focused, 0, 3);
    assert_eq!(focused, Some(1));
}

#[test]
fn compute_grid_fills_area_with_even_cells() {
    let area = Rectangle {
        x: 100,
        y: 50,
        width: 1920,
        height: 1080,
    };
    let (cols, cells) = compute_grid(area, 6, 9, 9);
    let rows = 6_usize.div_ceil(cols);
    assert!(cols * rows >= 6);
    for cell in &cells {
        assert!(cell.x >= area.x && cell.y >= area.y);
        assert!(cell.x + cell.width <= area.x + area.width);
        assert!(cell.y + cell.height <= area.y + area.height);
        assert!(cell.width > 0 && cell.height > 0);
    }
    assert_eq!(cells[0].x, cells[cols].x);
    assert_eq!(cells[0].y, cells[1].y);
}

#[test]
fn grid_columns_edge_cases() {
    assert_eq!(
        grid_columns(
            0,
            &Rectangle {
                x: 0,
                y: 0,
                width: 100,
                height: 100
            }
        ),
        1
    );
    assert_eq!(
        grid_columns(
            1,
            &Rectangle {
                x: 0,
                y: 0,
                width: 100,
                height: 100
            }
        ),
        1
    );
    let wide = Rectangle {
        x: 0,
        y: 0,
        width: 3840,
        height: 1080,
    };
    let tall = Rectangle {
        x: 0,
        y: 0,
        width: 1080,
        height: 3840,
    };
    assert!(grid_columns(16, &wide) >= grid_columns(16, &tall));
}

#[test]
fn move_window_adjusts_source_focus() {
    let mut src = vec![1, 2, 3];
    let mut src_focus = Some(2);
    let mut dst = vec![];
    let mut dst_focus: Option<usize> = None;

    move_in_list(&mut src, &mut src_focus, &mut dst, &mut dst_focus, 2);
    assert_eq!(src, vec![1, 2]);
    assert_eq!(src_focus, Some(1));
    assert_eq!(dst, vec![3]);
    assert_eq!(dst_focus, Some(0));
}

#[test]
fn move_window_lands_after_target_focus() {
    let mut src = vec![1];
    let mut src_focus = Some(0);
    let mut dst = vec![7, 8, 9];
    let mut dst_focus = Some(1);

    move_in_list(&mut src, &mut src_focus, &mut dst, &mut dst_focus, 0);
    assert_eq!(src, Vec::<i32>::new());
    assert_eq!(src_focus, None);
    assert_eq!(dst, vec![7, 8, 1, 9]);
    assert_eq!(dst_focus, Some(2));
}

#[test]
fn move_window_index_zero_keeps_focus_at_zero() {
    let mut src = vec![1, 2];
    let mut src_focus = Some(0);
    let mut dst = vec![];
    let mut dst_focus: Option<usize> = None;

    move_in_list(&mut src, &mut src_focus, &mut dst, &mut dst_focus, 0);
    assert_eq!(src, vec![2]);
    assert_eq!(src_focus, Some(0));
}

#[test]
fn move_window_out_of_bounds_is_noop() {
    let mut src = vec![1];
    let mut src_focus = Some(0);
    let mut dst: Vec<i32> = vec![];
    let mut dst_focus: Option<usize> = None;

    move_in_list(&mut src, &mut src_focus, &mut dst, &mut dst_focus, 5);
    assert_eq!(src, vec![1]);
    assert!(dst.is_empty());
}
