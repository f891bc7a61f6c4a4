use consolet::compose::{blend_layer_pixel, composite_layers};
use consolet::pixel::over_pixel;
use consolet::{Layer, PaletteEntry, Pixel, Rgb, Session, StatusMsg, SymmetryMode, Tool};

fn red() -> Rgb {
    Rgb { r: 255, g: 0, b: 0 }
}

fn blue() -> Rgb {
    Rgb { r: 0, g: 0, b: 255 }
}

fn pixel(c: Rgb, alpha: u32) -> Pixel {
    Pixel { color: c, alpha }
}

#[test]
fn transparent_layer_pixel_leaves_destination() {
    let dest = pixel(blue(), 700);
    let lp = pixel(red(), 0);
    assert_eq!(blend_layer_pixel(dest, lp, 1000), dest);
    assert_eq!(blend_layer_pixel(dest, lp, 0), dest);
}

#[test]
fn opaque_over_opaque_yields_source() {
    let dest = pixel(red(), 1000);
    let out = over_pixel(dest, blue(), 1000);
    assert_eq!(out.color, blue());
    assert_eq!(out.alpha, 1000);
}

#[test]
fn composite_stack_matches_pairwise_compositing() {
    let layer = |c: Rgb, alpha: u32, opacity: u32| Layer {
        name: String::new(),
        grid: vec![pixel(c, alpha)],
        visible: true,
        opacity,
    };
    let a = layer(red(), 800, 1000);
    let b = layer(blue(), 500, 700);
    let c = layer(Rgb { r: 10, g: 200, b: 30 }, 350, 900);
    let all = vec![
        layer(red(), 800, 1000),
        layer(blue(), 500, 700),
        layer(Rgb { r: 10, g: 200, b: 30 }, 350, 900),
    ];
    let full = composite_layers(&all, 1, 1);
    let two = composite_layers(&vec![a, b], 1, 1);
    let paired = blend_layer_pixel(two[0], c.grid[0], c.opacity);
    assert_eq!(full[0], paired);
}

#[test]
fn paint_red_then_blue_at_half_opacity() {
    let mut s = Session::with_size(4, 4);
    s.current_selection = PaletteEntry::Color(red());
    s.opacity = 500;
    s.apply_effect_at_pixel(1, 1);
    let px = s.get_active_canvas()[1 * 4 + 1];
    assert_eq!(px, pixel(red(), 500));
    s.current_selection = PaletteEntry::Color(blue());
    s.apply_effect_at_pixel(1, 1);
    let px = s.get_active_canvas()[1 * 4 + 1];
    assert_eq!(px.alpha, 750);
    assert_eq!(px.color, Rgb { r: 85, g: 0, b: 170 });
}

#[test]
fn circular_brush_size_three_paints_plus_shape() {
    let mut s = Session::with_size(10, 10);
    s.current_selection = PaletteEntry::Color(red());
    s.pen_size = 3;
    s.apply_brush(5, 5);
    let grid = s.get_active_canvas().clone();
    let mut painted = Vec::new();
    for y in 0..10usize {
        for x in 0..10usize {
            if grid[y * 10 + x].alpha > 0 {
                painted.push((x, y));
            }
        }
    }
    painted.sort();
    assert_eq!(painted, vec![(4, 5), (5, 4), (5, 5), (5, 6), (6, 5)]);
}

#[test]
fn vertical_symmetry_mirrors_even_width() {
    let mut s = Session::with_size(4, 4);
    s.current_selection = PaletteEntry::Color(red());
    s.symmetry_mode = SymmetryMode::Vertical(2);
    s.apply_brush(1, 1);
    let grid = s.get_active_canvas();
    // mirrored x = 2*axis - x - 1 on even widths
    assert_eq!(grid[1 * 4 + 1], pixel(red(), 1000));
    assert_eq!(grid[1 * 4 + 2], pixel(red(), 1000));
    assert_eq!(grid[1 * 4 + 0].alpha, 0);
    assert_eq!(grid[1 * 4 + 3].alpha, 0);
}

#[test]
fn vertical_symmetry_mirrors_odd_width() {
    let mut s = Session::with_size(5, 5);
    s.current_selection = PaletteEntry::Color(red());
    s.symmetry_mode = SymmetryMode::Vertical(2);
    s.apply_brush(1, 1);
    let grid = s.get_active_canvas();
    // mirrored x = 2*axis - x on odd widths
    assert_eq!(grid[1 * 5 + 1], pixel(red(), 1000));
    assert_eq!(grid[1 * 5 + 3], pixel(red(), 1000));
    assert_eq!(grid[1 * 5 + 2].alpha, 0);
}

#[test]
fn stroke_protection_applies_effect_once() {
    let mut s = Session::with_size(4, 4);
    s.current_selection = PaletteEntry::Color(red());
    s.opacity = 500;
    s.protect_stroke = true;
    s.begin_stroke();
    s.apply_effect_with_stroke_tracking(0, 0);
    s.apply_effect_with_stroke_tracking(0, 0);
    assert_eq!(s.get_active_canvas()[0].alpha, 500);
    s.end_stroke();

    let mut u = Session::with_size(4, 4);
    u.current_selection = PaletteEntry::Color(red());
    u.opacity = 500;
    u.protect_stroke = false;
    u.apply_effect_with_stroke_tracking(0, 0);
    u.apply_effect_with_stroke_tracking(0, 0);
    assert_eq!(u.get_active_canvas()[0].alpha, 750);
}

#[test]
fn fill_floods_connected_region() {
    let mut s = Session::with_size(2, 2);
    s.fill_from_point(0, 0, red(), 1000);
    let grid = s.get_active_canvas();
    for i in 0..4 {
        assert_eq!(grid[i], pixel(red(), 1000));
    }
    assert_eq!(s.undo_stack.len(), 1);
}

#[test]
fn fill_stops_at_region_boundary() {
    let mut s = Session::with_size(3, 1);
    s.current_selection = PaletteEntry::Color(blue());
    s.apply_effect_at_pixel(1, 0);
    s.fill_from_point(0, 0, red(), 1000);
    let grid = s.get_active_canvas();
    assert_eq!(grid[0], pixel(red(), 1000));
    assert_eq!(grid[1], pixel(blue(), 1000));
    assert_eq!(grid[2].alpha, 0);
}

#[test]
fn fill_on_matching_seed_is_noop_without_undo() {
    let mut s = Session::with_size(3, 3);
    s.fill_from_point(0, 0, red(), 1000);
    assert_eq!(s.undo_stack.len(), 1);
    // seed already equals the fill value: nothing happens, no new snapshot
    let before = s.get_active_canvas().clone();
    s.fill_from_point(1, 1, red(), 1000);
    assert_eq!(s.undo_stack.len(), 1);
    assert_eq!(*s.get_active_canvas(), before);
}

#[test]
fn undo_then_redo_restores_grid_bit_for_bit() {
    let mut s = Session::with_size(3, 3);
    s.current_selection = PaletteEntry::Color(red());
    s.use_current_tool();
    let painted = s.get_active_canvas().clone();
    s.undo();
    assert_eq!(s.status, Some(StatusMsg::DidUndo));
    assert!(s.get_active_canvas().iter().all(|p| p.alpha == 0));
    s.redo();
    assert_eq!(s.status, Some(StatusMsg::DidRedo));
    assert_eq!(*s.get_active_canvas(), painted);
}

#[test]
fn undo_with_empty_history_reports_notice() {
    let mut s = Session::with_size(2, 2);
    s.undo();
    assert_eq!(s.status, Some(StatusMsg::NothingToUndo));
    s.redo();
    assert_eq!(s.status, Some(StatusMsg::NothingToRedo));
}

#[test]
fn delete_last_layer_is_rejected() {
    let mut s = Session::with_size(4, 4);
    assert_eq!(s.layers.len(), 1);
    s.delete_active_layer();
    assert_eq!(s.layers.len(), 1);
    assert_eq!(s.status, Some(StatusMsg::CannotDeleteOnlyLayer));
}

#[test]
fn add_and_delete_layer() {
    let mut s = Session::with_size(4, 4);
    s.current_selection = PaletteEntry::Color(red());
    s.apply_effect_at_pixel(0, 0);
    s.add_new_layer();
    // the new layer joins at the visual bottom and becomes active
    assert_eq!(s.layers.len(), 2);
    assert_eq!(s.active_layer_index, 0);
    assert_eq!(s.layers[1].grid[0], pixel(red(), 1000));
    assert_eq!(s.status, Some(StatusMsg::LayerAdded));
    s.delete_active_layer();
    assert_eq!(s.layers.len(), 1);
    assert_eq!(s.active_layer_index, 0);
    assert_eq!(s.layers[0].grid[0], pixel(red(), 1000));
    assert_eq!(s.status, Some(StatusMsg::LayerDeleted));
}

#[test]
fn invisible_layer_contributes_nothing() {
    let mut s = Session::with_size(2, 2);
    s.current_selection = PaletteEntry::Color(red());
    s.apply_effect_at_pixel(0, 0);
    s.toggle_layer_visibility();
    assert_eq!(s.canvas[0].alpha, 0);
    s.toggle_layer_visibility();
    assert_eq!(s.canvas[0], pixel(red(), 1000));
}

#[test]
fn merge_layer_down_uses_over_operator() {
    let mut s = Session::with_size(1, 1);
    s.opacity = 500;
    s.current_selection = PaletteEntry::Color(blue());
    s.apply_effect_at_pixel(0, 0);
    s.add_new_layer();
    s.current_selection = PaletteEntry::Color(red());
    s.apply_effect_at_pixel(0, 0);
    // the blue layer sits above the fresh red one; merge it downward
    s.change_layer_selection(1);
    s.merge_active_layer_down();
    assert_eq!(s.layers.len(), 1);
    assert_eq!(s.status, Some(StatusMsg::LayerMerged));
    let px = s.get_active_canvas()[0];
    assert_eq!(px.alpha, 750);
    assert_eq!(px.color, Rgb { r: 85, g: 0, b: 170 });
}

#[test]
fn merge_bottom_layer_is_rejected() {
    let mut s = Session::with_size(2, 2);
    s.merge_active_layer_down();
    assert_eq!(s.status, Some(StatusMsg::CannotMergeBottomLayer));
    assert_eq!(s.layers.len(), 1);
}

#[test]
fn resize_discards_content_and_clamps_cursor() {
    let mut s = Session::with_size(8, 8);
    s.current_selection = PaletteEntry::Color(red());
    s.apply_effect_at_pixel(7, 7);
    s.cursor_x = 7;
    s.cursor_y = 7;
    s.save_state_for_undo();
    s.resize_canvas(2, 3);
    assert_eq!(s.width, 2);
    assert_eq!(s.height, 3);
    assert_eq!(s.cursor_x, 1);
    assert_eq!(s.cursor_y, 2);
    assert_eq!(s.undo_stack.len(), 0);
    assert!(s.get_active_canvas().iter().all(|p| p.alpha == 0));
    assert_eq!(s.get_active_canvas().len(), 6);
}

#[test]
fn clear_canvas_snapshots_then_wipes() {
    let mut s = Session::with_size(2, 2);
    s.current_selection = PaletteEntry::Color(red());
    s.apply_effect_at_pixel(0, 0);
    s.clear_canvas();
    assert_eq!(s.status, Some(StatusMsg::ActiveLayerCleared));
    assert!(s.get_active_canvas().iter().all(|p| p.alpha == 0));
    assert_eq!(s.undo_stack.len(), 1);
    s.undo();
    assert_eq!(s.get_active_canvas()[0], pixel(red(), 1000));
}

#[test]
fn erase_brush_respects_vertical_symmetry() {
    let mut s = Session::with_size(4, 4);
    s.fill_from_point(0, 0, red(), 1000);
    s.symmetry_mode = SymmetryMode::Vertical(2);
    s.erase_brush(1, 1);
    let grid = s.get_active_canvas();
    assert_eq!(grid[1 * 4 + 1].alpha, 0);
    assert_eq!(grid[1 * 4 + 2].alpha, 0);
    assert_eq!(grid[1 * 4 + 0].alpha, 1000);
    assert_eq!(grid[1 * 4 + 3].alpha, 1000);
}

#[test]
fn spray_without_color_selected_is_rejected() {
    let mut s = Session::with_size(4, 4);
    s.current_selection = PaletteEntry::Tool(Tool::Blur);
    s.apply_spray();
    assert_eq!(s.status, Some(StatusMsg::SelectColorToSpray));
}

#[test]
fn spray_at_zero_intensity_paints_nothing() {
    let mut s = Session::with_size(4, 4);
    s.current_selection = PaletteEntry::Color(red());
    s.spray_intensity = 0;
    s.apply_spray();
    assert!(s.get_active_canvas().iter().all(|p| p.alpha == 0));
}

#[test]
fn spray_changes_only_cells_within_radius() {
    let mut s = Session::with_size(9, 9);
    s.current_selection = PaletteEntry::Color(red());
    s.cursor_x = 4;
    s.cursor_y = 4;
    s.spray_size = 3;
    s.spray_speed = 50;
    s.spray_intensity = 1000;
    s.apply_spray();
    for y in 0..9i64 {
        for x in 0..9i64 {
            if s.get_active_canvas()[(y * 9 + x) as usize].alpha > 0 {
                assert!((x - 4).abs() <= 1 && (y - 4).abs() <= 1);
            }
        }
    }
}

#[test]
fn erase_at_cursor_takes_undo_snapshot() {
    let mut s = Session::with_size(3, 3);
    s.fill_from_point(0, 0, red(), 1000);
    let filled = s.get_active_canvas().clone();
    s.erase_at_cursor();
    assert_eq!(s.get_active_canvas()[0].alpha, 0);
    s.undo();
    assert_eq!(*s.get_active_canvas(), filled);
}

#[test]
fn pen_size_and_opacity_clamp() {
    let mut s = Session::with_size(4, 4);
    s.change_pen_size(2);
    assert_eq!(s.pen_size, 3);
    s.change_pen_size(-100);
    assert_eq!(s.pen_size, 1);
    assert_eq!(s.status, Some(StatusMsg::PenSizeChanged));
    s.change_opacity(-1);
    assert_eq!(s.opacity, 950);
    s.change_opacity(1);
    s.change_opacity(1);
    assert_eq!(s.opacity, 1000);
    assert_eq!(s.status, Some(StatusMsg::OpacityChanged));
}

#[test]
fn symmetry_mode_cycles_through_all_modes() {
    let mut s = Session::with_size(10, 6);
    assert_eq!(s.symmetry_mode, SymmetryMode::Off);
    s.cycle_symmetry_mode();
    assert_eq!(s.symmetry_mode, SymmetryMode::Vertical(5));
    s.cycle_symmetry_mode();
    assert_eq!(s.symmetry_mode, SymmetryMode::DiagonalForward(-2));
    s.cycle_symmetry_mode();
    assert_eq!(s.symmetry_mode, SymmetryMode::Horizontal(3));
    s.cycle_symmetry_mode();
    assert_eq!(s.symmetry_mode, SymmetryMode::DiagonalBackward(8));
    s.cycle_symmetry_mode();
    assert_eq!(s.symmetry_mode, SymmetryMode::Off);
}

#[test]
fn pick_color_from_transparent_pixel_is_rejected() {
    let mut s = Session::with_size(4, 4);
    s.pick_color_at_cursor();
    assert_eq!(s.status, Some(StatusMsg::CannotPickTransparentPixel));
}

#[test]
fn pick_color_appends_new_color_to_palette() {
    let mut s = Session::with_size(4, 4);
    let odd = Rgb { r: 3, g: 141, b: 59 };
    s.current_selection = PaletteEntry::Color(odd);
    s.apply_effect_at_pixel(0, 0);
    s.current_selection = PaletteEntry::Color(red());
    let before = s.color_palette.len();
    s.pick_color_at_cursor();
    assert_eq!(s.status, Some(StatusMsg::ColorPicked));
    assert_eq!(s.current_selection, PaletteEntry::Color(odd));
    assert_eq!(s.color_palette.len(), before + 1);
    assert_eq!(s.palette_index, before);
}

#[test]
fn blur_averages_neighborhood() {
    let mut s = Session::with_size(3, 3);
    s.current_selection = PaletteEntry::Color(red());
    s.apply_effect_at_pixel(1, 1);
    let blurred = s.calculate_blur_at(1, 1, 1000);
    // nine in-bounds cells, one holding red at full alpha
    assert_eq!(blurred.color, Rgb { r: 28, g: 0, b: 0 });
    assert_eq!(blurred.alpha, 111);
}

#[test]
fn lighter_tool_blends_toward_white() {
    let mut s = Session::with_size(2, 2);
    s.current_selection = PaletteEntry::Color(Rgb { r: 100, g: 100, b: 100 });
    s.apply_effect_at_pixel(0, 0);
    s.current_selection = PaletteEntry::Tool(Tool::Lighter);
    s.shade_factor = 100;
    s.apply_effect_at_pixel(0, 0);
    // each channel moves a tenth of the way to 255, rounded
    let px = s.get_active_canvas()[0];
    assert_eq!(px.color, Rgb { r: 116, g: 116, b: 116 });
    assert_eq!(px.alpha, 1000);
}

#[test]
fn tone_tools_skip_empty_cells() {
    let mut s = Session::with_size(2, 2);
    s.current_selection = PaletteEntry::Tool(Tool::Darker);
    s.apply_effect_at_pixel(0, 0);
    assert_eq!(s.get_active_canvas()[0].alpha, 0);
}

#[test]
fn fill_area_requires_color_selection() {
    let mut s = Session::with_size(3, 3);
    s.current_selection = PaletteEntry::Tool(Tool::Blur);
    s.fill_area();
    assert_eq!(s.status, Some(StatusMsg::SelectColorToFill));
    assert!(s.get_active_canvas().iter().all(|p| p.alpha == 0));
}

#[test]
fn fill_area_uses_cursor_and_opacity() {
    let mut s = Session::with_size(2, 2);
    s.current_selection = PaletteEntry::Color(blue());
    s.opacity = 600;
    s.cursor_x = 1;
    s.cursor_y = 1;
    s.fill_area();
    assert!(s.get_active_canvas().iter().all(|p| *p == pixel(blue(), 600)));
}

#[test]
fn fill_out_of_bounds_seed_is_ignored() {
    let mut s = Session::with_size(2, 2);
    s.fill_from_point(5, 5, red(), 1000);
    assert!(s.get_active_canvas().iter().all(|p| p.alpha == 0));
    assert_eq!(s.undo_stack.len(), 0);
}

#[test]
fn layer_moves_swap_with_neighbors() {
    let mut s = Session::with_size(2, 2);
    s.current_selection = PaletteEntry::Color(red());
    s.apply_effect_at_pixel(0, 0);
    s.add_new_layer();
    assert_eq!(s.active_layer_index, 0);
    assert_eq!(s.layers[1].grid[0], pixel(red(), 1000));
    // raising the active layer moves it toward the viewer (the stack top)
    s.move_layer_up();
    assert_eq!(s.active_layer_index, 1);
    assert_eq!(s.layers[0].grid[0], pixel(red(), 1000));
    s.move_layer_up();
    assert_eq!(s.active_layer_index, 1);
    s.move_layer_down();
    assert_eq!(s.active_layer_index, 0);
    assert_eq!(s.layers[1].grid[0], pixel(red(), 1000));
    s.move_layer_down();
    assert_eq!(s.active_layer_index, 0);
}

#[test]
fn layer_selection_clamps_to_stack() {
    let mut s = Session::with_size(2, 2);
    s.add_new_layer();
    s.add_new_layer();
    s.change_layer_selection(-10);
    assert_eq!(s.active_layer_index, 0);
    s.change_layer_selection(1);
    assert_eq!(s.active_layer_index, 1);
    s.change_layer_selection(100);
    assert_eq!(s.active_layer_index, 2);
}

#[test]
fn selecting_palette_entries_updates_selection() {
    let mut s = Session::with_size(2, 2);
    s.color_palette = vec![
        PaletteEntry::Color(red()),
        PaletteEntry::Color(blue()),
    ];
    s.palette_index = 1;
    s.select_color_entry();
    assert_eq!(s.current_selection, PaletteEntry::Color(blue()));
    s.change_tool_selection(2);
    assert_eq!(s.tool_index, 2);
    s.select_tool_entry();
    assert_eq!(s.current_selection, PaletteEntry::Tool(Tool::Blur));
    s.change_tool_selection(-5);
    assert_eq!(s.tool_index, 0);
}

#[test]
fn undo_stack_is_bounded_at_one_hundred() {
    let mut s = Session::with_size(2, 2);
    for _ in 0..120 {
        s.save_state_for_undo();
    }
    assert_eq!(s.undo_stack.len(), 100);
}

#[test]
fn brush_center_beyond_edge_paints_overlap() {
    let mut s = Session::with_size(4, 4);
    s.current_selection = PaletteEntry::Color(red());
    s.pen_size = 3;
    s.apply_brush(4, 1);
    let grid = s.get_active_canvas().clone();
    let mut painted = Vec::new();
    for y in 0..4usize {
        for x in 0..4usize {
            if grid[y * 4 + x].alpha > 0 {
                painted.push((x, y));
            }
        }
    }
    assert_eq!(painted, vec![(3, 1)]);
    // a center far beyond the canvas touches nothing
    s.apply_brush(100, 100);
    assert_eq!(*s.get_active_canvas(), grid);
}

#[test]
fn erase_center_beyond_edge_clips() {
    let mut s = Session::with_size(4, 4);
    s.fill_from_point(0, 0, red(), 1000);
    s.pen_size = 3;
    s.erase_brush(4, 1);
    let grid = s.get_active_canvas();
    for y in 0..4usize {
        for x in 0..4usize {
            if (x, y) == (3, 1) {
                assert_eq!(grid[y * 4 + x].alpha, 0);
            } else {
                assert_eq!(grid[y * 4 + x].alpha, 1000);
            }
        }
    }
}

#[test]
fn spray_at_full_intensity_and_radius_zero_is_deterministic() {
    let mut s = Session::with_size(3, 3);
    s.current_selection = PaletteEntry::Color(red());
    s.opacity = 500;
    s.spray_size = 1;
    s.spray_intensity = 1000;
    s.spray_speed = 3;
    s.cursor_x = 1;
    s.cursor_y = 1;
    s.apply_spray();
    // three certain paint applications at the cursor: 500, 750, then 875
    let px = s.get_active_canvas()[1 * 3 + 1];
    assert_eq!(px.color, red());
    assert_eq!(px.alpha, 875);
    for (i, p) in s.get_active_canvas().iter().enumerate() {
        if i != 1 * 3 + 1 {
            assert_eq!(p.alpha, 0);
        }
    }
}
