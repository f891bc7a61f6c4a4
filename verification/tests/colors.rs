use consolet::kmeans::{count_colors, generate_palette, kmeans_palette};
use consolet::palette::{
    get_ansi_color_palette, get_default_color_palette, get_default_tool_palette,
    get_websafe_color_palette, get_websafe_extended_color_palette, get_xterm256_color_palette,
    parse_hex_color,
};
use consolet::{PaletteEntry, Rgb, Session, SnapToPaletteMode, StatusMsg, Tool};

fn rgb(r: u8, g: u8, b: u8) -> Rgb {
    Rgb { r, g, b }
}

#[test]
fn default_palettes_have_expected_shapes() {
    assert_eq!(get_default_color_palette().len(), 107);
    assert_eq!(get_ansi_color_palette().len(), 16);
    assert_eq!(get_xterm256_color_palette().len(), 256);
    assert_eq!(get_websafe_color_palette().len(), 216);
    assert_eq!(get_websafe_extended_color_palette().len(), 1331);
    assert_eq!(
        get_default_tool_palette(),
        vec![
            PaletteEntry::Tool(Tool::Lighter),
            PaletteEntry::Tool(Tool::Darker),
            PaletteEntry::Tool(Tool::Blur),
        ]
    );
}

#[test]
fn hex_colors_parse_with_and_without_hash() {
    assert_eq!(parse_hex_color("#FF8000"), Some(rgb(255, 128, 0)));
    assert_eq!(parse_hex_color("ff8000"), Some(rgb(255, 128, 0)));
    assert_eq!(parse_hex_color("#0a0B0c"), Some(rgb(10, 11, 12)));
    assert_eq!(parse_hex_color("#ff80"), None);
    assert_eq!(parse_hex_color("#gg8000"), None);
    assert_eq!(parse_hex_color(""), None);
    assert_eq!(parse_hex_color("#ff8000ff"), None);
}

#[test]
fn closest_palette_color_minimizes_rgb_distance() {
    let mut s = Session::with_size(2, 2);
    s.color_palette = vec![
        PaletteEntry::Color(rgb(255, 0, 0)),
        PaletteEntry::Color(rgb(0, 255, 0)),
    ];
    assert_eq!(s.find_closest_palette_color(rgb(200, 50, 50)), rgb(255, 0, 0));
    assert_eq!(s.find_closest_palette_color(rgb(10, 240, 30)), rgb(0, 255, 0));
}

#[test]
fn closest_palette_color_without_colors_returns_target() {
    let mut s = Session::with_size(2, 2);
    s.color_palette = vec![PaletteEntry::Tool(Tool::Blur)];
    assert_eq!(s.find_closest_palette_color(rgb(7, 8, 9)), rgb(7, 8, 9));
}

#[test]
fn lighter_rgb_prefers_near_brighter_color() {
    let mut s = Session::with_size(2, 2);
    s.protect_color_transitions = false;
    s.color_palette = vec![
        PaletteEntry::Color(rgb(200, 200, 200)),
        PaletteEntry::Color(rgb(110, 110, 110)),
        PaletteEntry::Color(rgb(50, 50, 50)),
    ];
    assert_eq!(s.find_lighter_rgb(rgb(100, 100, 100)), rgb(110, 110, 110));
    assert_eq!(s.find_darker_rgb(rgb(100, 100, 100)), rgb(50, 50, 50));
}

#[test]
fn lighter_rgb_with_no_brighter_color_keeps_current() {
    let mut s = Session::with_size(2, 2);
    s.color_palette = vec![PaletteEntry::Color(rgb(10, 10, 10))];
    assert_eq!(s.find_lighter_rgb(rgb(200, 200, 200)), rgb(200, 200, 200));
}

#[test]
fn hue_protected_lighter_excludes_distant_hues() {
    let mut s = Session::with_size(2, 2);
    s.protect_color_transitions = true;
    s.color_palette = vec![
        PaletteEntry::Color(rgb(0, 255, 0)),
        PaletteEntry::Color(rgb(255, 120, 120)),
    ];
    // the green is brighter but more than 45 degrees away in hue
    assert_eq!(s.find_lighter_rgb(rgb(200, 0, 0)), rgb(255, 120, 120));
}

#[test]
fn hue_mode_snapping_prefers_near_gray_tone() {
    let mut s = Session::with_size(2, 2);
    s.color_palette = vec![
        PaletteEntry::Color(rgb(250, 250, 250)),
        PaletteEntry::Color(rgb(150, 150, 150)),
    ];
    assert_eq!(
        s.find_lighter_palette_color(rgb(100, 100, 100)),
        rgb(150, 150, 150)
    );
    assert_eq!(
        s.find_darker_palette_color(rgb(200, 200, 200)),
        rgb(150, 150, 150)
    );
}

#[test]
fn hue_mode_snapping_excludes_distant_hues() {
    let mut s = Session::with_size(2, 2);
    s.color_palette = vec![
        PaletteEntry::Color(rgb(50, 0, 0)),
        PaletteEntry::Color(rgb(0, 10, 0)),
    ];
    // the green is brighter too, but sits 120 degrees away in hue
    assert_eq!(s.find_lighter_palette_color(rgb(0, 0, 0)), rgb(50, 0, 0));

    let mut d = Session::with_size(2, 2);
    d.color_palette = vec![
        PaletteEntry::Color(rgb(200, 200, 200)),
        PaletteEntry::Color(rgb(255, 255, 245)),
    ];
    // the yellowish white is darker too, but 60 degrees away in hue
    assert_eq!(
        d.find_darker_palette_color(rgb(255, 255, 255)),
        rgb(200, 200, 200)
    );
}

#[test]
fn snapped_lighter_tool_moves_to_palette_color() {
    let mut s = Session::with_size(2, 2);
    s.current_selection = PaletteEntry::Color(rgb(100, 100, 100));
    s.apply_effect_at_pixel(0, 0);
    s.color_palette = vec![PaletteEntry::Color(rgb(120, 120, 120))];
    s.snap_to_palette = true;
    s.snap_to_palette_mode = SnapToPaletteMode::ClosestRgb;
    s.current_selection = PaletteEntry::Tool(Tool::Lighter);
    s.apply_effect_at_pixel(0, 0);
    assert_eq!(s.get_active_canvas()[0].color, rgb(120, 120, 120));
}

#[test]
fn rgb_to_hue_matches_known_angles() {
    let s = Session::with_size(2, 2);
    assert_eq!(s.rgb_to_hue(255, 0, 0), 0);
    assert_eq!(s.rgb_to_hue(255, 255, 0), 60000);
    assert_eq!(s.rgb_to_hue(0, 255, 0), 120000);
    assert_eq!(s.rgb_to_hue(0, 255, 255), 180000);
    assert_eq!(s.rgb_to_hue(0, 0, 255), 240000);
    assert_eq!(s.rgb_to_hue(128, 128, 128), 0);
}

#[test]
fn hue_distance_takes_shortest_arc() {
    let s = Session::with_size(2, 2);
    assert_eq!(s.hue_distance(10000, 350000), 20000);
    assert_eq!(s.hue_distance(0, 180000), 180000);
    assert_eq!(s.hue_distance(90000, 45000), 45000);
}

#[test]
fn count_colors_counts_exact_occurrences() {
    let pixels = vec![rgb(1, 2, 3), rgb(9, 9, 9), rgb(1, 2, 3), rgb(1, 2, 3)];
    let counts = count_colors(&pixels);
    assert_eq!(counts, vec![(rgb(1, 2, 3), 3), (rgb(9, 9, 9), 1)]);
    assert!(count_colors(&Vec::new()).is_empty());
}

#[test]
fn kmeans_converges_on_three_solid_thirds() {
    let colors = vec![
        (rgb(255, 0, 0), 100u32),
        (rgb(0, 255, 0), 100u32),
        (rgb(0, 0, 255), 100u32),
    ];
    for first_index in 0..3 {
        let mut palette = kmeans_palette(&colors, 3, first_index);
        palette.sort_by_key(|c| (c.r, c.g, c.b));
        assert_eq!(
            palette,
            vec![rgb(0, 0, 255), rgb(0, 255, 0), rgb(255, 0, 0)]
        );
    }
}

#[test]
fn kmeans_weighted_mean_merges_close_colors() {
    // two colors land in one cluster; the center is their count-weighted mean
    let colors = vec![
        (rgb(0, 0, 0), 1u32),
        (rgb(10, 0, 0), 3u32),
        (rgb(255, 255, 255), 1u32),
    ];
    let palette = kmeans_palette(&colors, 2, 0);
    assert!(palette.contains(&rgb(255, 255, 255)));
    // (0*1 + 10*3) / 4 = 7 (truncated)
    assert!(palette.contains(&rgb(7, 0, 0)));
}

#[test]
fn generate_palette_rejects_empty_images() {
    assert_eq!(generate_palette(&Vec::new(), 16), None);
}

#[test]
fn generate_palette_returns_requested_size() {
    let pixels = vec![rgb(255, 0, 0), rgb(0, 255, 0), rgb(0, 0, 255)];
    let palette = generate_palette(&pixels, 3).unwrap();
    let mut sorted = palette.clone();
    sorted.sort_by_key(|c| (c.r, c.g, c.b));
    assert_eq!(
        sorted,
        vec![rgb(0, 0, 255), rgb(0, 255, 0), rgb(255, 0, 0)]
    );
}

#[test]
fn palette_entries_merge_uniquely() {
    let mut s = Session::with_size(2, 2);
    s.color_palette = vec![PaletteEntry::Color(rgb(1, 1, 1))];
    s.add_palette_entries_uniquely(&vec![
        PaletteEntry::Color(rgb(1, 1, 1)),
        PaletteEntry::Color(rgb(2, 2, 2)),
        PaletteEntry::Tool(Tool::Blur),
        PaletteEntry::Color(rgb(2, 2, 2)),
    ]);
    assert_eq!(
        s.color_palette,
        vec![
            PaletteEntry::Color(rgb(1, 1, 1)),
            PaletteEntry::Color(rgb(2, 2, 2)),
        ]
    );
    assert_eq!(s.status, Some(StatusMsg::ColorsAddedToPalette(1)));
}

#[test]
fn generated_palette_replaces_or_reports() {
    let mut s = Session::with_size(2, 2);
    s.install_generated_palette(&None, false);
    assert_eq!(s.status, Some(StatusMsg::ImageHasNoColors));

    s.install_generated_palette(&Some(vec![rgb(9, 9, 9), rgb(3, 3, 3)]), false);
    assert_eq!(
        s.color_palette,
        vec![
            PaletteEntry::Color(rgb(9, 9, 9)),
            PaletteEntry::Color(rgb(3, 3, 3)),
        ]
    );
    assert_eq!(s.palette_index, 0);
    assert_eq!(s.status, Some(StatusMsg::PaletteGenerated));

    s.install_generated_palette(&Some(vec![rgb(9, 9, 9), rgb(7, 7, 7)]), true);
    assert_eq!(s.color_palette.len(), 3);
    assert_eq!(s.status, Some(StatusMsg::ColorsAddedToPalette(1)));
}

#[test]
fn help_text_names_the_commands() {
    let text = consolet::help::get_default_help_text();
    assert!(text.contains("Command Reference"));
    assert!(text.contains("undo / redo"));
}

#[test]
fn kmeans_repeats_a_color_when_colors_run_out() {
    // fewer unique colors than centers: every center is still an image color
    let colors = vec![
        (rgb(255, 255, 255), 5u32),
        (rgb(200, 200, 200), 5u32),
    ];
    let palette = kmeans_palette(&colors, 3, 0);
    assert_eq!(palette.len(), 3);
    for c in &palette {
        assert!(*c == rgb(255, 255, 255) || *c == rgb(200, 200, 200));
    }
    assert!(palette.contains(&rgb(255, 255, 255)));
    assert!(palette.contains(&rgb(200, 200, 200)));
}

#[test]
fn hue_mode_lighter_tool_respects_the_cap() {
    let mut s = Session::with_size(2, 2);
    s.current_selection = PaletteEntry::Color(rgb(0, 0, 0));
    s.apply_effect_at_pixel(0, 0);
    s.color_palette = vec![
        PaletteEntry::Color(rgb(0, 10, 0)),
        PaletteEntry::Color(rgb(50, 0, 0)),
    ];
    s.snap_to_palette = true;
    s.snap_to_palette_mode = SnapToPaletteMode::ClosestHue;
    s.current_selection = PaletteEntry::Tool(Tool::Lighter);
    s.apply_effect_at_pixel(0, 0);
    // the green is nearer in RGB but beyond the 45-degree hue cap
    assert_eq!(s.get_active_canvas()[0].color, rgb(50, 0, 0));
}
