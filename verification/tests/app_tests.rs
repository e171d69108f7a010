use path_planner::app::App;
use path_planner::data::{Data, Way};
use path_planner::geom::{GeoCoord, Node};
use path_planner::highlight::{way_color, Color};
use path_planner::viewport::{PixelCoord, PixelOffset, Size, Viewport, ZoomFactor};

const DEG: i32 = 10_000_000;

fn small_data() -> Data {
    let nodes = vec![
        Node { long: -1_231_600_000, lat: 492_500_000 },
        Node { long: -1_231_400_000, lat: 492_500_000 },
    ];
    let ways = vec![Way { tags: vec!["highway/residential".to_string()], nodes: vec![0, 1] }];
    Data { nodes, ways }
}

#[test]
fn new_app_starts_unselected() {
    let app = App::new(small_data());
    assert_eq!(app.way_position.way_id, -1);
    assert_eq!(app.path_start.way_id, -1);
    assert!(app.planned_path.is_empty());
    assert!(!app.debug);
}

#[test]
fn pointer_leaving_clears_hover_and_path() {
    let mut app = App::new(small_data());
    let size = Size { width: 800, height: 600 };
    app.update_cursor_pos(None, &size);
    assert_eq!(app.way_position.way_id, -1);
    assert!(app.planned_path.is_empty());
    assert!(!app.planned_path_truncated);
}

#[test]
fn pointer_far_from_any_way_hovers_nothing() {
    let mut app = App::new(small_data());
    let size = Size { width: 800, height: 600 };
    // Pan the view to the opposite side of the world, far from the one way.
    app.viewport.center = path_planner::geom::GeoCoord { long: 800_000_000, lat: -300_000_000 };
    let pixel = PixelCoord { x: 400, y: 300 };
    app.update_cursor_pos(Some(&pixel), &size);
    assert_eq!(app.way_position.way_id, -1);
    assert!(app.planned_path.is_empty());
    assert!(!app.planned_path_truncated);
}

#[test]
fn start_and_clear_path_plan_snapshot_the_hover() {
    let mut app = App::new(small_data());
    app.way_position = path_planner::picker::WayPosition {
        way_id: 0,
        node_id: 0,
        distance_to_next: 2,
    };
    app.start_path_plan();
    assert_eq!(app.path_start.way_id, 0);
    assert_eq!(app.path_start.distance_to_next, 2);
    app.clear_path_plan();
    assert_eq!(app.path_start.way_id, -1);
}

#[test]
fn debug_mode_toggles() {
    let mut app = App::new(small_data());
    app.set_debug_mode(true);
    assert!(app.debug);
    app.set_debug_mode(false);
    assert!(!app.debug);
}

#[test]
fn selected_tags_follow_the_hover() {
    let mut app = App::new(small_data());
    assert!(app.selected_tags().is_empty());
    app.way_position = path_planner::picker::WayPosition {
        way_id: 0,
        node_id: 0,
        distance_to_next: 0,
    };
    assert_eq!(app.selected_tags(), vec!["highway/residential".to_string()]);
}

#[test]
fn pixel_to_geo_is_exact_at_the_equator() {
    let view = Viewport { scale: 10_000_000, center: GeoCoord { long: 0, lat: 0 } };
    let size = Size { width: 800, height: 600 };
    // The viewport's center pixel maps to the center coordinate.
    let mid = view.pixel_to_geo(&PixelCoord { x: 400, y: 300 }, &size);
    assert_eq!(mid, GeoCoord { long: 0, lat: 0 });
    // The right edge: (2*800-800) * 1e19 / (600 * 1e7 * 1e6), truncated.
    let right = view.pixel_to_geo(&PixelCoord { x: 800, y: 300 }, &size);
    assert_eq!(right, GeoCoord { long: 1_333_333, lat: 0 });
    // The top edge: (600-0) * 1e13 / (600 * 1e7), exactly a tenth of a degree.
    let top = view.pixel_to_geo(&PixelCoord { x: 400, y: 0 }, &size);
    assert_eq!(top, GeoCoord { long: 0, lat: 1_000_000 });
}

#[test]
fn zoom_keeps_anchor_coordinate_within_tolerance() {
    let mut app = App::new(small_data());
    let size = Size { width: 800, height: 600 };
    let anchor = PixelCoord { x: 200, y: 150 };
    let before = app.pixel_to_geocoord(&anchor, &size);
    app.zoom(&ZoomFactor { num: 2, den: 1 }, &anchor, &size);
    let after = app.pixel_to_geocoord(&anchor, &size);
    // Within a ten-thousandth of a degree (one thousand decimicro-degrees).
    assert!((after.long - before.long).abs() <= 1_000, "long drift {}", after.long - before.long);
    assert!((after.lat - before.lat).abs() <= 1_000, "lat drift {}", after.lat - before.lat);
}

#[test]
fn zoom_on_the_midline_keeps_anchor_exactly() {
    let mut app = App::new(small_data());
    let size = Size { width: 800, height: 600 };
    let anchor = PixelCoord { x: 137, y: 300 };
    let before = app.pixel_to_geocoord(&anchor, &size);
    app.zoom(&ZoomFactor { num: 3, den: 2 }, &anchor, &size);
    let after = app.pixel_to_geocoord(&anchor, &size);
    assert_eq!(after.long, before.long);
    assert_eq!(after.lat, before.lat);
}

#[test]
fn zoom_out_then_in_keeps_scale() {
    let mut app = App::new(small_data());
    let size = Size { width: 800, height: 600 };
    let anchor = PixelCoord { x: 400, y: 300 };
    let s0 = app.viewport.scale;
    app.zoom(&ZoomFactor { num: 1, den: 2 }, &anchor, &size);
    assert_eq!(app.viewport.scale, s0 / 2);
    app.zoom(&ZoomFactor { num: 2, den: 1 }, &anchor, &size);
    assert_eq!(app.viewport.scale, s0);
}

#[test]
fn pan_recenters_on_the_offset_pixel() {
    let mut app = App::new(small_data());
    let size = Size { width: 800, height: 600 };
    let offset = PixelOffset { x: 60, y: -25 };
    let expected = app.pixel_to_geocoord(
        &PixelCoord { x: 400 + 60, y: 300 - 25 },
        &size,
    );
    app.move_map(&offset, &size);
    assert_eq!(app.viewport.center.long, expected.long);
    assert_eq!(app.viewport.center.lat, expected.lat);
}

#[test]
fn hovering_over_the_way_plans_a_route() {
    let mut app = App::new(small_data());
    let size = Size { width: 800, height: 600 };
    // The default view is centered a little east of the way's first node;
    // hover near the view center, over the way's latitude.
    let center_pixel = PixelCoord { x: 400, y: 300 };
    app.update_cursor_pos(Some(&center_pixel), &size);
    assert_ne!(app.way_position.way_id, -1, "the way must land in a raster tile");
    app.start_path_plan();
    app.update_cursor_pos(Some(&center_pixel), &size);
    assert!(!app.planned_path.is_empty());
    assert!(!app.planned_path_truncated);
}

#[test]
fn way_color_takes_the_first_matching_entry() {
    let way = Way {
        tags: vec!["highway/primary".to_string(), "name/Main Street".to_string()],
        nodes: vec![0, 1],
    };
    let highlights = vec![
        ("rail.*".to_string(), Color { r: 200, g: 0, b: 0 }),
        ("high.*".to_string(), Color { r: 0, g: 200, b: 0 }),
        ("name.*".to_string(), Color { r: 0, g: 0, b: 200 }),
    ];
    let c = way_color(&way, &highlights);
    assert_eq!(c, Color { r: 0, g: 200, b: 0 });
}

#[test]
fn way_color_defaults_to_white() {
    let way = Way { tags: vec!["waterway/river".to_string()], nodes: vec![0, 1] };
    let highlights = vec![("rail.*".to_string(), Color { r: 200, g: 0, b: 0 })];
    let c = way_color(&way, &highlights);
    assert_eq!(c, Color { r: 255, g: 255, b: 255 });
}

#[test]
fn invalid_highlight_pattern_is_a_recoverable_error() {
    let mut app = App::new(small_data());
    let good = ("high.*".to_string(), Color { r: 1, g: 2, b: 3 });
    let bad = ("(".to_string(), Color { r: 4, g: 5, b: 6 });
    let result = app.set_highlight_list(&vec![good.clone(), bad]);
    let err = result.err().expect("an unclosed group must be rejected");
    assert_eq!(err.index, 1);
    // The failed update left no partial highlight list behind.
    assert!(app.highlights.is_empty());
    assert!(app.set_highlight_list(&vec![good]).is_ok());
    assert_eq!(app.highlights.len(), 1);
}

#[test]
fn from_rgb_builds_the_color() {
    let c = Color::from_rgb(10, 20, 30);
    assert_eq!(c, Color { r: 10, g: 20, b: 30 });
}

#[test]
fn way_colors_cover_every_way() {
    let data = Data {
        nodes: vec![Node { long: 0, lat: 0 }, Node { long: DEG, lat: 0 }],
        ways: vec![
            Way { tags: vec!["highway/a".to_string()], nodes: vec![0, 1] },
            Way { tags: vec!["railway/b".to_string()], nodes: vec![1, 0] },
        ],
    };
    let highlights = vec![("railway.*".to_string(), Color { r: 9, g: 9, b: 9 })];
    let colors = path_planner::highlight::way_colors(&data, &highlights);
    assert_eq!(colors.len(), 2);
    assert_eq!(colors[0], Color { r: 255, g: 255, b: 255 });
    assert_eq!(colors[1], Color { r: 9, g: 9, b: 9 });
}
