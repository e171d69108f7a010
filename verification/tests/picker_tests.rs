use path_planner::data::{heal_data, Data, Error, RawNode, RawWay, Way};
use path_planner::geom::GeoCoord;
use path_planner::picker::{
    find_closest_way_id_to_center, find_nearest_way, find_way_position, pixel_from_buffer,
    render_way_ids, way_position_to_geocoord, WayPosition,
};

const DEG: i64 = 10_000_000;

fn single_way_data() -> Data {
    // One way of two nodes spanning one degree of longitude at the equator.
    let nodes = vec![
        path_planner::geom::Node { long: 0, lat: 0 },
        path_planner::geom::Node { long: DEG as i32, lat: 0 },
    ];
    let ways = vec![Way { tags: vec!["highway/track".to_string()], nodes: vec![0, 1] }];
    Data { nodes, ways }
}

#[test]
fn buffer_pixels_are_read_row_major() {
    let mut pixels = vec![-1i32; 121];
    pixels[4 * 11 + 7] = 42;
    assert_eq!(pixel_from_buffer(&pixels, 7, 4), 42);
    assert_eq!(pixel_from_buffer(&pixels, 4, 7), -1);
}

#[test]
fn empty_grid_scans_to_sentinel() {
    let pixels = vec![-1i32; 121];
    assert_eq!(find_closest_way_id_to_center(&pixels), -1);
}

#[test]
fn center_pixel_wins_over_outer_rings() {
    let mut pixels = vec![-1i32; 121];
    pixels[5 * 11 + 5] = 7;
    pixels[0] = 9;
    assert_eq!(find_closest_way_id_to_center(&pixels), 7);
}

#[test]
fn nearer_ring_wins() {
    let mut pixels = vec![-1i32; 121];
    // Ring 1 and ring 2 entries; the ring-1 one must win.
    pixels[4 * 11 + 5] = 3;
    pixels[3 * 11 + 3] = 9;
    assert_eq!(find_closest_way_id_to_center(&pixels), 3);
}

#[test]
fn lone_corner_is_found() {
    let mut pixels = vec![-1i32; 121];
    pixels[10 * 11 + 10] = 12;
    assert_eq!(find_closest_way_id_to_center(&pixels), 12);
}

#[test]
fn refinement_picks_the_closest_sample_bucket() {
    let data = single_way_data();
    // A cursor a touch past the middle of the segment: the 0.5 sample wins.
    let cursor = GeoCoord { long: DEG / 2 + DEG / 100, lat: 1_000 };
    let pos = find_way_position(&data, 0, &cursor);
    assert_eq!(pos.way_id, 0);
    assert_eq!(pos.node_id, 0);
    assert_eq!(pos.distance_to_next, 5);
}

#[test]
fn refinement_passes_the_sentinel_through() {
    let data = single_way_data();
    let cursor = GeoCoord { long: 0, lat: 0 };
    let pos = find_way_position(&data, -1, &cursor);
    assert_eq!(pos.way_id, -1);
    assert_eq!(pos.node_id, 0);
    assert_eq!(pos.distance_to_next, 0);
}

#[test]
fn nearest_way_is_found_inside_the_tile() {
    let data = single_way_data();
    // Default view scale; the cursor sits a hundredth of a degree past a
    // sample point, well inside the raster tile at the first trial scale.
    let cursor = GeoCoord { long: DEG / 2 + DEG / 1000, lat: 100 };
    let pos = find_nearest_way(&data, 10_000_000, &cursor);
    assert_eq!(pos.way_id, 0);
    assert_eq!(pos.node_id, 0);
    assert_eq!(pos.distance_to_next, 5);
}

#[test]
fn faraway_cursor_yields_the_sentinel() {
    let data = single_way_data();
    let cursor = GeoCoord { long: 30 * DEG, lat: 30 * DEG };
    let pos = find_nearest_way(&data, 10_000_000, &cursor);
    assert_eq!(pos.way_id, -1);
}

#[test]
fn raster_marks_cells_of_the_way() {
    let data = single_way_data();
    let center = GeoCoord { long: DEG / 2, lat: 0 };
    let grid = render_way_ids(&data, 500_000_000, &center);
    assert_eq!(grid.len(), 121);
    // The way crosses the tile center horizontally: the center cell is hit.
    assert_eq!(grid[5 * 11 + 5], 0);
    // Nothing was drawn far above the way.
    assert_eq!(grid[0], -1);
}

#[test]
fn short_ways_are_never_rasterized() {
    let nodes = vec![path_planner::geom::Node { long: 0, lat: 0 }];
    let ways = vec![Way { tags: vec![], nodes: vec![0] }];
    let data = Data { nodes, ways };
    let center = GeoCoord { long: 0, lat: 0 };
    let grid = render_way_ids(&data, 500_000_000, &center);
    assert!(grid.iter().all(|&v| v == -1));
}

#[test]
fn way_position_interpolates_between_nodes() {
    let data = single_way_data();
    let pos = WayPosition { way_id: 0, node_id: 0, distance_to_next: 3 };
    let c = way_position_to_geocoord(&data, &pos).unwrap();
    assert_eq!(c.long, 3 * DEG / 10);
    assert_eq!(c.lat, 0);
}

#[test]
fn sentinel_position_has_no_coordinate() {
    let data = single_way_data();
    let pos = WayPosition { way_id: -1, node_id: 0, distance_to_next: 0 };
    assert!(way_position_to_geocoord(&data, &pos).is_none());
}

#[test]
fn healing_compacts_and_remaps_references() {
    let raw_nodes = vec![
        RawNode { id: 100, lat: 10, long: 11 },
        RawNode { id: 200, lat: 20, long: 21 },
        RawNode { id: 300, lat: 30, long: 31 },
        // A repeated id: the later position wins.
        RawNode { id: 100, lat: 15, long: 16 },
    ];
    let raw_ways = vec![RawWay {
        node_ids: vec![300, 100, 300],
        tags: vec!["highway/service".to_string()],
    }];
    let data = heal_data(&raw_nodes, &raw_ways);
    // Only the two referenced ids survive, in order of first reference.
    assert_eq!(data.nodes.len(), 2);
    assert_eq!(data.ways.len(), 1);
    assert_eq!(data.ways[0].nodes, vec![0, 1, 0]);
    assert_eq!(data.ways[0].tags, vec!["highway/service".to_string()]);
    assert_eq!(data.nodes[0].lat, 30);
    assert_eq!(data.nodes[0].long, 31);
    assert_eq!(data.nodes[1].lat, 15);
    assert_eq!(data.nodes[1].long, 16);
}

#[test]
fn error_carries_reason_and_source() {
    let e = Error::new("failed to load".to_string(), "file missing".to_string());
    assert_eq!(e.reason, "failed to load");
    assert_eq!(e.source, Some("file missing".to_string()));
}
