//! The spatial picker: ways are drawn, color-coded by index, into a small
//! square grid around the cursor; the grid is scanned outward from its center
//! in expanding rings; and the hit way's polyline is sampled to find the
//! position nearest the cursor. The grid is filled by a deterministic
//! software rasterizer that samples every way segment at fixed subdivisions,
//! standing in for a rendering backend.

use vstd::prelude::*;
use crate::data::{Data, valid_data};
use crate::geom::{GeoCoord, cos_dmd, cos_dmd_spec, tdiv, tdiv128, lemma_tdiv_mag};

verus! {

/// Side length of the square picking grid, in cells.
pub const WAY_FINDER_RES: i32 = 11;

/// Number of sample subdivisions per way segment.
pub const SEG_STEPS: u8 = 10;

/// Largest coordinate magnitude the picker admits for a cursor, in
/// decimicro-degrees.
pub const COORD_LIMIT: i64 = 6_000_000_000_000_000_000;

/// Largest stored scale the picker admits for a raster pass.
pub const PICK_SCALE_LIMIT: u64 = 100_000_000_000_000;

/// A point along a way's polyline: the segment from `nodes[node_id]` to
/// `nodes[node_id + 1]`, at `distance_to_next` tenths of the segment.
/// A `way_id` of `-1` means no selection.
#[derive(Clone, Copy, PartialEq, Eq, Structural, Debug)]
pub struct WayPosition {
    pub way_id: i32,
    pub node_id: usize,
    pub distance_to_next: u8,
}

impl Default for WayPosition {
    /// The sentinel position: nothing selected.
    fn default() -> (d: WayPosition)
        ensures
            d == (WayPosition { way_id: -1i32, node_id: 0usize, distance_to_next: 0u8 }),
    {
        WayPosition { way_id: -1, node_id: 0, distance_to_next: 0 }
    }
}

/// Reads one grid cell.
pub fn pixel_from_buffer(pixels: &[i32], x: i32, y: i32) -> (r: i32)
    requires
        pixels@.len() == 121,
        0 <= x < 11,
        0 <= y < 11,
    ensures
        r == pixels@[y * 11 + x],
{
    pixels[(y * WAY_FINDER_RES + x) as usize]
}

/// The Chebyshev distance of a grid cell from the grid's center.
pub open spec fn ring_of(x: int, y: int) -> int {
    let dx = if x >= 5 { x - 5 } else { 5 - x };
    let dy = if y >= 5 { y - 5 } else { 5 - y };
    if dx >= dy { dx } else { dy }
}

/// Every cell strictly inside ring `d` holds the sentinel.
pub open spec fn rings_clear_below(pixels: Seq<i32>, d: int) -> bool {
    forall|x: int, y: int|
        0 <= x < 11 && 0 <= y < 11 && ring_of(x, y) < d ==> pixels[y * 11 + x] == -1
}

/// The column probed at ring `dist`, sweep index `i`, side `s`: the sides are
/// the ring's top row, bottom row, left column and right column, in that
/// order.
pub open spec fn probe_x(dist: int, i: int, s: int) -> int {
    if s == 0 || s == 1 {
        i
    } else if s == 2 {
        5 - dist
    } else {
        5 + dist
    }
}

/// The row probed at ring `dist`, sweep index `i`, side `s`.
pub open spec fn probe_y(dist: int, i: int, s: int) -> int {
    if s == 0 {
        5 - dist
    } else if s == 1 {
        5 + dist
    } else {
        i
    }
}

/// The probe coordinates are a real scan step.
pub open spec fn probe_valid(dist: int, i: int, s: int) -> bool {
    0 <= dist <= 5 && 5 - dist <= i <= 5 + dist && 0 <= s < 4
}

/// Probe `(d1, i1, s1)` comes before probe `(d2, i2, s2)` in the scan: rings
/// expand outward, the sweep index rises within a ring, and the four sides
/// are probed in their fixed order at each index.
pub open spec fn probe_before(d1: int, i1: int, s1: int, d2: int, i2: int, s2: int) -> bool {
    d1 < d2 || (d1 == d2 && (i1 < i2 || (i1 == i2 && s1 < s2)))
}

/// Every probe before `(dist, i, s)` saw the sentinel, given that the rings
/// below `dist` are clear, the sweep below `i` saw only sentinels, and so did
/// the sides already probed at `i`.
proof fn lemma_probe_prefix_clear(pixels: Seq<i32>, dist: int, i: int, s: int)
    requires
        pixels.len() == 121,
        probe_valid(dist, i, s),
        rings_clear_below(pixels, dist),
        forall|i2: int|
            5 - dist <= i2 < i ==> (#[trigger] pixels[(5 - dist) * 11 + i2]) == -1 && pixels[(5
                + dist) * 11 + i2] == -1 && pixels[i2 * 11 + (5 - dist)] == -1 && pixels[i2 * 11 + (
            5 + dist)] == -1,
        s >= 1 ==> pixels[(5 - dist) * 11 + i] == -1,
        s >= 2 ==> pixels[(5 + dist) * 11 + i] == -1,
        s >= 3 ==> pixels[i * 11 + (5 - dist)] == -1,
    ensures
        forall|d2: int, i2: int, s2: int|
            #[trigger] probe_valid(d2, i2, s2) && probe_before(d2, i2, s2, dist, i, s)
                ==> pixels[probe_y(d2, i2, s2) * 11 + probe_x(d2, i2, s2)] == -1,
{
    assert forall|d2: int, i2: int, s2: int|
        #[trigger] probe_valid(d2, i2, s2) && probe_before(d2, i2, s2, dist, i, s)
        implies pixels[probe_y(d2, i2, s2) * 11 + probe_x(d2, i2, s2)] == -1 by {
        let px = probe_x(d2, i2, s2);
        let py = probe_y(d2, i2, s2);
        if d2 < dist {
            assert(0 <= px < 11 && 0 <= py < 11);
            assert(ring_of(px, py) == d2);
            assert(pixels[py * 11 + px] == -1);
        } else if i2 < i {
            assert(pixels[(5 - dist) * 11 + i2] == -1);
        }
    };
}

/// Scans the grid outward from the center in expanding concentric rings and
/// returns the first non-sentinel way id found; `-1` exactly when the whole
/// grid is sentinel. A returned id lies on the closest non-empty ring (every
/// ring nearer the center is entirely sentinel), and more precisely it is the
/// value of the first non-sentinel cell in the scan's fixed probe order.
pub fn find_closest_way_id_to_center(pixels: &[i32]) -> (r: i32)
    requires
        pixels@.len() == 121,
    ensures
        r == -1 <==> (forall|x: int, y: int|
            0 <= x < 11 && 0 <= y < 11 ==> (#[trigger] pixels@[y * 11 + x]) == -1),
        r != -1 ==> exists|x: int, y: int|
            0 <= x < 11 && 0 <= y < 11 && #[trigger] pixels@[y * 11 + x] == r
                && rings_clear_below(pixels@, ring_of(x, y)),
        r != -1 ==> exists|dist: int, i: int, s: int|
            #[trigger] probe_valid(dist, i, s) && pixels@[probe_y(dist, i, s) * 11 + probe_x(
                dist,
                i,
                s,
            )] == r && forall|d2: int, i2: int, s2: int|
                #[trigger] probe_valid(d2, i2, s2) && probe_before(d2, i2, s2, dist, i, s)
                    ==> pixels@[probe_y(d2, i2, s2) * 11 + probe_x(d2, i2, s2)] == -1,
{
    let center_val: i32 = WAY_FINDER_RES / 2;
    let mut dist: i32 = 0;
    while dist <= center_val
        invariant
            0 <= dist <= center_val + 1,
            center_val == 5,
            pixels@.len() == 121,
            rings_clear_below(pixels@, dist as int),
        decreases center_val - dist + 1,
    {
        let lower_idx: i32 = center_val - dist;
        let higher_idx: i32 = center_val + dist;
        let mut i: i32 = lower_idx;
        while i <= higher_idx
            invariant
                center_val == 5,
                0 <= dist <= 5,
                lower_idx == 5 - dist,
                higher_idx == 5 + dist,
                lower_idx <= i <= higher_idx + 1,
                pixels@.len() == 121,
                rings_clear_below(pixels@, dist as int),
                forall|i2: int|
                    lower_idx <= i2 < i ==> #[trigger] pixels@[(5 - dist) * 11 + i2] == -1
                        && pixels@[(5 + dist) * 11 + i2] == -1
                        && pixels@[i2 * 11 + (5 - dist)] == -1
                        && pixels@[i2 * 11 + (5 + dist)] == -1,
            decreases higher_idx - i + 1,
        {
            let a: i32 = pixel_from_buffer(pixels, i, lower_idx);
            if a != -1 {
                proof {
                    lemma_probe_prefix_clear(pixels@, dist as int, i as int, 0);
                    assert(pixels@[probe_y(dist as int, i as int, 0) * 11 + probe_x(
                        dist as int,
                        i as int,
                        0,
                    )] == a);
                    assert(probe_valid(dist as int, i as int, 0));
                }
                return a;
            }
            let b: i32 = pixel_from_buffer(pixels, i, higher_idx);
            if b != -1 {
                proof {
                    lemma_probe_prefix_clear(pixels@, dist as int, i as int, 1);
                    assert(pixels@[probe_y(dist as int, i as int, 1) * 11 + probe_x(
                        dist as int,
                        i as int,
                        1,
                    )] == b);
                    assert(probe_valid(dist as int, i as int, 1));
                }
                return b;
            }
            let c: i32 = pixel_from_buffer(pixels, lower_idx, i);
            if c != -1 {
                proof {
                    lemma_probe_prefix_clear(pixels@, dist as int, i as int, 2);
                    assert(pixels@[probe_y(dist as int, i as int, 2) * 11 + probe_x(
                        dist as int,
                        i as int,
                        2,
                    )] == c);
                    assert(probe_valid(dist as int, i as int, 2));
                }
                return c;
            }
            let e: i32 = pixel_from_buffer(pixels, higher_idx, i);
            if e != -1 {
                proof {
                    lemma_probe_prefix_clear(pixels@, dist as int, i as int, 3);
                    assert(pixels@[probe_y(dist as int, i as int, 3) * 11 + probe_x(
                        dist as int,
                        i as int,
                        3,
                    )] == e);
                    assert(probe_valid(dist as int, i as int, 3));
                }
                return e;
            }
            i = i + 1;
        }
        proof {
            // The whole ring at `dist` was probed: any cell on it lies on the
            // ring's top or bottom row or left or right column.
            assert forall|x: int, y: int|
                0 <= x < 11 && 0 <= y < 11 && ring_of(x, y) < dist + 1
                implies pixels@[y * 11 + x] == -1 by {
                if ring_of(x, y) == dist as int {
                    assert(pixels@[(5 - dist) * 11 + x] == -1);
                    assert(pixels@[(5 - dist) * 11 + y] == -1);
                    if y == 5 - dist {
                        assert(pixels@[(5 - dist) * 11 + x] == -1);
                    } else if y == 5 + dist {
                        assert(pixels@[(5 + dist) * 11 + x] == -1);
                    } else if x == 5 - dist {
                        assert(pixels@[y * 11 + (5 - dist)] == -1);
                    } else {
                        assert(x == 5 + dist);
                        assert(pixels@[y * 11 + (5 + dist)] == -1);
                    }
                }
            };
        }
        dist = dist + 1;
    }
    proof {
        assert forall|x: int, y: int| 0 <= x < 11 && 0 <= y < 11
            implies (#[trigger] pixels@[y * 11 + x]) == -1 by {
            assert(ring_of(x, y) < 6);
        };
    }
    -1
}

/// The interpolated longitude of sample `step` (in tenths) along segment
/// `seg` of way `w`.
pub open spec fn sample_long(d: Data, w: int, seg: int, step: int) -> int {
    let n1 = d.nodes@[d.ways@[w].nodes@[seg] as int];
    let n2 = d.nodes@[d.ways@[w].nodes@[seg + 1] as int];
    n1.long + tdiv((n2.long - n1.long) * step, 10)
}

/// The interpolated latitude of sample `step` along segment `seg` of way `w`.
pub open spec fn sample_lat(d: Data, w: int, seg: int, step: int) -> int {
    let n1 = d.nodes@[d.ways@[w].nodes@[seg] as int];
    let n2 = d.nodes@[d.ways@[w].nodes@[seg + 1] as int];
    n1.lat + tdiv((n2.lat - n1.lat) * step, 10)
}

/// The squared planar distance, in decimicro-degrees, from the cursor to a
/// sample of way `w`.
pub open spec fn sample_dist2(d: Data, w: int, seg: int, step: int, coord: GeoCoord) -> int {
    let dl = sample_long(d, w, seg, step) - coord.long;
    let dt = sample_lat(d, w, seg, step) - coord.lat;
    dl * dl + dt * dt
}

/// The cursor coordinate is within the picker's admitted range.
pub open spec fn valid_coord(c: GeoCoord) -> bool {
    -COORD_LIMIT as int <= c.long <= COORD_LIMIT as int && -COORD_LIMIT as int <= c.lat
        <= COORD_LIMIT as int
}

/// `r` refines `way_id` against `coord`: it names the lexicographically first
/// sample of the way whose squared distance to the cursor is smallest.
pub open spec fn refined_position(d: Data, way_id: int, coord: GeoCoord, r: WayPosition) -> bool {
    let best = sample_dist2(d, way_id, r.node_id as int, r.distance_to_next as int, coord);
    &&& r.way_id == way_id
    &&& 0 <= r.node_id < d.ways@[way_id].nodes@.len() - 1
    &&& 0 <= r.distance_to_next < 10
    &&& forall|seg: int, step: int|
        0 <= seg < d.ways@[way_id].nodes@.len() - 1 && 0 <= step < 10
            ==> best <= #[trigger] sample_dist2(d, way_id, seg, step, coord)
    &&& forall|seg: int, step: int|
        0 <= seg < d.ways@[way_id].nodes@.len() - 1 && 0 <= step < 10 && (seg < r.node_id || (seg
            == r.node_id && step < r.distance_to_next))
            ==> best < #[trigger] sample_dist2(d, way_id, seg, step, coord)
}

/// Walks every sampled position of the given way and returns the position of
/// the sample closest to the cursor (the first such sample on ties). The
/// sentinel id passes through; a way of fewer than two nodes cannot be
/// refined and keeps its first segment with a zero offset.
pub fn find_way_position(data: &Data, way_id: i32, coord: &GeoCoord) -> (r: WayPosition)
    requires
        valid_data(*data),
        way_id == -1 || 0 <= way_id < data.ways@.len(),
        valid_coord(*coord),
    ensures
        way_id == -1 ==> r == (WayPosition { way_id: -1i32, node_id: 0usize, distance_to_next: 0u8 }),
        way_id != -1 && data.ways@[way_id as int].nodes@.len() < 2 ==> r == (WayPosition {
            way_id,
            node_id: 0usize,
            distance_to_next: 0u8,
        }),
        way_id != -1 && data.ways@[way_id as int].nodes@.len() >= 2 ==> refined_position(
            *data,
            way_id as int,
            *coord,
            r,
        ),
{
    if way_id == -1 {
        return WayPosition { way_id: -1, node_id: 0, distance_to_next: 0 };
    }
    let way_len: usize = data.ways[way_id as usize].nodes.len();
    if way_len < 2 {
        return WayPosition { way_id, node_id: 0, distance_to_next: 0 };
    }
    let segs: usize = way_len - 1;
    let mut best_d2: u128 = sample_d2(data, way_id as usize, 0, 0, coord);
    let mut best_seg: usize = 0;
    let mut best_step: u8 = 0;
    let mut seg: usize = 0;
    while seg < segs
        invariant
            valid_data(*data),
            0 <= way_id < data.ways@.len(),
            valid_coord(*coord),
            way_len == data.ways@[way_id as int].nodes@.len(),
            segs == way_len - 1,
            way_len >= 2,
            seg <= segs,
            best_seg < segs,
            best_step < 10,
            best_d2 == sample_dist2(*data, way_id as int, best_seg as int, best_step as int, *coord),
            forall|s2: int, t2: int|
                0 <= s2 < segs && 0 <= t2 < 10 && (s2 < seg)
                    ==> best_d2 <= #[trigger] sample_dist2(*data, way_id as int, s2, t2, *coord),
            forall|s2: int, t2: int|
                0 <= s2 < segs && 0 <= t2 < 10 && s2 < seg && (s2 < best_seg || (s2 == best_seg
                    && t2 < best_step))
                    ==> best_d2 < #[trigger] sample_dist2(*data, way_id as int, s2, t2, *coord),
            best_seg < seg || (seg == 0 && best_seg == 0 && best_step == 0),
        decreases segs - seg,
    {
        let mut step: u8 = 0;
        while step < SEG_STEPS
            invariant
                valid_data(*data),
                0 <= way_id < data.ways@.len(),
                valid_coord(*coord),
                way_len == data.ways@[way_id as int].nodes@.len(),
                segs == way_len - 1,
                way_len >= 2,
                seg < segs,
                step <= 10,
                best_seg < segs,
                best_step < 10,
                best_d2 == sample_dist2(
                    *data,
                    way_id as int,
                    best_seg as int,
                    best_step as int,
                    *coord,
                ),
                forall|s2: int, t2: int|
                    0 <= s2 < segs && 0 <= t2 < 10 && (s2 < seg || (s2 == seg && t2 < step))
                        ==> best_d2 <= #[trigger] sample_dist2(*data, way_id as int, s2, t2, *coord),
                forall|s2: int, t2: int|
                    0 <= s2 < segs && 0 <= t2 < 10 && (s2 < seg || (s2 == seg && t2 < step)) && (s2
                        < best_seg || (s2 == best_seg && t2 < best_step))
                        ==> best_d2 < #[trigger] sample_dist2(*data, way_id as int, s2, t2, *coord),
                best_seg < seg || (best_seg == seg && best_step <= step),
            decreases SEG_STEPS - step,
        {
            let d2: u128 = sample_d2(data, way_id as usize, seg, step, coord);
            if d2 < best_d2 {
                best_d2 = d2;
                best_seg = seg;
                best_step = step;
            }
            step = step + 1;
        }
        seg = seg + 1;
    }
    WayPosition { way_id, node_id: best_seg, distance_to_next: best_step }
}

/// Computes the interpolated sample position in machine integers.
fn sample_point(data: &Data, w: usize, seg: usize, step: u8) -> (r: (i64, i64))
    requires
        valid_data(*data),
        w < data.ways@.len(),
        seg + 1 < data.ways@[w as int].nodes@.len(),
        step <= 10,
    ensures
        r.0 == sample_long(*data, w as int, seg as int, step as int),
        r.1 == sample_lat(*data, w as int, seg as int, step as int),
        -7_000_000_000 <= r.0 <= 7_000_000_000,
        -7_000_000_000 <= r.1 <= 7_000_000_000,
{
    // Reading the length as a machine integer also bounds `seg + 1` below.
    let way_node_count: usize = data.ways[w].nodes.len();
    let next: usize = seg + 1;
    let i1: usize = data.ways[w].nodes[seg];
    let i2: usize = data.ways[w].nodes[next];
    let n1 = data.nodes[i1];
    let n2 = data.nodes[i2];
    proof {
        assert(-43_000_000_000 <= (n2.long - n1.long) * step as int <= 43_000_000_000)
            by (nonlinear_arith)
            requires
                -4_294_967_296 <= n2.long - n1.long <= 4_294_967_296,
                0 <= step <= 10;
        assert(-43_000_000_000 <= (n2.lat - n1.lat) * step as int <= 43_000_000_000)
            by (nonlinear_arith)
            requires
                -4_294_967_296 <= n2.lat - n1.lat <= 4_294_967_296,
                0 <= step <= 10;
        lemma_tdiv_mag((n2.long - n1.long) * step as int, 10, 43_000_000_000, 10, 4_300_000_000);
        lemma_tdiv_mag((n2.lat - n1.lat) * step as int, 10, 43_000_000_000, 10, 4_300_000_000);
    }
    let sl: i64 = n1.long as i64 + (tdiv128(
        ((n2.long as i64 - n1.long as i64) as i128) * (step as i128),
        10,
    ) as i64);
    let st: i64 = n1.lat as i64 + (tdiv128(
        ((n2.lat as i64 - n1.lat as i64) as i128) * (step as i128),
        10,
    ) as i64);
    (sl, st)
}

/// Computes `sample_dist2` in machine integers.
fn sample_d2(data: &Data, w: usize, seg: usize, step: u8, coord: &GeoCoord) -> (r: u128)
    requires
        valid_data(*data),
        w < data.ways@.len(),
        seg + 1 < data.ways@[w as int].nodes@.len(),
        step <= 10,
        valid_coord(*coord),
    ensures
        r == sample_dist2(*data, w as int, seg as int, step as int, *coord),
{
    let p: (i64, i64) = sample_point(data, w, seg, step);
    let dl: i128 = (p.0 as i128) - (coord.long as i128);
    let dt: i128 = (p.1 as i128) - (coord.lat as i128);
    proof {
        assert(0 <= dl * dl <= 49_000_000_000_000_000_000_000_000_000_000_000_000i128)
            by (nonlinear_arith)
            requires -7_000_000_000_000_000_000 <= dl <= 7_000_000_000_000_000_000;
        assert(0 <= dt * dt <= 49_000_000_000_000_000_000_000_000_000_000_000_000i128)
            by (nonlinear_arith)
            requires -7_000_000_000_000_000_000 <= dt <= 7_000_000_000_000_000_000;
    }
    ((dl * dl) as u128) + ((dt * dt) as u128)
}

/// Samples farther than this from the raster center are discarded before any
/// wide multiplication, in decimicro-degrees (well past the world's span).
pub const RASTER_SPAN: i64 = 4_000_000_000;

/// The raster column of a longitude, for an 11-cell tile at the given scale
/// and center; outside the discard span the column is off-grid.
pub open spec fn g2p_x(scale: int, center: GeoCoord, long: int) -> int {
    let dl = long - center.long;
    if dl < -RASTER_SPAN || RASTER_SPAN < dl {
        -1
    } else {
        let c = cos_dmd_spec(center.lat as int);
        let xn = tdiv(dl * (11 * scale * c), crate::viewport::GEO_UNITS as int);
        tdiv(11 + xn, 2)
    }
}

/// The raster row of a latitude, for an 11-cell tile at the given scale and
/// center; outside the discard span the row is off-grid.
pub open spec fn g2p_y(scale: int, center: GeoCoord, lat: int) -> int {
    let dt = lat - center.lat;
    if dt < -RASTER_SPAN || RASTER_SPAN < dt {
        -1
    } else {
        let yn = tdiv(dt * (11 * scale), crate::viewport::LAT_UNITS as int);
        tdiv(11 - yn, 2)
    }
}

/// Computes the raster cell of a geographic position in machine integers.
fn geo_to_cell(scale: u64, center: &GeoCoord, long: i64, lat: i64, c: i64) -> (r: (i64, i64))
    requires
        1 <= scale <= PICK_SCALE_LIMIT,
        valid_coord(*center),
        c == cos_dmd_spec(center.lat as int),
        0 <= c <= 1_000_000,
        -7_000_000_000 <= long <= 7_000_000_000,
        -7_000_000_000 <= lat <= 7_000_000_000,
    ensures
        r.0 == g2p_x(scale as int, *center, long as int),
        r.1 == g2p_y(scale as int, *center, lat as int),
{
    let dl: i128 = (long as i128) - (center.long as i128);
    let dt: i128 = (lat as i128) - (center.lat as i128);
    let px: i64 = if dl < -(RASTER_SPAN as i128) || (RASTER_SPAN as i128) < dl {
        -1
    } else {
        proof {
            assert(0 <= 11 * (scale as i128) * (c as i128)
                <= 1_100_000_000_000_000_000_000i128) by (nonlinear_arith)
                requires
                    1 <= scale <= 100_000_000_000_000u64,
                    0 <= c <= 1_000_000;
            assert(-4_400_000_000_000_000_000_000_000_000_000i128 <= dl * (11 * (scale as i128) * (
            c as i128)) <= 4_400_000_000_000_000_000_000_000_000_000i128) by (nonlinear_arith)
                requires
                    -4_000_000_000 <= dl <= 4_000_000_000,
                    1 <= scale <= 100_000_000_000_000u64,
                    0 <= c <= 1_000_000;
            lemma_tdiv_mag(
                (dl * (11 * (scale as i128) * (c as i128))) as int,
                crate::viewport::GEO_UNITS as int,
                4_400_000_000_000_000_000_000_000_000_000,
                10_000_000_000_000_000_000,
                440_000_000_000,
            );
        }
        let xn: i128 = tdiv128(dl * (11 * (scale as i128) * (c as i128)), crate::viewport::GEO_UNITS);
        tdiv128(11 + xn, 2) as i64
    };
    let py: i64 = if dt < -(RASTER_SPAN as i128) || (RASTER_SPAN as i128) < dt {
        -1
    } else {
        proof {
            assert(-4_400_000_000_000_000_000_000_000i128 <= dt * (11 * (scale as i128))
                <= 4_400_000_000_000_000_000_000_000i128) by (nonlinear_arith)
                requires
                    -4_000_000_000 <= dt <= 4_000_000_000,
                    1 <= scale <= 100_000_000_000_000u64;
            lemma_tdiv_mag(
                (dt * (11 * (scale as i128))) as int,
                crate::viewport::LAT_UNITS as int,
                4_400_000_000_000_000_000_000_000,
                10_000_000_000_000,
                440_000_000_000,
            );
        }
        let yn: i128 = tdiv128(dt * (11 * (scale as i128)), crate::viewport::LAT_UNITS);
        tdiv128(11 - yn, 2) as i64
    };
    (px, py)
}

/// Sample `(seg, step)` of way `w` lands in grid cell `cell`.
pub open spec fn sample_hits_cell(
    d: Data,
    scale: int,
    center: GeoCoord,
    w: int,
    seg: int,
    step: int,
    cell: int,
) -> bool {
    let px = g2p_x(scale, center, sample_long(d, w, seg, step));
    let py = g2p_y(scale, center, sample_lat(d, w, seg, step));
    0 <= px < 11 && 0 <= py < 11 && cell == py * 11 + px
}

/// Some sample of way `w` lands in grid cell `cell`.
pub open spec fn way_hits_cell(d: Data, scale: int, center: GeoCoord, w: int, cell: int) -> bool {
    exists|seg: int, step: int|
        0 <= seg < d.ways@[w].nodes@.len() - 1 && 0 <= step <= 10 && #[trigger] sample_hits_cell(
            d,
            scale,
            center,
            w,
            seg,
            step,
            cell,
        )
}

/// Cell `cell` holds `v`, the largest index below `upto` of a way that lands
/// in it, or the sentinel when none does.
pub open spec fn grid_cell_ok(
    d: Data,
    scale: int,
    center: GeoCoord,
    upto: int,
    cell: int,
    v: i32,
) -> bool {
    &&& (v == -1 || (0 <= v < upto && way_hits_cell(d, scale, center, v as int, cell)))
    &&& forall|w: int|
        0 <= w < upto && v < w ==> !#[trigger] way_hits_cell(d, scale, center, w, cell)
}

/// A sample of way `w` at a position lexicographically before `(seg, step)`
/// lands in `cell`.
pub open spec fn hit_before(
    d: Data,
    scale: int,
    center: GeoCoord,
    w: int,
    seg: int,
    step: int,
    cell: int,
) -> bool {
    exists|s: int, t: int|
        0 <= s < d.ways@[w].nodes@.len() - 1 && 0 <= t <= 10 && (s < seg || (s == seg && t < step))
            && #[trigger] sample_hits_cell(d, scale, center, w, s, t, cell)
}

/// Draws every way with at least two nodes into an 11-by-11 grid of way
/// indices centered on `center` at the given scale, by sampling each segment
/// at eleven evenly spaced points; later ways overwrite earlier ones, so each
/// cell holds the largest index of a way landing in it, or the sentinel.
pub fn render_way_ids(data: &Data, scale: u64, center: &GeoCoord) -> (r: Vec<i32>)
    requires
        valid_data(*data),
        1 <= scale <= PICK_SCALE_LIMIT,
        valid_coord(*center),
        data.ways@.len() <= 2_147_483_647,
    ensures
        r@.len() == 121,
        forall|cell: int|
            0 <= cell < 121 ==> grid_cell_ok(
                *data,
                scale as int,
                *center,
                data.ways@.len() as int,
                cell,
                #[trigger] r@[cell],
            ),
{
    let ghost d = *data;
    let mut grid: Vec<i32> = Vec::new();
    while grid.len() < 121
        invariant
            grid@.len() <= 121,
            forall|cell: int| 0 <= cell < grid@.len() ==> (#[trigger] grid@[cell]) == -1,
        decreases 121 - grid@.len(),
    {
        grid.push(-1);
    }
    let c: i64 = cos_dmd(center.lat);
    let mut w: usize = 0;
    while w < data.ways.len()
        invariant
            *data == d,
            valid_data(d),
            1 <= scale <= PICK_SCALE_LIMIT,
            valid_coord(*center),
            d.ways@.len() <= 2_147_483_647,
            c == cos_dmd_spec(center.lat as int),
            0 <= c <= 1_000_000,
            w <= d.ways@.len(),
            grid@.len() == 121,
            forall|cell: int|
                0 <= cell < 121 ==> grid_cell_ok(
                    d,
                    scale as int,
                    *center,
                    w as int,
                    cell,
                    #[trigger] grid@[cell],
                ),
        decreases d.ways@.len() - w,
    {
        let way_len: usize = data.ways[w].nodes.len();
        if way_len >= 2 {
            let segs: usize = way_len - 1;
            let ghost prev = grid@;
            let mut seg: usize = 0;
            while seg < segs
                invariant
                    *data == d,
                    valid_data(d),
                    1 <= scale <= PICK_SCALE_LIMIT,
                    valid_coord(*center),
                    d.ways@.len() <= 2_147_483_647,
                    c == cos_dmd_spec(center.lat as int),
                    0 <= c <= 1_000_000,
                    w < d.ways@.len(),
                    way_len == d.ways@[w as int].nodes@.len(),
                    segs == way_len - 1,
                    way_len >= 2,
                    seg <= segs,
                    grid@.len() == 121,
                    prev.len() == 121,
                    forall|cell: int|
                        0 <= cell < 121 ==> grid_cell_ok(
                            d,
                            scale as int,
                            *center,
                            w as int,
                            cell,
                            #[trigger] prev[cell],
                        ),
                    forall|cell: int|
                        0 <= cell < 121 ==> {
                            ||| ((#[trigger] grid@[cell]) == w as i32 && hit_before(
                                d,
                                scale as int,
                                *center,
                                w as int,
                                seg as int,
                                0,
                                cell,
                            ))
                            ||| (grid@[cell] == prev[cell] && !hit_before(
                                d,
                                scale as int,
                                *center,
                                w as int,
                                seg as int,
                                0,
                                cell,
                            ))
                        },
                decreases segs - seg,
            {
                let mut step: u8 = 0;
                while step <= 10
                    invariant
                        *data == d,
                        valid_data(d),
                        1 <= scale <= PICK_SCALE_LIMIT,
                        valid_coord(*center),
                        d.ways@.len() <= 2_147_483_647,
                        c == cos_dmd_spec(center.lat as int),
                        0 <= c <= 1_000_000,
                        w < d.ways@.len(),
                        way_len == d.ways@[w as int].nodes@.len(),
                        segs == way_len - 1,
                        way_len >= 2,
                        seg < segs,
                        step <= 11,
                        grid@.len() == 121,
                        prev.len() == 121,
                        forall|cell: int|
                            0 <= cell < 121 ==> grid_cell_ok(
                                d,
                                scale as int,
                                *center,
                                w as int,
                                cell,
                                #[trigger] prev[cell],
                            ),
                        forall|cell: int|
                            0 <= cell < 121 ==> {
                                ||| ((#[trigger] grid@[cell]) == w as i32 && hit_before(
                                    d,
                                    scale as int,
                                    *center,
                                    w as int,
                                    seg as int,
                                    step as int,
                                    cell,
                                ))
                                ||| (grid@[cell] == prev[cell] && !hit_before(
                                    d,
                                    scale as int,
                                    *center,
                                    w as int,
                                    seg as int,
                                    step as int,
                                    cell,
                                ))
                            },
                    decreases 11 - step,
                {
                    let p: (i64, i64) = sample_point(data, w, seg, step);
                    let cell_xy: (i64, i64) = geo_to_cell(scale, center, p.0, p.1, c);
                    let ghost before_set = grid@;
                    if 0 <= cell_xy.0 && cell_xy.0 < 11 && 0 <= cell_xy.1 && cell_xy.1 < 11 {
                        let cell: usize = (cell_xy.1 * 11 + cell_xy.0) as usize;
                        grid.set(cell, w as i32);
                        proof {
                            assert(sample_hits_cell(
                                d,
                                scale as int,
                                *center,
                                w as int,
                                seg as int,
                                step as int,
                                cell as int,
                            ));
                        }
                    }
                    proof {
                        assert forall|cell: int| 0 <= cell < 121 implies {
                            ||| ((#[trigger] grid@[cell]) == w as i32 && hit_before(
                                d,
                                scale as int,
                                *center,
                                w as int,
                                seg as int,
                                step as int + 1,
                                cell,
                            ))
                            ||| (grid@[cell] == prev[cell] && !hit_before(
                                d,
                                scale as int,
                                *center,
                                w as int,
                                seg as int,
                                step as int + 1,
                                cell,
                            ))
                        } by {
                            let px = g2p_x(
                                scale as int,
                                *center,
                                sample_long(d, w as int, seg as int, step as int),
                            );
                            let py = g2p_y(
                                scale as int,
                                *center,
                                sample_lat(d, w as int, seg as int, step as int),
                            );
                            if 0 <= px < 11 && 0 <= py < 11 && cell == py * 11 + px {
                                assert(sample_hits_cell(
                                    d,
                                    scale as int,
                                    *center,
                                    w as int,
                                    seg as int,
                                    step as int,
                                    cell,
                                ));
                                assert(grid@[cell] == w as i32);
                            } else {
                                assert(!sample_hits_cell(
                                    d,
                                    scale as int,
                                    *center,
                                    w as int,
                                    seg as int,
                                    step as int,
                                    cell,
                                ));
                                assert(grid@[cell] == before_set[cell]);
                                assert forall|s: int, t: int|
                                    0 <= s < way_len - 1 && 0 <= t <= 10 && (s < seg as int || (s
                                        == seg as int && t < step as int + 1))
                                        && #[trigger] sample_hits_cell(
                                        d,
                                        scale as int,
                                        *center,
                                        w as int,
                                        s,
                                        t,
                                        cell,
                                    ) implies (s < seg as int || (s == seg as int && t
                                    < step as int)) by {
                                    if s == seg as int && t == step as int {
                                        assert(false);
                                    }
                                };
                            }
                        };
                    }
                    step = step + 1;
                }
                proof {
                    assert forall|cell: int| 0 <= cell < 121 implies hit_before(
                        d,
                        scale as int,
                        *center,
                        w as int,
                        seg as int + 1,
                        0,
                        cell,
                    ) == hit_before(d, scale as int, *center, w as int, seg as int, 11, cell) by {
                        if hit_before(d, scale as int, *center, w as int, seg as int + 1, 0, cell) {
                            let (s, t) = choose|s: int, t: int|
                                0 <= s < d.ways@[w as int].nodes@.len() - 1 && 0 <= t <= 10 && (s
                                    < seg as int + 1 || (s == seg as int + 1 && t < 0))
                                    && #[trigger] sample_hits_cell(
                                    d,
                                    scale as int,
                                    *center,
                                    w as int,
                                    s,
                                    t,
                                    cell,
                                );
                            assert(s < seg as int || (s == seg as int && t < 11));
                            assert(hit_before(d, scale as int, *center, w as int, seg as int, 11, cell));
                        }
                        if hit_before(d, scale as int, *center, w as int, seg as int, 11, cell) {
                            let (s, t) = choose|s: int, t: int|
                                0 <= s < d.ways@[w as int].nodes@.len() - 1 && 0 <= t <= 10 && (s
                                    < seg as int || (s == seg as int && t < 11))
                                    && #[trigger] sample_hits_cell(
                                    d,
                                    scale as int,
                                    *center,
                                    w as int,
                                    s,
                                    t,
                                    cell,
                                );
                            assert(s < seg as int + 1);
                            assert(hit_before(d, scale as int, *center, w as int, seg as int + 1, 0, cell));
                        }
                    };
                }
                seg = seg + 1;
            }
            proof {
                assert forall|cell: int| 0 <= cell < 121 implies grid_cell_ok(
                    d,
                    scale as int,
                    *center,
                    w as int + 1,
                    cell,
                    #[trigger] grid@[cell],
                ) by {
                    if grid@[cell] == w as i32 && hit_before(
                        d,
                        scale as int,
                        *center,
                        w as int,
                        segs as int,
                        0,
                        cell,
                    ) {
                        assert(way_hits_cell(d, scale as int, *center, w as int, cell));
                    } else {
                        assert(grid@[cell] == prev[cell]);
                        assert(!way_hits_cell(d, scale as int, *center, w as int, cell)) by {
                            if way_hits_cell(d, scale as int, *center, w as int, cell) {
                                let (s, t) = choose|s: int, t: int|
                                    0 <= s < d.ways@[w as int].nodes@.len() - 1 && 0 <= t <= 10
                                        && #[trigger] sample_hits_cell(
                                        d,
                                        scale as int,
                                        *center,
                                        w as int,
                                        s,
                                        t,
                                        cell,
                                    );
                                assert(hit_before(
                                    d,
                                    scale as int,
                                    *center,
                                    w as int,
                                    segs as int,
                                    0,
                                    cell,
                                ));
                            }
                        }
                    }
                };
            }
        } else {
            proof {
                assert forall|cell: int| 0 <= cell < 121 implies grid_cell_ok(
                    d,
                    scale as int,
                    *center,
                    w as int + 1,
                    cell,
                    #[trigger] grid@[cell],
                ) by {
                    assert(!way_hits_cell(d, scale as int, *center, w as int, cell)) by {
                        if way_hits_cell(d, scale as int, *center, w as int, cell) {
                            let (s, t) = choose|s: int, t: int|
                                0 <= s < d.ways@[w as int].nodes@.len() - 1 && 0 <= t <= 10
                                    && #[trigger] sample_hits_cell(
                                    d,
                                    scale as int,
                                    *center,
                                    w as int,
                                    s,
                                    t,
                                    cell,
                                );
                            assert(false);
                        }
                    }
                };
            }
        }
        w = w + 1;
    }
    grid
}

/// `r` is what a nearest-way query against `cursor` may produce: the
/// sentinel, or a refinable way refined to its closest sample.
pub open spec fn nearest_ok(d: Data, cursor: GeoCoord, r: WayPosition) -> bool {
    if r.way_id == -1 {
        r == (WayPosition { way_id: -1i32, node_id: 0usize, distance_to_next: 0u8 })
    } else {
        &&& 0 <= r.way_id < d.ways@.len()
        &&& d.ways@[r.way_id as int].nodes@.len() >= 2
        &&& refined_position(d, r.way_id as int, cursor, r)
    }
}

/// The interpolated geographic coordinate of a way position, or nothing for
/// the sentinel.
pub fn way_position_to_geocoord(data: &Data, position: &WayPosition) -> (r: Option<GeoCoord>)
    requires
        valid_data(*data),
        position.way_id >= 0 ==> {
            &&& position.way_id < data.ways@.len()
            &&& position.node_id + 1 < data.ways@[position.way_id as int].nodes@.len()
            &&& position.distance_to_next <= 10
        },
    ensures
        position.way_id < 0 <==> r is None,
        position.way_id >= 0 ==> r == Some(
            GeoCoord {
                long: sample_long(
                    *data,
                    position.way_id as int,
                    position.node_id as int,
                    position.distance_to_next as int,
                ) as i64,
                lat: sample_lat(
                    *data,
                    position.way_id as int,
                    position.node_id as int,
                    position.distance_to_next as int,
                ) as i64,
            },
        ),
{
    if position.way_id < 0 {
        return None;
    }
    let p: (i64, i64) = sample_point(
        data,
        position.way_id as usize,
        position.node_id,
        position.distance_to_next,
    );
    Some(GeoCoord { long: p.0, lat: p.1 })
}

/// Some way lands somewhere in the raster tile at this scale and center.
pub open spec fn some_way_hits(d: Data, scale: int, center: GeoCoord) -> bool {
    exists|w: int, cell: int|
        0 <= w < d.ways@.len() && 0 <= cell < 121 && #[trigger] way_hits_cell(
            d,
            scale,
            center,
            w,
            cell,
        )
}

/// The stored-scale threshold below which the picker stops zooming out.
pub const PICK_SCALE_FLOOR: u64 = 50_000_000;

/// Some way lands in the raster tile at one of the trial scales the picker
/// tries from `scale` down: the scales above the floor reached by repeated
/// halving.
pub open spec fn picker_hits(d: Data, scale: int, center: GeoCoord) -> bool
    decreases scale,
{
    if scale <= PICK_SCALE_FLOOR {
        false
    } else {
        some_way_hits(d, scale, center) || picker_hits(d, scale / 2, center)
    }
}

/// Resolves the way nearest to a cursor coordinate: ways are rasterized
/// around the cursor at fifty times the view's scale, the grid is scanned
/// from its center outward, and the first way found is refined to the sample
/// position closest to the cursor; if the grid is empty the scale is halved
/// and the pass retried, down to a floor, after which the sentinel position
/// is returned. A way comes back exactly when some way lands in the tile at
/// one of the tried scales.
pub fn find_nearest_way(data: &Data, base_scale: u64, cursor: &GeoCoord) -> (r: WayPosition)
    requires
        valid_data(*data),
        1 <= base_scale <= 1_000_000_000_000,
        valid_coord(*cursor),
        data.ways@.len() <= 2_147_483_647,
    ensures
        nearest_ok(*data, *cursor, r),
        r.way_id != -1 <==> picker_hits(*data, base_scale as int * 50, *cursor),
{
    let first_scale: u64 = base_scale * 50;
    let mut scale: u64 = first_scale;
    while scale > PICK_SCALE_FLOOR
        invariant
            valid_data(*data),
            valid_coord(*cursor),
            data.ways@.len() <= 2_147_483_647,
            first_scale == base_scale * 50,
            scale <= 50_000_000_000_000u64,
            picker_hits(*data, first_scale as int, *cursor) == picker_hits(
                *data,
                scale as int,
                *cursor,
            ),
        decreases scale,
    {
        let pixels: Vec<i32> = render_way_ids(data, scale, cursor);
        let way_id: i32 = find_closest_way_id_to_center(pixels.as_slice());
        proof {
            if way_id == -1 {
                // An all-sentinel grid means no way lands in this tile.
                assert forall|w2: int, cell: int|
                    0 <= w2 < data.ways@.len() && 0 <= cell < 121
                    implies !way_hits_cell(*data, scale as int, *cursor, w2, cell) by {
                    let x = cell % 11;
                    let y = cell / 11;
                    assert(cell == y * 11 + x);
                    assert(pixels@[y * 11 + x] == -1);
                    assert(grid_cell_ok(
                        *data,
                        scale as int,
                        *cursor,
                        data.ways@.len() as int,
                        cell,
                        pixels@[cell],
                    ));
                };
                assert(!some_way_hits(*data, scale as int, *cursor));
            }
            if way_id != -1 {
                let (x, y) = choose|x: int, y: int|
                    0 <= x < 11 && 0 <= y < 11 && #[trigger] pixels@[y * 11 + x] == way_id
                        && rings_clear_below(pixels@, ring_of(x, y));
                assert(grid_cell_ok(
                    *data,
                    scale as int,
                    *cursor,
                    data.ways@.len() as int,
                    y * 11 + x,
                    pixels@[y * 11 + x],
                ));
                assert(way_hits_cell(*data, scale as int, *cursor, way_id as int, y * 11 + x));
                let (s, t) = choose|s: int, t: int|
                    0 <= s < data.ways@[way_id as int].nodes@.len() - 1 && 0 <= t <= 10
                        && #[trigger] sample_hits_cell(
                        *data,
                        scale as int,
                        *cursor,
                        way_id as int,
                        s,
                        t,
                        y * 11 + x,
                    );
                assert(data.ways@[way_id as int].nodes@.len() >= 2);
                assert(some_way_hits(*data, scale as int, *cursor));
                assert(picker_hits(*data, scale as int, *cursor));
            }
        }
        let pos: WayPosition = find_way_position(data, way_id, cursor);
        if pos.way_id != -1 {
            return pos;
        }
        proof {
            // This pass missed: the remaining trials decide the outcome.
            assert(picker_hits(*data, scale as int, *cursor) == picker_hits(
                *data,
                scale as int / 2,
                *cursor,
            ));
        }
        scale = scale / 2;
    }
    proof {
        assert(!picker_hits(*data, scale as int, *cursor));
    }
    WayPosition { way_id: -1, node_id: 0, distance_to_next: 0 }
}

} // verus!
