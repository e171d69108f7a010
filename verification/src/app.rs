//! The orchestrator: owns the viewport, the hovered way position, the path
//! start and the planned path, and wires pointer, zoom and pan events
//! through the transform, the picker and the planner.

use vstd::prelude::*;
use crate::data::{Data, valid_data, clone_strings};
use crate::geom::GeoCoord;
use crate::graph::PathPlanner;
use crate::search::plan_path_post;
use crate::picker::{WayPosition, find_nearest_way, nearest_ok, valid_coord};
use crate::viewport::{
    PixelCoord, PixelOffset, Size, Viewport, ZoomFactor, geo_at_pixel, p2g_lat, p2g_long,
    pan_spec, valid_pixel, valid_size, zoom_spec, SCALE_ONE,
};
use crate::highlight::{Color, HighlightError, check_highlight_patterns, regex_valid};

verus! {

/// A way position is the sentinel or points into a real segment of its way.
pub open spec fn pos_wf(d: Data, p: WayPosition) -> bool {
    p.way_id == -1 || {
        &&& 0 <= p.way_id < d.ways@.len()
        &&& p.node_id + 1 < d.ways@[p.way_id as int].nodes@.len()
        &&& p.distance_to_next < 10
    }
}

/// The geographic coordinate under a pixel for a given viewport state.
pub open spec fn cursor_geo(v: Viewport, pixel: PixelCoord, vs: Size) -> GeoCoord {
    GeoCoord {
        long: p2g_long(
            v.scale as int,
            v.center,
            pixel.x as int,
            vs.width as int,
            vs.height as int,
        ) as i64,
        lat: p2g_lat(v.scale as int, v.center, pixel.y as int, vs.height as int) as i64,
    }
}

/// What one pass of the pointer logic leaves behind, for a given cursor and
/// viewport size: everything but the hover, the planned path and the stored
/// cursor is untouched; with no cursor both are cleared; with a cursor the
/// hover is the nearest way position under it - picked exactly when some way
/// lands in a raster tile at one of the tried scales - and the planned path
/// is the route between the start's node and the hover's node when both
/// exist, and empty otherwise.
pub open spec fn pointer_update_ok(pre: App, post: App, cursor: Option<PixelCoord>, vs: Size) -> bool {
    &&& post.planner == pre.planner
    &&& post.viewport == pre.viewport
    &&& post.path_start == pre.path_start
    &&& post.highlights == pre.highlights
    &&& post.debug == pre.debug
    &&& post.cursor == cursor
    &&& (cursor is None ==> post.way_position == (WayPosition {
        way_id: -1i32,
        node_id: 0usize,
        distance_to_next: 0u8,
    }) && post.planned_path@.len() == 0 && !post.planned_path_truncated)
    &&& (cursor is Some ==> nearest_ok(
        pre.planner.data,
        cursor_geo(pre.viewport, cursor->0, vs),
        post.way_position,
    ))
    &&& (cursor is Some ==> (post.way_position.way_id != -1 <==> crate::picker::picker_hits(
        pre.planner.data,
        pre.viewport.scale as int * 50,
        cursor_geo(pre.viewport, cursor->0, vs),
    )))
    &&& (!(post.path_start.way_id != -1 && post.way_position.way_id != -1)
        ==> post.planned_path@.len() == 0 && !post.planned_path_truncated)
    &&& (post.path_start.way_id != -1 && post.way_position.way_id != -1 ==> {
        let d = pre.planner.data;
        let s = d.ways@[post.path_start.way_id as int].nodes@[post.path_start.node_id as int];
        let e = d.ways@[post.way_position.way_id as int].nodes@[post.way_position.node_id as int];
        plan_path_post(
            d,
            s as int,
            e as int,
            pre.debug,
            post.planned_path@,
            post.planned_path_truncated,
        )
    })
}

/// The application: the planner over its graph data, the pan/zoom viewport,
/// the hovered way position, the start of the requested route, the planned
/// path (with the search's truncation flag beside it), the highlight list,
/// and the debug-view flag.
pub struct App {
    pub planner: PathPlanner,
    pub viewport: Viewport,
    pub path_start: WayPosition,
    pub way_position: WayPosition,
    pub planned_path: Vec<GeoCoord>,
    pub planned_path_truncated: bool,
    pub highlights: Vec<(String, Color)>,
    pub cursor: Option<PixelCoord>,
    pub debug: bool,
}

impl App {
    /// The application's state is consistent: the planner matches its data,
    /// the viewport is in its admitted ranges, and both way positions point
    /// into real ways or are the sentinel.
    pub open spec fn wf(self) -> bool {
        &&& self.planner.wf()
        &&& self.viewport.wf()
        &&& self.planner.data.ways@.len() <= 2_147_483_647
        &&& pos_wf(self.planner.data, self.path_start)
        &&& pos_wf(self.planner.data, self.way_position)
        &&& (self.cursor is Some ==> valid_pixel(self.cursor->0))
    }

    /// Builds the application over ingested graph data: the navigation graph
    /// is derived once, the view starts over a default center at a default
    /// scale, and nothing is selected.
    pub fn new(data: Data) -> (app: App)
        requires
            valid_data(data),
            data.ways@.len() <= 2_147_483_647,
        ensures
            app.wf(),
            app.planner.data == data,
            app.viewport.scale == 10 * SCALE_ONE,
            app.viewport.center == (GeoCoord { long: -1_231_539_460i64, lat: 492_578_280i64 }),
            app.path_start.way_id == -1,
            app.way_position.way_id == -1,
            app.planned_path@.len() == 0,
            !app.planned_path_truncated,
            app.highlights@.len() == 0,
            app.cursor is None,
            !app.debug,
    {
        let planner = PathPlanner::new(data);
        App {
            planner,
            viewport: Viewport {
                scale: 10 * SCALE_ONE,
                center: GeoCoord { long: -1_231_539_460, lat: 492_578_280 },
            },
            path_start: WayPosition { way_id: -1, node_id: 0, distance_to_next: 0 },
            way_position: WayPosition { way_id: -1, node_id: 0, distance_to_next: 0 },
            planned_path: Vec::new(),
            planned_path_truncated: false,
            highlights: Vec::new(),
            cursor: None,
            debug: false,
        }
    }

    /// Switches the planned path between route form and explored-set form.
    pub fn set_debug_mode(&mut self, enable: bool)
        requires
            old(self).wf(),
        ensures
            final(self).wf(),
            *final(self) == (App { debug: enable, ..*old(self) }),
    {
        self.debug = enable;
    }

    /// Snapshots the current hover position as the route start.
    pub fn start_path_plan(&mut self)
        requires
            old(self).wf(),
        ensures
            final(self).wf(),
            *final(self) == (App { path_start: old(self).way_position, ..*old(self) }),
    {
        self.path_start = self.way_position;
    }

    /// Clears the route start.
    pub fn clear_path_plan(&mut self)
        requires
            old(self).wf(),
        ensures
            final(self).wf(),
            *final(self) == (App {
                path_start: WayPosition { way_id: -1i32, node_id: 0usize, distance_to_next: 0u8 },
                ..*old(self)
            }),
    {
        self.path_start = WayPosition { way_id: -1, node_id: 0, distance_to_next: 0 };
    }

    /// The geographic coordinate under a screen pixel.
    pub fn pixel_to_geocoord(&self, pixel: &PixelCoord, viewport_size: &Size) -> (r: GeoCoord)
        requires
            self.wf(),
            valid_pixel(*pixel),
            valid_size(*viewport_size),
        ensures
            r == cursor_geo(self.viewport, *pixel, *viewport_size),
            valid_coord(r),
    {
        geo_at_pixel(self.viewport.scale, &self.viewport.center, pixel, viewport_size)
    }

    /// Changes the zoom level about an anchor pixel (an `amount` above one
    /// zooms in, below one zooms out), then re-runs the pointer logic so the
    /// hover and the planned path stay consistent with the new view.
    pub fn zoom(&mut self, amount: &ZoomFactor, zoom_center: &PixelCoord, viewport_size: &Size)
        requires
            old(self).wf(),
            amount.num >= 1,
            amount.den >= 1,
            valid_pixel(*zoom_center),
            valid_size(*viewport_size),
        ensures
            final(self).wf(),
            final(self).viewport == zoom_spec(
                old(self).viewport,
                *amount,
                *zoom_center,
                *viewport_size,
            ),
            pointer_update_ok(
                App {
                    viewport: zoom_spec(old(self).viewport, *amount, *zoom_center, *viewport_size),
                    ..*old(self)
                },
                *final(self),
                old(self).cursor,
                *viewport_size,
            ),
    {
        self.viewport.zoom(amount, zoom_center, viewport_size);
        self.refresh_pointer(viewport_size);
    }

    /// Moves the view by a pixel offset, then re-runs the pointer logic so
    /// the hover and the planned path stay consistent with the new view.
    pub fn move_map(&mut self, offset: &PixelOffset, viewport_size: &Size)
        requires
            old(self).wf(),
            crate::viewport::valid_offset(*offset),
            valid_size(*viewport_size),
        ensures
            final(self).wf(),
            final(self).viewport == pan_spec(old(self).viewport, *offset, *viewport_size),
            pointer_update_ok(
                App { viewport: pan_spec(old(self).viewport, *offset, *viewport_size), ..*old(self) },
                *final(self),
                old(self).cursor,
                *viewport_size,
            ),
    {
        self.viewport.pan(offset, viewport_size);
        self.refresh_pointer(viewport_size);
    }

    /// Resolves the way nearest to a cursor coordinate, by the picker's
    /// rasterize-scan-refine pass at the view's scale; a way comes back
    /// exactly when some way lands in the tile at one of the tried scales.
    pub fn find_nearest_way(&self, cursor: &GeoCoord) -> (r: WayPosition)
        requires
            self.wf(),
            valid_coord(*cursor),
        ensures
            nearest_ok(self.planner.data, *cursor, r),
            r.way_id != -1 <==> crate::picker::picker_hits(
                self.planner.data,
                self.viewport.scale as int * 50,
                *cursor,
            ),
    {
        find_nearest_way(&self.planner.data, self.viewport.scale, cursor)
    }

    /// Handles a pointer update. With no pointer, the hover and the planned
    /// path are cleared. Otherwise the pixel is converted to a geographic
    /// coordinate, the hover becomes the nearest way position, and, when both
    /// a route start and a hover exist, the path between their nodes is
    /// replanned; otherwise the planned path is cleared. The cursor is kept
    /// so zoom and pan commands can replay the same logic.
    pub fn update_cursor_pos(&mut self, cursor_pos: Option<&PixelCoord>, viewport_size: &Size)
        requires
            old(self).wf(),
            valid_size(*viewport_size),
            cursor_pos is Some ==> valid_pixel(*cursor_pos->0),
        ensures
            final(self).wf(),
            pointer_update_ok(
                *old(self),
                *final(self),
                if cursor_pos is Some {
                    Some(*cursor_pos->0)
                } else {
                    None
                },
                *viewport_size,
            ),
    {
        self.cursor = match cursor_pos {
            Some(pixel) => Some(*pixel),
            None => None,
        };
        self.refresh_pointer(viewport_size);
    }

    /// Re-runs the pointer logic against the stored cursor.
    fn refresh_pointer(&mut self, viewport_size: &Size)
        requires
            old(self).wf(),
            valid_size(*viewport_size),
        ensures
            final(self).wf(),
            pointer_update_ok(*old(self), *final(self), old(self).cursor, *viewport_size),
    {
        match self.cursor {
            None => {
                self.way_position = WayPosition { way_id: -1, node_id: 0, distance_to_next: 0 };
                self.planned_path = Vec::new();
                self.planned_path_truncated = false;
            },
            Some(pixel) => {
                let geo: GeoCoord = geo_at_pixel(
                    self.viewport.scale,
                    &self.viewport.center,
                    &pixel,
                    viewport_size,
                );
                self.way_position = find_nearest_way(&self.planner.data, self.viewport.scale, &geo);
                if self.path_start.way_id != -1 && self.way_position.way_id != -1 {
                    let s: usize = self.planner.data.ways[self.path_start.way_id
                        as usize].nodes[self.path_start.node_id];
                    let e: usize = self.planner.data.ways[self.way_position.way_id
                        as usize].nodes[self.way_position.node_id];
                    let outcome: (Vec<GeoCoord>, bool) = self.planner.plan_path(s, e, self.debug);
                    self.planned_path = outcome.0;
                    self.planned_path_truncated = outcome.1;
                } else {
                    self.planned_path = Vec::new();
                    self.planned_path_truncated = false;
                }
            },
        }
    }

    /// The tags of the way under the hover position, or nothing when nothing
    /// is hovered.
    pub fn selected_tags(&self) -> (r: Vec<String>)
        requires
            self.wf(),
        ensures
            self.way_position.way_id >= 0 ==> r@ == self.planner.data.ways@[
                self.way_position.way_id as int
            ].tags@,
            self.way_position.way_id < 0 ==> r@.len() == 0,
    {
        if self.way_position.way_id >= 0 {
            clone_strings(&self.planner.data.ways[self.way_position.way_id as usize].tags)
        } else {
            Vec::new()
        }
    }

    /// Replaces the highlight list after checking every pattern: an invalid
    /// pattern is reported with its position and leaves the previous list in
    /// place.
    pub fn set_highlight_list(&mut self, highlights: &Vec<(String, Color)>) -> (r: Result<
        (),
        HighlightError,
    >)
        requires
            old(self).wf(),
        ensures
            final(self).wf(),
            r is Ok <==> (forall|i: int|
                0 <= i < highlights@.len() ==> regex_valid((#[trigger] highlights@[i]).0@)),
            r is Ok ==> final(self).highlights@ == highlights@ && final(self).planner == old(self).planner
                && final(self).viewport == old(self).viewport && final(self).path_start
                == old(self).path_start && final(self).way_position == old(self).way_position
                && final(self).planned_path == old(self).planned_path
                && final(self).planned_path_truncated == old(self).planned_path_truncated
                && final(self).debug == old(self).debug,
            r is Err ==> *final(self) == *old(self) && {
                let e = r->Err_0;
                &&& e.index < highlights@.len()
                &&& !regex_valid(highlights@[e.index as int].0@)
                &&& forall|j: int| 0 <= j < e.index ==> regex_valid((#[trigger] highlights@[j]).0@)
            },
    {
        match check_highlight_patterns(highlights) {
            Ok(()) => {
                self.highlights = clone_highlight_list(highlights);
                Ok(())
            },
            Err(e) => Err(e),
        }
    }
}

/// Copies a highlight list element by element.
fn clone_highlight_list(v: &Vec<(String, Color)>) -> (r: Vec<(String, Color)>)
    ensures
        r@ == v@,
{
    let mut out: Vec<(String, Color)> = Vec::new();
    let mut i: usize = 0;
    while i < v.len()
        invariant
            i <= v@.len(),
            out@.len() == i,
            forall|j: int| 0 <= j < i ==> (#[trigger] out@[j]) == v@[j],
        decreases v@.len() - i,
    {
        let entry: (String, Color) = (v[i].0.clone(), v[i].1);
        out.push(entry);
        i = i + 1;
    }
    proof {
        assert(out@ =~= v@);
    }
    out
}

} // verus!
