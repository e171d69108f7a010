//! The pan/zoom viewport and the pixel-to-geographic transform, in exact
//! fixed-point arithmetic, together with the zoom-at-cursor anchor law.

use vstd::prelude::*;
use crate::geom::{
    GeoCoord, cos_dmd, cos_dmd_spec, lemma_cos_dmd_pos, lemma_tdiv_mag, tdiv, tdiv128, DMD_180,
};

verus! {

/// A screen position in whole pixels, y growing downward.
#[derive(Clone, Copy, PartialEq, Eq, Structural, Debug)]
pub struct PixelCoord {
    pub x: i64,
    pub y: i64,
}

/// A screen movement in whole pixels.
#[derive(Clone, Copy, PartialEq, Eq, Structural, Debug)]
pub struct PixelOffset {
    pub x: i64,
    pub y: i64,
}

/// A viewport size in pixels.
#[derive(Clone, Copy, PartialEq, Eq, Structural, Debug)]
pub struct Size {
    pub width: u32,
    pub height: u32,
}

/// A multiplicative zoom step, as the ratio `num / den`.
#[derive(Clone, Copy, PartialEq, Eq, Structural, Debug)]
pub struct ZoomFactor {
    pub num: u32,
    pub den: u32,
}

/// Fixed-point unit of the zoom scale: a stored scale of `SCALE_ONE` means a
/// scale factor of one.
pub const SCALE_ONE: u64 = 1_000_000;

/// Smallest stored scale the viewport admits (a factor of one thousandth).
pub const MIN_SCALE: u64 = 1_000;

/// Largest stored scale the viewport admits (a factor of one million).
pub const MAX_SCALE: u64 = 1_000_000_000_000;

/// Widest latitude the view may be centered on, in decimicro-degrees:
/// 89 degrees, keeping the center's cosine comfortably positive.
pub const MAX_CENTER_LAT: i64 = 890_000_000;

/// Largest pixel magnitude the transforms admit.
pub const PIXEL_LIMIT: i64 = 4_000_000;

/// Largest pixel-offset magnitude a pan may take.
pub const OFFSET_LIMIT: i64 = 2_000_000;

/// Largest viewport side length the transforms admit.
pub const SIZE_LIMIT: u32 = 65_536;

/// Decimicro-degrees times stored-scale units: `1e7 * SCALE_ONE`.
pub const LAT_UNITS: i128 = 10_000_000_000_000;

/// Decimicro-degrees times stored-scale times cosine units:
/// `1e7 * SCALE_ONE * COS_ONE`.
pub const GEO_UNITS: i128 = 10_000_000_000_000_000_000;

pub open spec fn valid_size(s: Size) -> bool {
    1 <= s.width <= SIZE_LIMIT && 1 <= s.height <= SIZE_LIMIT
}

pub open spec fn valid_pixel(p: PixelCoord) -> bool {
    -PIXEL_LIMIT <= p.x <= PIXEL_LIMIT && -PIXEL_LIMIT <= p.y <= PIXEL_LIMIT
}

pub open spec fn valid_offset(o: PixelOffset) -> bool {
    -OFFSET_LIMIT <= o.x <= OFFSET_LIMIT && -OFFSET_LIMIT <= o.y <= OFFSET_LIMIT
}

pub open spec fn valid_scale(scale: u64) -> bool {
    MIN_SCALE <= scale <= MAX_SCALE
}

pub open spec fn valid_center(c: GeoCoord) -> bool {
    -DMD_180 <= c.long <= DMD_180 && -MAX_CENTER_LAT as int <= c.lat <= MAX_CENTER_LAT as int
}

/// Clamps `v` into `[lo, hi]`.
pub open spec fn clamp_spec(v: int, lo: int, hi: int) -> int {
    if v < lo {
        lo
    } else if v > hi {
        hi
    } else {
        v
    }
}

/// The longitude under a pixel: the pixel is normalized about the viewport
/// center, corrected by the aspect ratio, divided by the scale and by the
/// cosine of the center's latitude, and offset by the center.
pub open spec fn p2g_long(scale: int, center: GeoCoord, px: int, w: int, h: int) -> int {
    let c = cos_dmd_spec(center.lat as int);
    center.long + tdiv((2 * px - w) * GEO_UNITS, h * scale * c)
}

/// The latitude under a pixel: normalized about the viewport center, divided
/// by the scale, and offset by the center.
pub open spec fn p2g_lat(scale: int, center: GeoCoord, py: int, h: int) -> int {
    center.lat + tdiv((h - 2 * py) * LAT_UNITS, h * scale)
}

/// The mutable pan/zoom state: a multiplicative scale and a geographic
/// center.
pub struct Viewport {
    pub scale: u64,
    pub center: GeoCoord,
}

/// The state `zoom` leaves behind: the scale multiplied by `amount` and
/// clamped, and the center shifted by how far the anchor pixel's coordinate
/// moved under the scale change, clamped into the admitted center range.
pub open spec fn zoom_spec(v: Viewport, amount: ZoomFactor, zc: PixelCoord, vs: Size) -> Viewport {
    let s2 = clamp_spec(
        v.scale as int * amount.num as int / amount.den as int,
        MIN_SCALE as int,
        MAX_SCALE as int,
    );
    let dlong = p2g_long(s2, v.center, zc.x as int, vs.width as int, vs.height as int) - p2g_long(
        v.scale as int,
        v.center,
        zc.x as int,
        vs.width as int,
        vs.height as int,
    );
    let dlat = p2g_lat(s2, v.center, zc.y as int, vs.height as int) - p2g_lat(
        v.scale as int,
        v.center,
        zc.y as int,
        vs.height as int,
    );
    Viewport {
        scale: s2 as u64,
        center: GeoCoord {
            long: clamp_spec(v.center.long - dlong, -DMD_180 as int, DMD_180 as int) as i64,
            lat: clamp_spec(
                v.center.lat - dlat,
                -MAX_CENTER_LAT as int,
                MAX_CENTER_LAT as int,
            ) as i64,
        },
    }
}

/// The state `pan` leaves behind: the view recentered on the coordinate that
/// the offset viewport-center pixel maps to, clamped into the admitted
/// center range.
pub open spec fn pan_spec(v: Viewport, offset: PixelOffset, vs: Size) -> Viewport {
    let long = p2g_long(
        v.scale as int,
        v.center,
        vs.width as int / 2 + offset.x,
        vs.width as int,
        vs.height as int,
    );
    let lat = p2g_lat(v.scale as int, v.center, vs.height as int / 2 + offset.y, vs.height as int);
    Viewport {
        scale: v.scale,
        center: GeoCoord {
            long: clamp_spec(long, -DMD_180 as int, DMD_180 as int) as i64,
            lat: clamp_spec(lat, -MAX_CENTER_LAT as int, MAX_CENTER_LAT as int) as i64,
        },
    }
}

impl Viewport {
    pub open spec fn wf(self) -> bool {
        valid_scale(self.scale) && valid_center(self.center)
    }

    /// The geographic coordinate under a screen pixel.
    pub fn pixel_to_geo(&self, pixel: &PixelCoord, viewport_size: &Size) -> (r: GeoCoord)
        requires
            self.wf(),
            valid_pixel(*pixel),
            valid_size(*viewport_size),
        ensures
            r.long == p2g_long(
                self.scale as int,
                self.center,
                pixel.x as int,
                viewport_size.width as int,
                viewport_size.height as int,
            ),
            r.lat == p2g_lat(
                self.scale as int,
                self.center,
                pixel.y as int,
                viewport_size.height as int,
            ),
    {
        geo_at_pixel(self.scale, &self.center, pixel, viewport_size)
    }

    /// Changes the scale by `amount` while keeping the geographic coordinate
    /// under `zoom_center` fixed: the coordinate under the anchor is captured
    /// before the scale change and the center is shifted by how far the
    /// anchor's coordinate moved. Scale and center are clamped into the
    /// viewport's admitted ranges.
    pub fn zoom(&mut self, amount: &ZoomFactor, zoom_center: &PixelCoord, viewport_size: &Size)
        requires
            old(self).wf(),
            amount.num >= 1,
            amount.den >= 1,
            valid_pixel(*zoom_center),
            valid_size(*viewport_size),
        ensures
            final(self).wf(),
            *final(self) == zoom_spec(*old(self), *amount, *zoom_center, *viewport_size),
    {
        let mouse: GeoCoord = geo_at_pixel(self.scale, &self.center, zoom_center, viewport_size);
        let cur_scale: u64 = self.scale;
        proof {
            assert((cur_scale as int) * (amount.num as int) <= 1_000_000_000_000
                * 4_294_967_295) by (nonlinear_arith)
                requires
                    cur_scale <= 1_000_000_000_000u64,
                    amount.num <= 4_294_967_295u32;
        }
        let scaled: u128 = (cur_scale as u128) * (amount.num as u128) / (amount.den as u128);
        let new_scale: u64 = if scaled < MIN_SCALE as u128 {
            MIN_SCALE
        } else if scaled > MAX_SCALE as u128 {
            MAX_SCALE
        } else {
            scaled as u64
        };
        self.scale = new_scale;
        let new_mouse: GeoCoord = geo_at_pixel(
            self.scale,
            &self.center,
            zoom_center,
            viewport_size,
        );
        let long_shifted: i128 = (self.center.long as i128) - ((new_mouse.long as i128) - (
        mouse.long as i128));
        let lat_shifted: i128 = (self.center.lat as i128) - ((new_mouse.lat as i128) - (
        mouse.lat as i128));
        self.center = GeoCoord {
            long: clamp_i64(long_shifted, -DMD_180, DMD_180),
            lat: clamp_i64(lat_shifted, -MAX_CENTER_LAT, MAX_CENTER_LAT),
        };
    }

    /// Moves the view by a pixel offset: the center becomes the geographic
    /// coordinate that the offset viewport-center pixel maps to, clamped into
    /// the admitted center range.
    pub fn pan(&mut self, offset: &PixelOffset, viewport_size: &Size)
        requires
            old(self).wf(),
            valid_offset(*offset),
            valid_size(*viewport_size),
        ensures
            final(self).wf(),
            *final(self) == pan_spec(*old(self), *offset, *viewport_size),
    {
        let target: PixelCoord = PixelCoord {
            x: (viewport_size.width / 2) as i64 + offset.x,
            y: (viewport_size.height / 2) as i64 + offset.y,
        };
        let moved: GeoCoord = geo_at_pixel(self.scale, &self.center, &target, viewport_size);
        self.center = GeoCoord {
            long: clamp_i64(moved.long as i128, -DMD_180, DMD_180),
            lat: clamp_i64(moved.lat as i128, -MAX_CENTER_LAT, MAX_CENTER_LAT),
        };
    }
}

/// Clamps a wide value into `[lo, hi]`.
fn clamp_i64(v: i128, lo: i64, hi: i64) -> (r: i64)
    requires
        lo <= hi,
    ensures
        r as int == clamp_spec(v as int, lo as int, hi as int),
{
    if v < lo as i128 {
        lo
    } else if v > hi as i128 {
        hi
    } else {
        v as i64
    }
}

/// Computes the pixel-to-geographic transform for an explicit scale and
/// center.
pub fn geo_at_pixel(
    scale: u64,
    center: &GeoCoord,
    pixel: &PixelCoord,
    viewport_size: &Size,
) -> (r: GeoCoord)
    requires
        valid_scale(scale),
        valid_center(*center),
        valid_pixel(*pixel),
        valid_size(*viewport_size),
    ensures
        r.long == p2g_long(
            scale as int,
            *center,
            pixel.x as int,
            viewport_size.width as int,
            viewport_size.height as int,
        ),
        r.lat == p2g_lat(scale as int, *center, pixel.y as int, viewport_size.height as int),
        -5_000_000_000_000_000_000 - DMD_180 as int <= r.long
            <= 5_000_000_000_000_000_000 + DMD_180 as int,
        -300_000_000_000_000_000 <= r.lat <= 300_000_000_000_000_000,
{
    let c: i64 = cos_dmd(center.lat);
    proof {
        lemma_cos_dmd_pos(center.lat as int);
    }
    let w: i128 = viewport_size.width as i128;
    let h: i128 = viewport_size.height as i128;
    let xn: i128 = 2 * (pixel.x as i128) - w;
    let yn: i128 = h - 2 * (pixel.y as i128);
    proof {
        assert(17_000_000i128 <= h * (scale as i128) * (c as i128)
            <= 65_536i128 * 1_000_000_000_000i128 * 1_000_000i128) by (nonlinear_arith)
            requires
                1 <= h <= 65_536,
                1_000 <= scale <= 1_000_000_000_000u64,
                17_000 <= c <= 1_000_000;
        assert(1_000i128 <= h * (scale as i128) <= 65_536i128 * 1_000_000_000_000i128)
            by (nonlinear_arith)
            requires 1 <= h <= 65_536 && 1_000 <= scale <= 1_000_000_000_000u64;
        assert(-8_100_000i128 * GEO_UNITS <= xn * GEO_UNITS <= 8_100_000i128 * GEO_UNITS)
            by (nonlinear_arith)
            requires -8_100_000 <= xn <= 8_100_000;
        assert(-8_100_000i128 * LAT_UNITS <= yn * LAT_UNITS <= 8_100_000i128 * LAT_UNITS)
            by (nonlinear_arith)
            requires -8_100_000 <= yn <= 8_100_000;
    }
    let den_long: i128 = h * (scale as i128) * (c as i128);
    let den_lat: i128 = h * (scale as i128);
    let dlong: i128 = tdiv128(xn * GEO_UNITS, den_long);
    let dlat: i128 = tdiv128(yn * LAT_UNITS, den_lat);
    proof {
        lemma_tdiv_mag(
            (xn * GEO_UNITS) as int,
            den_long as int,
            8_100_000 * GEO_UNITS as int,
            17_000_000,
            5_000_000_000_000_000_000,
        );
        lemma_tdiv_mag(
            (yn * LAT_UNITS) as int,
            den_lat as int,
            8_100_000 * LAT_UNITS as int,
            1_000,
            200_000_000_000_000_000,
        );
    }
    GeoCoord { long: center.long + (dlong as i64), lat: center.lat + (dlat as i64) }
}

/// Zooming keeps the latitude under the anchor pixel exactly, for any
/// anchor, as long as the recentred latitude is not clamped: the center's
/// latitude shift cancels the scale change's effect on the anchor's latitude
/// offset term for term.
pub proof fn lemma_zoom_keeps_anchor_latitude(
    before: Viewport,
    after: Viewport,
    amount: ZoomFactor,
    zoom_center: PixelCoord,
    viewport_size: Size,
)
    requires
        before.wf(),
        amount.num >= 1,
        amount.den >= 1,
        valid_pixel(zoom_center),
        valid_size(viewport_size),
        after == zoom_spec(before, amount, zoom_center, viewport_size),
        after.wf(),
        // The latitude recentring stays inside the clamp range.
        -MAX_CENTER_LAT as int <= before.center.lat - (p2g_lat(
            after.scale as int,
            before.center,
            zoom_center.y as int,
            viewport_size.height as int,
        ) - p2g_lat(
            before.scale as int,
            before.center,
            zoom_center.y as int,
            viewport_size.height as int,
        )) <= MAX_CENTER_LAT as int,
    ensures
        p2g_lat(
            after.scale as int,
            after.center,
            zoom_center.y as int,
            viewport_size.height as int,
        ) == p2g_lat(
            before.scale as int,
            before.center,
            zoom_center.y as int,
            viewport_size.height as int,
        ),
{
    let h = viewport_size.height as int;
    // The anchor's latitude offset under the new scale is the same term in
    // the capture and in the final evaluation, so the recentring cancels it.
    assert(after.center.lat == before.center.lat - (p2g_lat(
        after.scale as int,
        before.center,
        zoom_center.y as int,
        h,
    ) - p2g_lat(before.scale as int, before.center, zoom_center.y as int, h)));
}

/// Zooming with the anchor on the viewport's horizontal midline keeps the
/// geographic coordinate under the anchor exactly: the anchor's latitude
/// offset is zero, so the recentring leaves the center's latitude - and with
/// it the cosine correction - untouched, and the longitude shift cancels the
/// scale change's effect at the anchor exactly.
pub proof fn lemma_zoom_keeps_anchor(
    before: Viewport,
    after: Viewport,
    amount: ZoomFactor,
    zoom_center: PixelCoord,
    viewport_size: Size,
)
    requires
        before.wf(),
        after.wf(),
        amount.num >= 1,
        amount.den >= 1,
        valid_pixel(zoom_center),
        valid_size(viewport_size),
        2 * zoom_center.y == viewport_size.height as int,
        // `after` is what `zoom` produces from `before`, clamps included.
        after == zoom_spec(before, amount, zoom_center, viewport_size),
        after.wf(),
        // The longitude recentring stays inside the clamp range.
        -DMD_180 as int <= before.center.long - (p2g_long(
            after.scale as int,
            before.center,
            zoom_center.x as int,
            viewport_size.width as int,
            viewport_size.height as int,
        ) - p2g_long(
            before.scale as int,
            before.center,
            zoom_center.x as int,
            viewport_size.width as int,
            viewport_size.height as int,
        )) <= DMD_180 as int,
    ensures
        p2g_lat(
            after.scale as int,
            after.center,
            zoom_center.y as int,
            viewport_size.height as int,
        ) == p2g_lat(
            before.scale as int,
            before.center,
            zoom_center.y as int,
            viewport_size.height as int,
        ),
        p2g_long(
            after.scale as int,
            after.center,
            zoom_center.x as int,
            viewport_size.width as int,
            viewport_size.height as int,
        ) == p2g_long(
            before.scale as int,
            before.center,
            zoom_center.x as int,
            viewport_size.width as int,
            viewport_size.height as int,
        ),
{
    let h = viewport_size.height as int;
    // On the midline the latitude offset vanishes at any scale.
    assert((h - 2 * zoom_center.y as int) * LAT_UNITS == 0);
    assert(h * after.scale as int >= 1) by (nonlinear_arith)
        requires h >= 1 && after.scale >= 1;
    assert(h * before.scale as int >= 1) by (nonlinear_arith)
        requires h >= 1 && before.scale >= 1;
    vstd::arithmetic::div_mod::lemma_div_of0(h * after.scale as int);
    vstd::arithmetic::div_mod::lemma_div_of0(h * before.scale as int);
    assert(tdiv(0, h * after.scale as int) == 0);
    assert(tdiv(0, h * before.scale as int) == 0);
    // So the center's latitude, and with it the cosine, is unchanged.
    assert(after.center.lat == before.center.lat);
    assert(cos_dmd_spec(after.center.lat as int) == cos_dmd_spec(before.center.lat as int));
}

} // verus!
