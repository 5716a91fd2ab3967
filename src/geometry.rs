//! Fixed-point geometry: model space, screen space and the affine map between them.
//!
//! Model space is the square `[0, 100] x [0, 100]`, stored in thousandths of a unit,
//! so a coordinate lies in `[0, MODEL_SPAN]`. Zoom is stored in thousandths too
//! (`ZOOM_UNIT` is a zoom of 1.0). A screen coordinate is `(model - pan) * zoom`,
//! which is exact in integers; the inverse divides by the zoom, rounding down.
use vstd::prelude::*;

verus! {

/// Extent of model space along each axis (100 units, in thousandths).
pub const MODEL_SPAN: i64 = 100_000;

/// Half of `MODEL_SPAN`.
pub const MODEL_HALF: i64 = 50_000;

/// A zoom factor of 1.0.
pub const ZOOM_UNIT: i64 = 1000;

/// Smallest zoom factor (0.2).
pub const ZOOM_MIN: i64 = 200;

/// Largest zoom factor (5.0).
pub const ZOOM_MAX: i64 = 5000;

/// Bound on each component of the pan offset, so that screen coordinates fit in `i64`.
pub const PAN_LIMIT: i64 = 1_000_000_000_000;

/// Extent of the visible screen area along each axis: model space at zoom 1.0.
pub const VIEW_SPAN: i64 = 100_000_000;

/// Bound on the screen coordinates of points within `PAN_LIMIT` of the pan offset.
pub const SCREEN_LIMIT: i64 = 10_000_000_000_000_000;

/// Hit radius at zoom 1.0, in model thousandths (8 units).
pub const HIT_RADIUS: i64 = 8_000;

pub open spec fn clamp_spec(v: int, lo: int, hi: int) -> int {
    if v < lo {
        lo
    } else if v > hi {
        hi
    } else {
        v
    }
}

pub open spec fn zoom_ok(zoom: int) -> bool {
    ZOOM_MIN <= zoom <= ZOOM_MAX
}

pub open spec fn pan_ok(pan: (i64, i64)) -> bool {
    -PAN_LIMIT <= pan.0 <= PAN_LIMIT && -PAN_LIMIT <= pan.1 <= PAN_LIMIT
}

/// A model coordinate as seen on screen.
pub open spec fn to_screen(m: int, pan: int, zoom: int) -> int {
    (m - pan) * zoom
}

/// A screen coordinate taken back to model space (division rounds down).
pub open spec fn to_model(s: int, pan: int, zoom: int) -> int {
    s / zoom + pan
}

/// Clamps `v` into `[lo, hi]`.
pub fn clamp(v: i64, lo: i64, hi: i64) -> (r: i64)
    requires
        lo <= hi,
    ensures
        r == clamp_spec(v as int, lo as int, hi as int),
{
    if v < lo {
        lo
    } else if v > hi {
        hi
    } else {
        v
    }
}

/// `a / b` rounded down, for a positive divisor.
pub fn floor_div(a: i64, b: i64) -> (r: i64)
    requires
        b > 0,
    ensures
        r == a as int / b as int,
{
    if a >= 0 {
        a / b
    } else {
        let na: u64 = (-(a as i128)) as u64;
        let ub: u64 = b as u64;
        let q: u64 = (na + ub - 1) / ub;
        proof {
            lemma_floor_div_negative(a as int, b as int, q as int);
        }
        (-(q as i128)) as i64
    }
}

proof fn lemma_floor_div_negative(a: int, b: int, q: int)
    requires
        a < 0,
        b > 0,
        q == (-a + b - 1) / b,
    ensures
        -q == a / b,
        a <= a / b,
{
    let r = a % b;
    let d = a / b;
    vstd::arithmetic::div_mod::lemma_fundamental_div_mod(a, b);
    assert(a == b * d + r && 0 <= r < b);
    // -a + b - 1 == b * (-d) + (b - 1 - r), with 0 <= b - 1 - r < b
    assert(-a + b - 1 == b * (-d) + (b - 1 - r)) by (nonlinear_arith)
        requires
            a == b * d + r,
    ;
    vstd::arithmetic::div_mod::lemma_fundamental_div_mod_converse(
        -a + b - 1,
        b,
        -d,
        b - 1 - r,
    );
    assert(a <= d) by (nonlinear_arith)
        requires
            a == b * d + r,
            0 <= r < b,
            a < 0,
            b > 0,
    ;
}

/// Maps a model point to screen coordinates.
pub fn model_to_screen(mx: i64, my: i64, zoom: i64, pan: (i64, i64)) -> (r: (i64, i64))
    requires
        zoom_ok(zoom as int),
        pan_ok(pan),
        -PAN_LIMIT <= mx <= PAN_LIMIT,
        -PAN_LIMIT <= my <= PAN_LIMIT,
    ensures
        r.0 == to_screen(mx as int, pan.0 as int, zoom as int),
        r.1 == to_screen(my as int, pan.1 as int, zoom as int),
        -SCREEN_LIMIT <= r.0 <= SCREEN_LIMIT,
        -SCREEN_LIMIT <= r.1 <= SCREEN_LIMIT,
{
    proof {
        lemma_screen_bound(mx as int - pan.0 as int, zoom as int);
        lemma_screen_bound(my as int - pan.1 as int, zoom as int);
    }
    ((mx - pan.0) * zoom, (my - pan.1) * zoom)
}

proof fn lemma_screen_bound(d: int, zoom: int)
    requires
        -2 * PAN_LIMIT <= d <= 2 * PAN_LIMIT,
        0 < zoom <= ZOOM_MAX,
    ensures
        -2 * PAN_LIMIT * ZOOM_MAX <= d * zoom <= 2 * PAN_LIMIT * ZOOM_MAX,
{
    assert(-2 * PAN_LIMIT * ZOOM_MAX <= d * zoom <= 2 * PAN_LIMIT * ZOOM_MAX) by (nonlinear_arith)
        requires
            -2 * PAN_LIMIT <= d <= 2 * PAN_LIMIT,
            0 < zoom <= ZOOM_MAX,
    ;
}

/// Maps a screen point back to model space; the exact inverse of `model_to_screen`.
pub fn screen_to_model(sx: i64, sy: i64, zoom: i64, pan: (i64, i64)) -> (r: (i64, i64))
    requires
        zoom_ok(zoom as int),
        pan_ok(pan),
    ensures
        r.0 == to_model(sx as int, pan.0 as int, zoom as int),
        r.1 == to_model(sy as int, pan.1 as int, zoom as int),
{
    let qx = floor_div(sx, zoom);
    let qy = floor_div(sy, zoom);
    proof {
        lemma_div_bound(sx as int, zoom as int);
        lemma_div_bound(sy as int, zoom as int);
    }
    (qx + pan.0, qy + pan.1)
}

proof fn lemma_div_bound(s: int, zoom: int)
    requires
        i64::MIN <= s <= i64::MAX,
        ZOOM_MIN <= zoom,
    ensures
        -0x4000_0000_0000_0000 <= s / zoom <= 0x4000_0000_0000_0000,
{
    vstd::arithmetic::div_mod::lemma_fundamental_div_mod(s, zoom);
    let q = s / zoom;
    let r = s % zoom;
    assert(-0x4000_0000_0000_0000 <= q <= 0x4000_0000_0000_0000) by (nonlinear_arith)
        requires
            s == zoom * q + r,
            0 <= r < zoom,
            ZOOM_MIN <= zoom,
            -0x8000_0000_0000_0000 <= s < 0x8000_0000_0000_0000,
    ;
}

/// Taking a model point to the screen and back gives the point itself, for every
/// zoom and pan offset in range.
pub proof fn lemma_screen_round_trip(m: int, pan: int, zoom: int)
    requires
        zoom > 0,
    ensures
        to_model(to_screen(m, pan, zoom), pan, zoom) == m,
{
    vstd::arithmetic::div_mod::lemma_div_multiples_vanish(m - pan, zoom);
    assert((m - pan) * zoom == zoom * (m - pan)) by (nonlinear_arith);
}


/// The rectangle the graph is drawn into, in terminal cells, border included.
#[derive(Clone, Copy, Debug, PartialEq, Eq, Structural)]
pub struct Area {
    pub x: u16,
    pub y: u16,
    pub width: u16,
    pub height: u16,
}

/// Cells inside the border along one axis, at least 1 so that nothing divides by zero.
pub open spec fn inner_extent(len: u16) -> int {
    if len > 2 {
        len - 2
    } else {
        1
    }
}

/// Offset of cell `c` from the first cell inside the border that starts at `origin`.
pub open spec fn cell_offset(c: u16, origin: u16) -> int {
    if c > origin + 1 {
        c - origin - 1
    } else {
        0
    }
}

/// Screen coordinate of a pointer cell along one axis.
pub open spec fn pointer_screen(c: u16, origin: u16, len: u16) -> int {
    cell_offset(c, origin) * VIEW_SPAN / inner_extent(len)
}

/// Model-space length of a pointer movement of `d` cells along an axis of `len`
/// cells: the screen length divided by the zoom, rounded toward zero.
pub open spec fn drag_delta(d: int, len: u16, zoom: int) -> int {
    if d >= 0 {
        d * VIEW_SPAN / (inner_extent(len) * zoom)
    } else {
        -((-d) * VIEW_SPAN / (inner_extent(len) * zoom))
    }
}

fn inner_extent_exec(len: u16) -> (r: i64)
    ensures
        r == inner_extent(len),
        1 <= r <= u16::MAX,
{
    if len > 2 {
        len as i64 - 2
    } else {
        1
    }
}

/// Screen coordinates of the pointer at cell (`column`, `row`) of `area`.
pub fn pointer_to_screen(column: u16, row: u16, area: Area) -> (r: (i64, i64))
    ensures
        r.0 == pointer_screen(column, area.x, area.width),
        r.1 == pointer_screen(row, area.y, area.height),
        0 <= r.0 <= u16::MAX * VIEW_SPAN,
        0 <= r.1 <= u16::MAX * VIEW_SPAN,
{
    let ox: i64 = if column as i64 > area.x as i64 + 1 {
        column as i64 - area.x as i64 - 1
    } else {
        0
    };
    let oy: i64 = if row as i64 > area.y as i64 + 1 {
        row as i64 - area.y as i64 - 1
    } else {
        0
    };
    let w = inner_extent_exec(area.width);
    let h = inner_extent_exec(area.height);
    proof {
        assert(0 <= ox * VIEW_SPAN <= u16::MAX * VIEW_SPAN) by (nonlinear_arith)
            requires
                0 <= ox <= u16::MAX,
        ;
        assert(0 <= oy * VIEW_SPAN <= u16::MAX * VIEW_SPAN) by (nonlinear_arith)
            requires
                0 <= oy <= u16::MAX,
        ;
        vstd::arithmetic::div_mod::lemma_div_is_ordered_by_denominator(ox * VIEW_SPAN, 1, w as int);
        vstd::arithmetic::div_mod::lemma_div_is_ordered_by_denominator(oy * VIEW_SPAN, 1, h as int);
        vstd::arithmetic::div_mod::lemma_div_pos_is_pos(ox * VIEW_SPAN, w as int);
        vstd::arithmetic::div_mod::lemma_div_pos_is_pos(oy * VIEW_SPAN, h as int);
    }
    (ox * VIEW_SPAN / w, oy * VIEW_SPAN / h)
}

/// Model-space length of a pointer movement of `d` cells along an axis of `len` cells.
pub fn drag_to_model(d: i64, len: u16, zoom: i64) -> (r: i64)
    requires
        -(u16::MAX as int) <= d <= u16::MAX,
        zoom_ok(zoom as int),
    ensures
        r == drag_delta(d as int, len, zoom as int),
        -(u16::MAX * VIEW_SPAN) <= r <= u16::MAX * VIEW_SPAN,
{
    let e = inner_extent_exec(len);
    let ad: i64 = if d >= 0 {
        d
    } else {
        -d
    };
    proof {
        assert(0 <= ad * VIEW_SPAN <= u16::MAX * VIEW_SPAN) by (nonlinear_arith)
            requires
                0 <= ad <= u16::MAX,
        ;
        assert(1 <= e * zoom <= u16::MAX * ZOOM_MAX) by (nonlinear_arith)
            requires
                1 <= e <= u16::MAX,
                ZOOM_MIN <= zoom <= ZOOM_MAX,
        ;
        vstd::arithmetic::div_mod::lemma_div_is_ordered_by_denominator(ad * VIEW_SPAN, 1, e * zoom);
        vstd::arithmetic::div_mod::lemma_div_pos_is_pos(ad * VIEW_SPAN, e * zoom);
    }
    let q = ad * VIEW_SPAN / (e * zoom);
    if d >= 0 {
        q
    } else {
        -q
    }
}

/// Hit radius on screen at the given zoom.
pub open spec fn hit_radius(zoom: int) -> int {
    HIT_RADIUS * zoom
}

/// Zooming in never shrinks the hit radius on screen.
pub proof fn lemma_hit_radius_monotone(z1: int, z2: int)
    requires
        z1 <= z2,
    ensures
        hit_radius(z1) <= hit_radius(z2),
{
}

} // verus!
