use vstd::prelude::*;
use crate::fixed::{Point, MAX_DIM, ONE, TURN};
use crate::light::{LightParameters, Rgba};
use crate::occlusion::OcclusionEntry;
use vstd::arithmetic::div_mod::{lemma_div_is_ordered, lemma_div_is_ordered_by_denominator};

verus! {

/// Cap of the glow intensity (0.6), below the shadow pass's cap of `ONE`.
pub const GLOW_CAP: i64 = 600_000;

/// A fragment of the full-screen passes: its normalized coordinate and the raw
/// angle of `coord - light position`, in millidegrees within `[-TURN, TURN]`
/// (an `atan2` in degrees gives `(-180, 180]`).
#[derive(Clone, Copy, Debug, PartialEq, Eq, Structural)]
pub struct Fragment {
    pub coord: Point,
    pub angle: i64,
}

impl Fragment {
    pub open spec fn wf(self) -> bool {
        self.coord.in_unit() && -TURN <= self.angle <= TURN
    }
}

/// A map entry as the occlusion pass writes it: a distance in `[0, ONE]`.
pub open spec fn entry_wf(e: OcclusionEntry) -> bool {
    0 <= e.dist <= ONE
}

/// A map of `n` valid entries, where `0 < n <= MAX_DIM`.
pub open spec fn map_wf(map: Seq<OcclusionEntry>) -> bool {
    &&& 0 < map.len() <= MAX_DIM
    &&& forall|k: int| 0 <= k < map.len() ==> entry_wf(#[trigger] map[k])
}

/// A raw angle wrapped into `[0, TURN]`: negative angles get a full turn added.
pub open spec fn wrap(a: int) -> int {
    if a < 0 {
        a + TURN
    } else {
        a
    }
}

/// The map texel that a wrapped angle samples (nearest texel, the far edge
/// clamped onto the last one).
pub open spec fn bucket(a: int, n: int) -> int {
    if a * n / (TURN as int) < n - 1 {
        a * n / (TURN as int)
    } else {
        n - 1
    }
}

/// Squared normalized distance from the light to the fragment.
pub open spec fn rel_sq(params: LightParameters, frag: Fragment) -> int {
    let dx = frag.coord.x - params.position.x;
    let dy = frag.coord.y - params.position.y;
    dx * dx + dy * dy
}

/// Squared aspect-corrected distance, scaled by `(screen_h * ONE)^2`: the
/// horizontal offset counts `screen_w / screen_h` times.
pub open spec fn aspect_sq(params: LightParameters, frag: Fragment) -> int {
    let dx = frag.coord.x - params.position.x;
    let dy = frag.coord.y - params.position.y;
    dx * dx * params.screen_w * params.screen_w + dy * dy * params.screen_h * params.screen_h
}

/// The fragment is nearer to the light than the occluder in its direction.
pub open spec fn lit(params: LightParameters, map: Seq<OcclusionEntry>, frag: Fragment) -> bool {
    let occl = 2 * map[bucket(wrap(frag.angle as int), map.len() as int)].dist;
    rel_sq(params, frag) < occl * occl
}

/// `clamp(p / d^2, 0, cap)` in fixed point, where `p` is in fixed point and
/// `q = d^2 * (h * ONE)^2`; a zero distance counts as an infinite ratio.
pub open spec fn light_ratio(p: int, q: int, h: int, cap: int) -> int {
    if p <= 0 {
        0
    } else if q == 0 {
        cap
    } else if p * ONE * ONE * h * h / q < cap {
        p * ONE * ONE * h * h / q
    } else {
        cap
    }
}

/// The shadow pass's intensity: `1 - clamp(p / d^2, 0, 1)` where lit, else 1.
pub open spec fn shadow_intensity(params: LightParameters, map: Seq<OcclusionEntry>, frag: Fragment) -> int {
    if lit(params, map, frag) {
        ONE - light_ratio(
            params.strength + params.glow,
            aspect_sq(params, frag),
            params.screen_h as int,
            ONE as int,
        )
    } else {
        ONE as int
    }
}

/// The glow pass's intensity: `clamp(p / d^2, 0, 0.6)` where lit, else 0.
pub open spec fn glow_intensity(params: LightParameters, map: Seq<OcclusionEntry>, frag: Fragment) -> int {
    if lit(params, map, frag) {
        light_ratio(
            params.strength + params.glow,
            aspect_sq(params, frag),
            params.screen_h as int,
            GLOW_CAP as int,
        )
    } else {
        0
    }
}

/// Linear blend from `a` (at `t = 0`) to `b` (at `t = ONE`), rounded down.
pub open spec fn mix(a: int, b: int, t: int) -> int {
    (a * (ONE - t) + b * t) / (ONE as int)
}

/// The shadow mask's color at intensity `t`: white blended toward the shadow color.
pub open spec fn shadow_mask(params: LightParameters, t: int) -> Rgba {
    Rgba {
        r: mix(ONE as int, params.shadow_color.r as int, t) as i64,
        g: mix(ONE as int, params.shadow_color.g as int, t) as i64,
        b: mix(ONE as int, params.shadow_color.b as int, t) as i64,
        a: ONE,
    }
}

/// The light mask's color at intensity `t`: black blended toward the light color.
pub open spec fn light_mask(params: LightParameters, t: int) -> Rgba {
    Rgba {
        r: mix(0, params.light_color.r as int, t) as i64,
        g: mix(0, params.light_color.g as int, t) as i64,
        b: mix(0, params.light_color.b as int, t) as i64,
        a: ONE,
    }
}

/// Wraps a raw angle into `[0, TURN]`.
pub fn wrap_angle(a: i64) -> (r: i64)
    requires
        -TURN <= a <= TURN,
    ensures
        r == wrap(a as int),
        0 <= r <= TURN,
{
    if a < 0 {
        a + TURN
    } else {
        a
    }
}

/// The index of the map texel that a raw angle samples in a map of `n` rays.
pub fn angle_bucket(a: i64, n: usize) -> (r: usize)
    requires
        -TURN <= a <= TURN,
        0 < n <= MAX_DIM,
    ensures
        r == bucket(wrap(a as int), n as int),
        r < n,
{
    let w = wrap_angle(a);
    assert(0 <= w * n <= TURN * MAX_DIM) by (nonlinear_arith)
        requires
            0 <= w <= TURN,
            0 < n <= MAX_DIM,
    ;
    let k: u64 = (w as u64) * (n as u64) / (TURN as u64);
    if k < (n as u64) - 1 {
        k as usize
    } else {
        n - 1
    }
}

/// Whether the fragment lies on the light's side of the nearest occluder.
pub fn is_lit(params: &LightParameters, map: &Vec<OcclusionEntry>, frag: Fragment) -> (r: bool)
    requires
        params.wf(),
        map_wf(map@),
        frag.wf(),
    ensures
        r == lit(*params, map@, frag),
{
    let k = angle_bucket(frag.angle, map.len());
    let occl: i64 = 2 * map[k].dist;
    assert(entry_wf(map@[k as int]));
    let dx: i64 = frag.coord.x - params.position.x;
    let dy: i64 = frag.coord.y - params.position.y;
    assert(0 <= dx * dx <= ONE * ONE && 0 <= dy * dy <= ONE * ONE && 0 <= occl * occl <= 4 * ONE
        * ONE)
        by (nonlinear_arith)
        requires
            -ONE <= dx <= ONE,
            -ONE <= dy <= ONE,
            0 <= occl <= 2 * ONE,
    ;
    dx * dx + dy * dy < occl * occl
}

fn ratio(params: &LightParameters, frag: Fragment, cap: i64) -> (r: i64)
    requires
        params.wf(),
        frag.wf(),
        0 <= cap <= ONE,
    ensures
        r == light_ratio(
            params.strength + params.glow,
            aspect_sq(*params, frag),
            params.screen_h as int,
            cap as int,
        ),
        0 <= r <= cap,
{
    let p: i64 = params.strength + params.glow;
    if p <= 0 {
        return 0;
    }
    let dx: i64 = frag.coord.x - params.position.x;
    let dy: i64 = frag.coord.y - params.position.y;
    let w = params.screen_w as u128;
    let h = params.screen_h as u128;
    assert(0 <= dx * dx <= ONE * ONE && 0 <= dy * dy <= ONE * ONE) by (nonlinear_arith)
        requires
            -ONE <= dx <= ONE,
            -ONE <= dy <= ONE,
    ;
    let dx2 = (dx * dx) as u128;
    let dy2 = (dy * dy) as u128;
    assert(w * w <= MAX_DIM * MAX_DIM && h * h <= MAX_DIM * MAX_DIM) by (nonlinear_arith)
        requires
            w <= MAX_DIM,
            h <= MAX_DIM,
    ;
    assert(dx2 * (w * w) <= (ONE * ONE) * (MAX_DIM * MAX_DIM)) by (nonlinear_arith)
        requires
            dx2 <= ONE * ONE,
            w * w <= MAX_DIM * MAX_DIM,
    ;
    assert(dy2 * (h * h) <= (ONE * ONE) * (MAX_DIM * MAX_DIM)) by (nonlinear_arith)
        requires
            dy2 <= ONE * ONE,
            h * h <= MAX_DIM * MAX_DIM,
    ;
    let q: u128 = dx2 * (w * w) + dy2 * (h * h);
    assert(q == aspect_sq(*params, frag)) by (nonlinear_arith)
        requires
            q == dx2 * (w * w) + dy2 * (h * h),
            dx2 == dx * dx,
            dy2 == dy * dy,
            w == params.screen_w,
            h == params.screen_h,
            dx == frag.coord.x - params.position.x,
            dy == frag.coord.y - params.position.y,
    ;
    if q == 0 {
        return cap;
    }
    let pp = p as u128;
    assert(pp * (ONE * ONE) * (h * h) <= (2 * ONE) * (ONE * ONE) * (MAX_DIM * MAX_DIM))
        by (nonlinear_arith)
        requires
            0 < pp <= 2 * ONE,
            h * h <= MAX_DIM * MAX_DIM,
    ;
    let num: u128 = pp * (1_000_000_000_000u128) * (h * h);
    assert(num == p * ONE * ONE * params.screen_h * params.screen_h) by (nonlinear_arith)
        requires
            num == pp * (1_000_000_000_000int) * (h * h),
            pp == p,
            h == params.screen_h,
    ;
    let v: u128 = num / q;
    if v < cap as u128 {
        v as i64
    } else {
        cap
    }
}

/// The shadow pass's intensity at a fragment.
pub fn shadow_intensity_at(params: &LightParameters, map: &Vec<OcclusionEntry>, frag: Fragment) -> (r: i64)
    requires
        params.wf(),
        map_wf(map@),
        frag.wf(),
    ensures
        r == shadow_intensity(*params, map@, frag),
        0 <= r <= ONE,
{
    if is_lit(params, map, frag) {
        ONE - ratio(params, frag, ONE)
    } else {
        ONE
    }
}

/// The glow pass's intensity at a fragment.
pub fn glow_intensity_at(params: &LightParameters, map: &Vec<OcclusionEntry>, frag: Fragment) -> (r: i64)
    requires
        params.wf(),
        map_wf(map@),
        frag.wf(),
    ensures
        r == glow_intensity(*params, map@, frag),
        0 <= r <= GLOW_CAP,
{
    if is_lit(params, map, frag) {
        ratio(params, frag, GLOW_CAP)
    } else {
        0
    }
}

fn mix_channel(a: i64, b: i64, t: i64) -> (r: i64)
    requires
        0 <= a <= ONE,
        0 <= b <= ONE,
        0 <= t <= ONE,
    ensures
        r == mix(a as int, b as int, t as int),
        0 <= r <= ONE,
{
    assert(0 <= a * (ONE - t) + b * t <= ONE * ONE) by (nonlinear_arith)
        requires
            0 <= a <= ONE,
            0 <= b <= ONE,
            0 <= t <= ONE,
    ;
    (a * (ONE - t) + b * t) / ONE
}

/// The shadow mask's color at a fragment.
pub fn shadow_pixel(params: &LightParameters, map: &Vec<OcclusionEntry>, frag: Fragment) -> (r: Rgba)
    requires
        params.wf(),
        map_wf(map@),
        frag.wf(),
    ensures
        r == shadow_mask(*params, shadow_intensity(*params, map@, frag)),
        r.wf(),
{
    let t = shadow_intensity_at(params, map, frag);
    let c = params.shadow_color;
    Rgba {
        r: mix_channel(ONE, c.r, t),
        g: mix_channel(ONE, c.g, t),
        b: mix_channel(ONE, c.b, t),
        a: ONE,
    }
}

/// The light mask's color at a fragment.
pub fn light_pixel(params: &LightParameters, map: &Vec<OcclusionEntry>, frag: Fragment) -> (r: Rgba)
    requires
        params.wf(),
        map_wf(map@),
        frag.wf(),
    ensures
        r == light_mask(*params, glow_intensity(*params, map@, frag)),
        r.wf(),
{
    let t = glow_intensity_at(params, map, frag);
    let c = params.light_color;
    Rgba {
        r: mix_channel(0, c.r, t),
        g: mix_channel(0, c.g, t),
        b: mix_channel(0, c.b, t),
        a: ONE,
    }
}

/// The aspect-corrected squared distance is never negative.
proof fn lemma_aspect_sq_nonneg(params: LightParameters, frag: Fragment)
    ensures
        aspect_sq(params, frag) >= 0,
{
    let dx = frag.coord.x - params.position.x;
    let dy = frag.coord.y - params.position.y;
    let w = params.screen_w as int;
    let h = params.screen_h as int;
    assert(dx * dx * w * w >= 0 && dy * dy * h * h >= 0) by (nonlinear_arith);
}

/// The light ratio lies in `[0, cap]`.
proof fn lemma_ratio_bounds(p: int, q: int, h: int, cap: int)
    requires
        q >= 0,
        cap >= 0,
    ensures
        0 <= light_ratio(p, q, h, cap) <= cap,
{
    if p > 0 && q > 0 {
        assert(p * ONE * ONE * h * h >= 0) by (nonlinear_arith)
            requires
                p > 0,
        ;
        assert(p * ONE * ONE * h * h / q >= 0) by (nonlinear_arith)
            requires
                p * ONE * ONE * h * h >= 0,
                q > 0,
        ;
    }
}

/// The light ratio does not grow with the distance.
proof fn lemma_ratio_antitone(p: int, q1: int, q2: int, h: int, cap: int)
    requires
        0 <= q1 <= q2,
        cap >= 0,
    ensures
        light_ratio(p, q2, h, cap) <= light_ratio(p, q1, h, cap),
{
    lemma_ratio_bounds(p, q1, h, cap);
    lemma_ratio_bounds(p, q2, h, cap);
    if p > 0 && q1 > 0 {
        assert(p * ONE * ONE * h * h >= 0) by (nonlinear_arith)
            requires
                p > 0,
        ;
        lemma_div_is_ordered_by_denominator(p * ONE * ONE * h * h, q1, q2);
    }
}

/// Blending from white toward a color no brighter than white darkens as `t` grows.
proof fn lemma_mix_from_white_antitone(c: int, t1: int, t2: int)
    requires
        0 <= c <= ONE,
        t1 <= t2,
    ensures
        mix(ONE as int, c, t2) <= mix(ONE as int, c, t1),
{
    assert(ONE * (ONE - t2) + c * t2 <= ONE * (ONE - t1) + c * t1) by (nonlinear_arith)
        requires
            c <= ONE,
            t1 <= t2,
    ;
    lemma_div_is_ordered(ONE * (ONE - t2) + c * t2, ONE * (ONE - t1) + c * t1, ONE as int);
}

/// Among lit fragments, the one farther from the light (in aspect-corrected
/// distance) has a shadow intensity at least as high, so each channel of its
/// shadow mask is at most as bright: the mask darkens with distance.
pub proof fn lemma_shadow_mask_monotone(
    params: LightParameters,
    map: Seq<OcclusionEntry>,
    near: Fragment,
    far: Fragment,
)
    requires
        params.wf(),
        lit(params, map, near),
        lit(params, map, far),
        aspect_sq(params, near) <= aspect_sq(params, far),
    ensures
        shadow_intensity(params, map, near) <= shadow_intensity(params, map, far),
        shadow_mask(params, shadow_intensity(params, map, far)).r <= shadow_mask(
            params,
            shadow_intensity(params, map, near),
        ).r,
        shadow_mask(params, shadow_intensity(params, map, far)).g <= shadow_mask(
            params,
            shadow_intensity(params, map, near),
        ).g,
        shadow_mask(params, shadow_intensity(params, map, far)).b <= shadow_mask(
            params,
            shadow_intensity(params, map, near),
        ).b,
{
    let p = params.strength + params.glow;
    let h = params.screen_h as int;
    lemma_aspect_sq_nonneg(params, near);
    lemma_ratio_antitone(p, aspect_sq(params, near), aspect_sq(params, far), h, ONE as int);
    let t1 = shadow_intensity(params, map, near);
    let t2 = shadow_intensity(params, map, far);
    lemma_mix_from_white_antitone(params.shadow_color.r as int, t1, t2);
    lemma_mix_from_white_antitone(params.shadow_color.g as int, t1, t2);
    lemma_mix_from_white_antitone(params.shadow_color.b as int, t1, t2);
    lemma_ratio_bounds(p, aspect_sq(params, near), h, ONE as int);
    lemma_ratio_bounds(p, aspect_sq(params, far), h, ONE as int);
    assert(0 <= mix(ONE as int, params.shadow_color.r as int, t1) <= ONE) by {
        mix_bounds(ONE as int, params.shadow_color.r as int, t1);
    }
    assert(0 <= mix(ONE as int, params.shadow_color.g as int, t1) <= ONE) by {
        mix_bounds(ONE as int, params.shadow_color.g as int, t1);
    }
    assert(0 <= mix(ONE as int, params.shadow_color.b as int, t1) <= ONE) by {
        mix_bounds(ONE as int, params.shadow_color.b as int, t1);
    }
    mix_bounds(ONE as int, params.shadow_color.r as int, t2);
    mix_bounds(ONE as int, params.shadow_color.g as int, t2);
    mix_bounds(ONE as int, params.shadow_color.b as int, t2);
}

proof fn mix_bounds(a: int, b: int, t: int)
    requires
        0 <= a <= ONE,
        0 <= b <= ONE,
        0 <= t <= ONE,
    ensures
        0 <= mix(a, b, t) <= ONE,
{
    assert(0 <= a * (ONE - t) + b * t <= ONE * ONE) by (nonlinear_arith)
        requires
            0 <= a <= ONE,
            0 <= b <= ONE,
            0 <= t <= ONE,
    ;
}

/// The glow intensity lies in `[0, 0.6]` for every fragment and map.
pub proof fn lemma_glow_bounded(params: LightParameters, map: Seq<OcclusionEntry>, frag: Fragment)
    ensures
        0 <= glow_intensity(params, map, frag) <= GLOW_CAP,
{
    lemma_aspect_sq_nonneg(params, frag);
    lemma_ratio_bounds(
        params.strength + params.glow,
        aspect_sq(params, frag),
        params.screen_h as int,
        GLOW_CAP as int,
    );
}

/// A negative raw angle and the same angle plus a full turn sample the same
/// map texel, so both passes give the same intensity at the fragment.
pub proof fn lemma_angle_wrap(params: LightParameters, map: Seq<OcclusionEntry>, frag: Fragment)
    requires
        -TURN <= frag.angle < 0,
    ensures
        bucket(wrap(frag.angle as int), map.len() as int) == bucket(
            wrap(frag.angle + TURN),
            map.len() as int,
        ),
        shadow_intensity(params, map, frag) == shadow_intensity(
            params,
            map,
            Fragment { angle: (frag.angle + TURN) as i64, ..frag },
        ),
        glow_intensity(params, map, frag) == glow_intensity(
            params,
            map,
            Fragment { angle: (frag.angle + TURN) as i64, ..frag },
        ),
{
}

/// A fragment beyond the nearest occluder in its direction is fully shadowed and
/// gets no glow, whatever the strength and glow: its shadow mask is the shadow
/// color, opaque.
pub proof fn lemma_occluded_fully_shadowed(
    params: LightParameters,
    map: Seq<OcclusionEntry>,
    frag: Fragment,
)
    requires
        params.shadow_color.wf(),
        !lit(params, map, frag),
    ensures
        shadow_intensity(params, map, frag) == ONE,
        glow_intensity(params, map, frag) == 0,
        shadow_mask(params, shadow_intensity(params, map, frag)) == (Rgba {
            a: ONE,
            ..params.shadow_color
        }),
{
    let c = params.shadow_color;
    assert(mix(ONE as int, c.r as int, ONE as int) == c.r) by (nonlinear_arith)
        requires
            0 <= c.r <= ONE,
    ;
    assert(mix(ONE as int, c.g as int, ONE as int) == c.g) by (nonlinear_arith)
        requires
            0 <= c.g <= ONE,
    ;
    assert(mix(ONE as int, c.b as int, ONE as int) == c.b) by (nonlinear_arith)
        requires
            0 <= c.b <= ONE,
    ;
}

} // verus!
