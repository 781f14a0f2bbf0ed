use vstd::prelude::*;
use crate::fixed::{clamp, isqrt, sqrt_floor, Point, FINE, ONE, STEPS};
use crate::occluder::{texel, OccluderLayer};
use vstd::arithmetic::div_mod::lemma_div_is_ordered;

verus! {

/// A ray direction, a unit vector in fixed point (e.g. `(ONE, 0)` points east).
#[derive(Clone, Copy, Debug, PartialEq, Eq, Structural)]
pub struct Dir {
    pub x: i64,
    pub y: i64,
}

impl Dir {
    pub open spec fn wf(self) -> bool {
        -ONE <= self.x <= ONE && -ONE <= self.y <= ONE
    }
}

/// One texel of the occlusion map: the primary distance channel and the
/// auxiliary channel, which is zero exactly when the ray hit nothing.
#[derive(Clone, Copy, Debug, PartialEq, Eq, Structural)]
pub struct OcclusionEntry {
    pub dist: i64,
    pub aux: i64,
}

/// Fine coordinate of marching step `i` along one axis, clamped to the unit square.
pub open spec fn sample(p: int, d: int, i: int) -> int {
    clamp(p * STEPS + i * d, 0, FINE as int)
}

/// Marching step `i` from `pos` along `dir` lands on a blocking texel.
pub open spec fn hits(layer: OccluderLayer, pos: Point, dir: Dir, i: int) -> bool {
    layer.opaque_at(sample(pos.x as int, dir.x as int, i), sample(pos.y as int, dir.y as int, i))
}

/// The first marching step at or after `i` that hits an occluder.
pub open spec fn first_hit(layer: OccluderLayer, pos: Point, dir: Dir, i: int) -> Option<int>
    decreases STEPS - i,
{
    if i >= STEPS || i < 0 {
        None
    } else if hits(layer, pos, dir, i) {
        Some(i)
    } else {
        first_hit(layer, pos, dir, i + 1)
    }
}

/// Half the distance from the light to the sample of step `i`, in fixed point
/// (rounded down).
pub open spec fn hit_distance(pos: Point, dir: Dir, i: int) -> int {
    let dx = sample(pos.x as int, dir.x as int, i) - pos.x * STEPS;
    let dy = sample(pos.y as int, dir.y as int, i) - pos.y * STEPS;
    sqrt_floor(dx * dx + dy * dy) / (2 * STEPS)
}

/// The distance recorded for a ray: the half distance to the first hit, or the
/// sentinel `ONE` when nothing is hit.
pub open spec fn ray_distance(layer: OccluderLayer, pos: Point, dir: Dir) -> int {
    match first_hit(layer, pos, dir, 0) {
        Some(i) => hit_distance(pos, dir, i),
        None => ONE as int,
    }
}

/// The map entry of a ray: the distance, repeated in the auxiliary channel
/// unless it is the sentinel, in which case that channel is zero.
pub open spec fn ray_entry(layer: OccluderLayer, pos: Point, dir: Dir) -> OcclusionEntry {
    let d = ray_distance(layer, pos, dir);
    OcclusionEntry { dist: d as i64, aux: if d == ONE { 0 } else { d as i64 } }
}

proof fn lemma_square_bound(v: int)
    requires
        -FINE <= v <= FINE,
    ensures
        0 <= v * v <= FINE * FINE,
{
    assert(0 <= v * v <= FINE * FINE) by (nonlinear_arith)
        requires
            -FINE <= v <= FINE,
    ;
}

/// Marches one ray from `pos` along `dir` over `layer`.
pub fn march_ray(layer: &OccluderLayer, pos: Point, dir: Dir) -> (r: OcclusionEntry)
    requires
        layer.wf(),
        pos.in_unit(),
        dir.wf(),
    ensures
        r == ray_entry(*layer, pos, dir),
        first_hit(*layer, pos, dir, 0) is Some ==> 0 <= r.dist < ONE && r.aux == r.dist,
        0 <= r.dist <= ONE,
{
    let base_x: i64 = pos.x * STEPS;
    let base_y: i64 = pos.y * STEPS;
    let mut i: i64 = 0;
    while i < STEPS
        invariant
            0 <= i <= STEPS,
            layer.wf(),
            pos.in_unit(),
            dir.wf(),
            base_x == pos.x * STEPS,
            base_y == pos.y * STEPS,
            first_hit(*layer, pos, dir, 0) == first_hit(*layer, pos, dir, i as int),
        decreases STEPS - i,
    {
        assert(-FINE <= i * dir.x <= FINE && -FINE <= i * dir.y <= FINE) by (nonlinear_arith)
            requires
                0 <= i <= STEPS,
                -ONE <= dir.x <= ONE,
                -ONE <= dir.y <= ONE,
        ;
        let fx = clamp_fine(base_x + i * dir.x);
        let fy = clamp_fine(base_y + i * dir.y);
        if layer.is_opaque_at(fx, fy) {
            let dx: i64 = fx - base_x;
            let dy: i64 = fy - base_y;
            proof {
                lemma_square_bound(dx as int);
                lemma_square_bound(dy as int);
            }
            let root = isqrt((dx * dx + dy * dy) as u64);
            assert(root < 2 * FINE) by (nonlinear_arith)
                requires
                    root * root <= dx * dx + dy * dy,
                    dx * dx + dy * dy <= 2 * FINE * FINE,
            ;
            let d: i64 = (root / (2 * STEPS as u64)) as i64;
            assert(fx == sample(pos.x as int, dir.x as int, i as int));
            assert(fy == sample(pos.y as int, dir.y as int, i as int));
            assert(hits(*layer, pos, dir, i as int));
            assert(first_hit(*layer, pos, dir, i as int) == Some(i as int));
            assert(hit_distance(pos, dir, i as int) == d);
            assert(d < ONE) by (nonlinear_arith)
                requires
                    d == root / 2048,
                    0 <= root < 2048 * ONE,
            ;
            return OcclusionEntry { dist: d, aux: d };
        }
        i = i + 1;
    }
    OcclusionEntry { dist: ONE, aux: 0 }
}

fn clamp_fine(v: i64) -> (r: i64)
    ensures
        r == clamp(v as int, 0, FINE as int),
{
    if v < 0 {
        0
    } else if v > FINE {
        FINE
    } else {
        v
    }
}

/// The occlusion map: one entry per ray direction, in order.
pub fn occlusion_map(layer: &OccluderLayer, pos: Point, dirs: &Vec<Dir>) -> (r: Vec<OcclusionEntry>)
    requires
        layer.wf(),
        pos.in_unit(),
        forall|k: int| 0 <= k < dirs@.len() ==> (#[trigger] dirs@[k]).wf(),
    ensures
        r@.len() == dirs@.len(),
        forall|k: int| 0 <= k < dirs@.len() ==> #[trigger] r@[k] == ray_entry(*layer, pos, dirs@[k]),
        forall|k: int| 0 <= k < dirs@.len() ==> 0 <= #[trigger] r@[k].dist <= ONE,
{
    let mut out: Vec<OcclusionEntry> = Vec::new();
    let mut k: usize = 0;
    while k < dirs.len()
        invariant
            layer.wf(),
            pos.in_unit(),
            forall|j: int| 0 <= j < dirs@.len() ==> (#[trigger] dirs@[j]).wf(),
            k <= dirs@.len(),
            out@.len() == k,
            forall|j: int| 0 <= j < k ==> #[trigger] out@[j] == ray_entry(*layer, pos, dirs@[j]),
            forall|j: int| 0 <= j < k ==> 0 <= #[trigger] out@[j].dist <= ONE,
        decreases dirs@.len() - k,
    {
        let e = march_ray(layer, pos, dirs[k]);
        out.push(e);
        k = k + 1;
    }
    out
}

/// A texel index lies in `[0, size)`.
proof fn lemma_texel_in_range(fine: int, size: int)
    requires
        0 <= fine <= FINE,
        0 < size,
    ensures
        0 <= texel(fine, size) < size,
{
    assert(fine * size >= 0) by (nonlinear_arith)
        requires
            0 <= fine,
            0 < size,
    ;
}

/// Texel indices grow with the coordinate.
proof fn lemma_texel_monotone(a: int, b: int, size: int)
    requires
        0 <= a <= b <= FINE,
        0 < size,
    ensures
        texel(a, size) <= texel(b, size),
{
    assert(a * size <= b * size) by (nonlinear_arith)
        requires
            a <= b,
            0 < size,
    ;
    lemma_div_is_ordered(a * size, b * size, FINE as int);
}

/// Every sample of a march stays in the unit square.
proof fn lemma_sample_in_range(p: int, d: int, i: int)
    ensures
        0 <= sample(p, d, i) <= FINE,
{
}

proof fn lemma_no_hit_from(layer: OccluderLayer, pos: Point, dir: Dir, i: int)
    requires
        layer.wf(),
        0 <= i,
        forall|j: int| i <= j < STEPS ==> !#[trigger] hits(layer, pos, dir, j),
    ensures
        first_hit(layer, pos, dir, i) is None,
    decreases STEPS - i,
{
    if i < STEPS {
        assert(!hits(layer, pos, dir, i));
        lemma_no_hit_from(layer, pos, dir, i + 1);
    }
}

/// With no blocking texel in the layer, every ray from a light in the unit
/// square records the no-hit sentinel `ONE` with a zero auxiliary channel.
pub proof fn lemma_clear_layer_all_sentinel(layer: OccluderLayer, pos: Point, dirs: Seq<Dir>)
    requires
        layer.wf(),
        layer.clear_of_occluders(),
        pos.in_unit(),
    ensures
        forall|k: int|
            0 <= k < dirs.len() ==> #[trigger] ray_entry(layer, pos, dirs[k]) == (OcclusionEntry {
                dist: ONE,
                aux: 0,
            }),
{
    assert forall|k: int| 0 <= k < dirs.len() implies #[trigger] ray_entry(layer, pos, dirs[k])
        == (OcclusionEntry { dist: ONE, aux: 0 }) by {
        let dir = dirs[k];
        assert forall|j: int| 0 <= j < STEPS implies !#[trigger] hits(layer, pos, dir, j) by {
            let fx = sample(pos.x as int, dir.x as int, j);
            let fy = sample(pos.y as int, dir.y as int, j);
            lemma_sample_in_range(pos.x as int, dir.x as int, j);
            lemma_sample_in_range(pos.y as int, dir.y as int, j);
            lemma_texel_in_range(fx, layer.width as int);
            lemma_texel_in_range(fy, layer.height as int);
            assert(!layer.opaque(texel(fx, layer.width as int), texel(fy, layer.height as int)));
        }
        lemma_no_hit_from(layer, pos, dir, 0);
    }
}

/// A ray pointing west (180 degrees) records the no-hit sentinel when every
/// blocking texel lies in a column east of the light's own column.
pub proof fn lemma_west_ray_misses_east_occluders(layer: OccluderLayer, pos: Point)
    requires
        layer.wf(),
        pos.in_unit(),
        forall|tx: int, ty: int|
            0 <= tx < layer.width && 0 <= ty < layer.height && #[trigger] layer.opaque(tx, ty)
                ==> tx > texel(pos.x * STEPS, layer.width as int),
    ensures
        ray_entry(layer, pos, Dir { x: (-ONE) as i64, y: 0 }) == (OcclusionEntry { dist: ONE, aux: 0 }),
{
    let dir = Dir { x: (-ONE) as i64, y: 0 };
    assert forall|j: int| 0 <= j < STEPS implies !#[trigger] hits(layer, pos, dir, j) by {
        let fx = sample(pos.x as int, dir.x as int, j);
        let fy = sample(pos.y as int, dir.y as int, j);
        lemma_sample_in_range(pos.x as int, dir.x as int, j);
        lemma_sample_in_range(pos.y as int, dir.y as int, j);
        assert(j * dir.x <= 0) by (nonlinear_arith)
            requires
                0 <= j,
                dir.x == -ONE,
        ;
        assert(fx <= pos.x * STEPS);
        lemma_texel_monotone(fx, pos.x * STEPS, layer.width as int);
        lemma_texel_in_range(fx, layer.width as int);
        lemma_texel_in_range(fy, layer.height as int);
    }
    lemma_no_hit_from(layer, pos, dir, 0);
}

/// The first fine x coordinate that falls in texel column `c` of `w` columns.
pub open spec fn near_edge(c: int, w: int) -> int {
    (c * FINE + w - 1) / w
}

proof fn lemma_first_hit_at(layer: OccluderLayer, pos: Point, dir: Dir, i: int, k: int)
    requires
        0 <= i <= k < STEPS,
        hits(layer, pos, dir, k),
        forall|j: int| i <= j < k ==> !#[trigger] hits(layer, pos, dir, j),
    ensures
        first_hit(layer, pos, dir, i) == Some(k),
    decreases k - i,
{
    if i < k {
        assert(!hits(layer, pos, dir, i));
        lemma_first_hit_at(layer, pos, dir, i + 1, k);
    }
}

/// With a single blocking texel, in column `c` of the light's own row and east
/// of the light no farther than half the square, a ray pointing east (0 degrees)
/// records half the distance to that texel's near edge, within one marching
/// step: `2 * STEPS * dist` lies in `(edge - 2 * STEPS, edge + ONE)`, where
/// `edge` is that distance in fine units. This needs texels at least one step wide.
pub proof fn lemma_east_ray_reports_half_distance(layer: OccluderLayer, pos: Point, c: int)
    requires
        layer.wf(),
        pos.in_unit(),
        layer.width <= STEPS,
        0 <= c < layer.width,
        layer.opaque(c, texel(pos.y * STEPS, layer.height as int)),
        forall|tx: int, ty: int|
            0 <= tx < layer.width && 0 <= ty < layer.height && #[trigger] layer.opaque(tx, ty)
                ==> tx == c && ty == texel(pos.y * STEPS, layer.height as int),
        pos.x * STEPS < near_edge(c, layer.width as int) <= pos.x * STEPS + FINE / 2,
    ensures
        ({
            let edge = near_edge(c, layer.width as int) - pos.x * STEPS;
            let e = ray_entry(layer, pos, Dir { x: ONE, y: 0 });
            &&& 2 * STEPS * e.dist < edge + ONE
            &&& edge < 2 * STEPS * (e.dist + 1)
            &&& e.aux == e.dist
        }),
{
    let dir = Dir { x: ONE, y: 0 };
    let w = layer.width as int;
    let base = pos.x * STEPS;
    let e = near_edge(c, w);
    let m = c * FINE + w - 1;
    assert(e * w <= m < (e + 1) * w) by (nonlinear_arith)
        requires
            e == m / w,
            w > 0,
            m >= 0,
    ;
    assert((e + 1) * w == e * w + w && (e - 1) * w == e * w - w) by (nonlinear_arith);
    assert(e <= FINE) by (nonlinear_arith)
        requires
            e * w <= c * FINE + w - 1,
            0 <= c < w,
    ;
    let k = (e - base + ONE - 1) / (ONE as int);
    assert(k * ONE >= e - base && k * ONE <= e - base + ONE - 1 && 1 <= k <= 512) by (nonlinear_arith)
        requires
            k == (e - base + ONE - 1) / (ONE as int),
            0 < e - base <= FINE / 2,
    ;
    let row = texel(pos.y * STEPS, layer.height as int);
    lemma_texel_in_range(pos.y * STEPS, layer.height as int);
    assert forall|j: int| 0 <= j < k implies !#[trigger] hits(layer, pos, dir, j) by {
        let fx = sample(pos.x as int, dir.x as int, j);
        assert(j * dir.x == j * ONE && j * ONE <= k * ONE - ONE) by (nonlinear_arith)
            requires
                dir.x == ONE,
                j < k,
        ;
        assert(fx == base + j * ONE);
        assert(fx * w < c * FINE) by (nonlinear_arith)
            requires
                fx <= e - 1,
                e * w <= m,
                m == c * FINE + w - 1,
                w > 0,
        ;
        assert(fx * w / (FINE as int) < c) by (nonlinear_arith)
            requires
                fx * w < c * FINE,
                fx >= 0,
                w > 0,
        ;
        lemma_texel_in_range(fx, w);
        lemma_sample_in_range(pos.y as int, dir.y as int, j);
        lemma_texel_in_range(sample(pos.y as int, dir.y as int, j), layer.height as int);
    }
    let fk = base + k * ONE;
    assert(fk * w >= c * FINE) by (nonlinear_arith)
        requires
            fk >= e,
            e * w >= m - w + 1,
            m == c * FINE + w - 1,
            w > 0,
    ;
    assert(fk * w < (c + 1) * FINE) by (nonlinear_arith)
        requires
            fk <= e - 1 + ONE,
            (e - 1) * w <= m - w,
            m == c * FINE + w - 1,
            0 < w <= STEPS,
    ;
    assert(fk < FINE) by (nonlinear_arith)
        requires
            fk * w < (c + 1) * FINE,
            c + 1 <= w,
            w > 0,
    ;
    assert(fk * w / (FINE as int) == c) by (nonlinear_arith)
        requires
            c * FINE <= fk * w < (c + 1) * FINE,
    ;
    assert(k * dir.x == k * ONE) by (nonlinear_arith)
        requires
            dir.x == ONE,
    ;
    assert(sample(pos.x as int, dir.x as int, k) == fk);
    assert(sample(pos.y as int, dir.y as int, k) == pos.y * STEPS);
    assert(hits(layer, pos, dir, k));
    lemma_first_hit_at(layer, pos, dir, 0, k);
    let dx = k * ONE;
    assert(crate::fixed::is_root(dx, dx * dx + 0 * 0)) by (nonlinear_arith)
        requires
            dx >= 0,
    ;
    crate::fixed::lemma_sqrt_floor(dx, dx * dx + 0 * 0);
    let d = dx / (2 * STEPS);
    assert(hit_distance(pos, dir, k) == d);
    assert(2 * STEPS * d <= dx < 2 * STEPS * (d + 1)) by (nonlinear_arith)
        requires
            d == dx / (2 * STEPS),
            dx >= 0,
    ;
    assert(d < ONE);
}

} // verus!
