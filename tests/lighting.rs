use shadow_pong::fixed::{isqrt, Point, ONE, TURN};
use shadow_pong::light::{LightParameters, Rgba};
use shadow_pong::mask::{
    angle_bucket, glow_intensity_at, is_lit, light_pixel, shadow_intensity_at, shadow_pixel,
    wrap_angle, Fragment, GLOW_CAP,
};
use shadow_pong::occluder::OccluderLayer;
use shadow_pong::occlusion::{march_ray, occlusion_map, Dir, OcclusionEntry};
use shadow_pong::pipeline::{blend_of, frame_steps, ray_angle, Blend, ConfigError, Pipeline, Step};

const RAYS: u32 = 620;
const STRENGTH: i64 = 500;

fn black() -> Rgba {
    Rgba { r: 0, g: 0, b: 0, a: ONE }
}

fn magenta() -> Rgba {
    Rgba { r: ONE, g: 0, b: ONE, a: ONE }
}

fn dir_of(angle_millideg: i64) -> Dir {
    let rad = (angle_millideg as f64 / 1000.0).to_radians();
    let c = (rad.cos() * ONE as f64).round() as i64;
    let s = (rad.sin() * ONE as f64).round() as i64;
    Dir { x: c.clamp(-ONE, ONE), y: s.clamp(-ONE, ONE) }
}

fn ray_dirs(n: u32) -> Vec<Dir> {
    (0..n).map(|i| dir_of(ray_angle(i, n))).collect()
}

fn angle_to(from: Point, to: Point) -> i64 {
    let dy = (to.y - from.y) as f64;
    let dx = (to.x - from.x) as f64;
    (dy.atan2(dx).to_degrees() * 1000.0).round() as i64
}

fn frag(light: Point, coord: Point) -> Fragment {
    Fragment { coord, angle: angle_to(light, coord) }
}

fn sentinel() -> OcclusionEntry {
    OcclusionEntry { dist: ONE, aux: 0 }
}

#[test]
fn isqrt_exact_values() {
    assert_eq!(isqrt(0), 0);
    assert_eq!(isqrt(15), 3);
    assert_eq!(isqrt(16), 4);
    assert_eq!(isqrt(u64::MAX), 4_294_967_295);
}

#[test]
fn fill_rect_sets_only_the_rectangle() {
    let mut layer = OccluderLayer::new(4, 3);
    layer.fill_rect(1, 1, 3, 2, 255);
    for ty in 0..3 {
        for tx in 0..4 {
            let expect = if (1..3).contains(&tx) && ty == 1 { 255 } else { 0 };
            assert_eq!(layer.alpha[ty * 4 + tx], expect);
        }
    }
}

#[test]
fn opacity_threshold_is_strictly_above_point_eight() {
    let mut layer = OccluderLayer::new(2, 1);
    layer.fill_rect(0, 0, 1, 1, 204);
    layer.fill_rect(1, 0, 2, 1, 205);
    assert!(!layer.is_opaque_at(0, 0));
    assert!(layer.is_opaque_at(1_024_000_000, 0));
}

#[test]
fn clear_layer_gives_sentinel_everywhere() {
    let layer = OccluderLayer::new(80, 60);
    let dirs = ray_dirs(RAYS);
    for pos in [Point { x: 1, y: 1 }, Point { x: 500_000, y: 500_000 }, Point { x: 999_999, y: 3 }] {
        let map = occlusion_map(&layer, pos, &dirs);
        assert_eq!(map.len(), RAYS as usize);
        assert!(map.iter().all(|e| *e == sentinel()));
    }
}

#[test]
fn east_occluder_reports_half_distance() {
    // One blocking texel at column 75 of the light's row 50: its near edge is 0.5 away.
    let mut layer = OccluderLayer::new(100, 100);
    layer.fill_rect(75, 50, 76, 51, 255);
    let pos = Point { x: 250_000, y: 505_000 };
    let east = march_ray(&layer, pos, Dir { x: ONE, y: 0 });
    assert_eq!(east, OcclusionEntry { dist: 250_000, aux: 250_000 });
    let west = march_ray(&layer, pos, Dir { x: -ONE, y: 0 });
    assert_eq!(west, sentinel());
}

#[test]
fn light_inside_occluder_reports_zero_distance() {
    let mut layer = OccluderLayer::new(10, 10);
    layer.fill_rect(0, 0, 10, 10, 255);
    let e = march_ray(&layer, Point { x: 500_000, y: 500_000 }, Dir { x: 0, y: ONE });
    assert_eq!(e, OcclusionEntry { dist: 0, aux: 0 });
}

#[test]
fn ray_angles_split_the_turn() {
    assert_eq!(ray_angle(0, RAYS), 0);
    assert_eq!(ray_angle(155, RAYS), 90_000);
    assert_eq!(ray_angle(310, RAYS), 180_000);
    assert_eq!(ray_angle(619, RAYS), 359_419);
}

#[test]
fn negative_angle_wraps_onto_same_bucket() {
    assert_eq!(wrap_angle(-10_000), 350_000);
    assert_eq!(wrap_angle(90_000), 90_000);
    assert_eq!(angle_bucket(-10_000, 620), angle_bucket(350_000, 620));
    assert_eq!(angle_bucket(350_000, 620), 602);
    assert_eq!(angle_bucket(TURN, 620), 619);
    assert_eq!(angle_bucket(0, 620), 0);
}

fn session(w: u32, h: u32) -> Pipeline {
    Pipeline::new(w, h, RAYS, STRENGTH, magenta(), black()).unwrap()
}

#[test]
fn light_follows_the_ball() {
    let mut p = session(800, 600);
    assert_eq!(p.light.position, Point { x: 500_000, y: 500_000 });
    p.light.follow_ball(400, 300, 5);
    assert_eq!(p.light.position, Point { x: 493_750, y: 508_334 });
    p.light.follow_ball(-20, 900, 5);
    assert_eq!(p.light.position, Point { x: 0, y: 0 });
}

#[test]
fn glow_and_color_setters() {
    let mut p = session(800, 600);
    p.light.set_glow(-5);
    assert_eq!(p.light.glow, -5);
    p.light.set_light_color(Rgba { r: 0, g: 0, b: ONE, a: ONE });
    assert_eq!(p.light.light_color, Rgba { r: 0, g: 0, b: ONE, a: ONE });
    assert_eq!(p.light.strength, STRENGTH);
}

#[test]
fn open_scene_is_unshadowed_with_radial_falloff() {
    let mut p = session(800, 600);
    p.light.follow_ball(400, 300, 5);
    let light = p.light.position;
    let layer = OccluderLayer::new(80, 60);
    let map = occlusion_map(&layer, light, &ray_dirs(RAYS));
    let params = p.light;

    // At the light itself the ratio saturates.
    let at = frag(light, light);
    assert_eq!(shadow_intensity_at(&params, &map, at), 0);
    assert_eq!(glow_intensity_at(&params, &map, at), GLOW_CAP);

    // A tenth of the width to the right: p / d^2 = 0.0005 / (0.1 * 4/3)^2.
    let f = frag(light, Point { x: light.x + 100_000, y: light.y });
    assert!(is_lit(&params, &map, f));
    assert_eq!(shadow_intensity_at(&params, &map, f), 971_875);
    assert_eq!(glow_intensity_at(&params, &map, f), 28_125);
    assert_eq!(shadow_pixel(&params, &map, f), Rgba { r: 28_125, g: 28_125, b: 28_125, a: ONE });
    assert_eq!(light_pixel(&params, &map, f), Rgba { r: 28_125, g: 0, b: 28_125, a: ONE });

    // Every fragment on a grid is lit, and the glow falls off with distance.
    let mut last_glow = GLOW_CAP;
    for k in 1..=4 {
        let g = frag(light, Point { x: light.x + 100_000 * k, y: light.y });
        assert!(is_lit(&params, &map, g));
        let glow = glow_intensity_at(&params, &map, g);
        assert!(glow <= last_glow);
        last_glow = glow;
    }
    for gx in 0..=10 {
        for gy in 0..=10 {
            let g = frag(light, Point { x: gx * 100_000, y: gy * 100_000 });
            assert!(is_lit(&params, &map, g));
            let t = shadow_intensity_at(&params, &map, g);
            assert!((0..=ONE).contains(&t));
        }
    }
}

#[test]
fn shadow_mask_darkens_with_distance() {
    let p = session(800, 600);
    let light = p.light.position;
    let layer = OccluderLayer::new(8, 6);
    let map = occlusion_map(&layer, light, &ray_dirs(RAYS));
    let mut last = ONE;
    for k in 1..6 {
        let g = frag(light, Point { x: light.x, y: light.y + 20_000 * k });
        let px = shadow_pixel(&p.light, &map, g);
        assert!(px.r <= last);
        last = px.r;
    }
    assert!(last < ONE / 10);
}

#[test]
fn glow_stays_within_cap() {
    let mut p = session(800, 600);
    p.light.set_glow(ONE);
    let light = p.light.position;
    let layer = OccluderLayer::new(8, 6);
    let map = occlusion_map(&layer, light, &ray_dirs(RAYS));
    for gx in 0..=20 {
        for gy in 0..=20 {
            let g = frag(light, Point { x: gx * 50_000, y: gy * 50_000 });
            let t = glow_intensity_at(&p.light, &map, g);
            assert!((0..=GLOW_CAP).contains(&t));
        }
    }
}

#[test]
fn paddle_casts_a_contiguous_wedge() {
    // A paddle between the light (centre) and the right edge.
    let mut layer = OccluderLayer::new(80, 60);
    layer.fill_rect(70, 20, 72, 40, 255);
    let light = Point { x: 500_000, y: 500_000 };
    let map = occlusion_map(&layer, light, &ray_dirs(RAYS));
    let hit: Vec<bool> = map.iter().map(|e| e.dist < ONE).collect();
    assert!(hit[0]);
    assert!(!hit[310]);
    // The hit rays form one arc around 0 degrees.
    let changes = (0..hit.len()).filter(|&i| hit[i] != hit[(i + 1) % hit.len()]).count();
    assert_eq!(changes, 2);
    for e in map.iter().filter(|e| e.dist < ONE) {
        assert!(e.dist < 250_000);
        assert_eq!(e.aux, e.dist);
    }
    // Behind the paddle the shadow is full whatever the strength and glow.
    for (strength, glow) in [(STRENGTH, 0), (ONE, ONE), (ONE, -ONE), (-ONE, 0)] {
        let mut p = Pipeline::new(800, 600, RAYS, strength, magenta(), black()).unwrap();
        p.light.set_glow(glow);
        for y in [450_000, 500_000, 550_000] {
            let g = frag(light, Point { x: 950_000, y });
            assert!(!is_lit(&p.light, &map, g));
            assert_eq!(shadow_intensity_at(&p.light, &map, g), ONE);
            assert_eq!(glow_intensity_at(&p.light, &map, g), 0);
            assert_eq!(shadow_pixel(&p.light, &map, g), black());
        }
    }
}

#[test]
fn resize_recreates_targets() {
    let mut p = session(800, 600);
    assert_eq!(p.targets.foreground.width, 800);
    assert_eq!(p.targets.occlusion.width, RAYS);
    assert_eq!(p.targets.occlusion.height, 1);
    assert_eq!(p.resize(1024, 768), Ok(()));
    for t in [p.targets.foreground, p.targets.shadow, p.targets.light] {
        assert_eq!((t.width, t.height), (1024, 768));
    }
    assert_eq!((p.targets.occlusion.width, p.targets.occlusion.height), (RAYS, 1));
    assert_eq!((p.light.screen_w, p.light.screen_h), (1024, 768));
    // The next frame's passes run at the new size.
    let layer = OccluderLayer::new(1024, 768);
    let map = occlusion_map(&layer, p.light.position, &ray_dirs(p.ray_count));
    assert_eq!(map.len(), RAYS as usize);
}

#[test]
fn refused_resize_changes_nothing() {
    let mut p = session(800, 600);
    assert_eq!(p.resize(0, 768), Err(ConfigError::ZeroScreenSize));
    assert_eq!(p.resize(20_000, 768), Err(ConfigError::TooLarge));
    assert_eq!((p.targets.shadow.width, p.targets.shadow.height), (800, 600));
    assert_eq!((p.light.screen_w, p.light.screen_h), (800, 600));
}

#[test]
fn malformed_configuration_is_refused() {
    let mk = |w, h, r| Pipeline::new(w, h, r, STRENGTH, magenta(), black()).err();
    assert_eq!(mk(0, 600, RAYS), Some(ConfigError::ZeroScreenSize));
    assert_eq!(mk(800, 0, RAYS), Some(ConfigError::ZeroScreenSize));
    assert_eq!(mk(800, 600, 0), Some(ConfigError::ZeroRayCount));
    assert_eq!(mk(800, 600, 100_000), Some(ConfigError::TooLarge));
    assert_eq!(mk(800, 600, RAYS), None);
}

#[test]
fn frame_order_and_blending() {
    let steps = frame_steps();
    assert_eq!(steps.len(), 11);
    let pos = |s: Step| steps.iter().position(|x| *x == s).unwrap();
    assert!(pos(Step::RunOcclusion) < pos(Step::RunShadow));
    assert!(pos(Step::DrawBackground) < pos(Step::DrawShadowMask));
    assert!(pos(Step::DrawShadowMask) < pos(Step::DrawForeground));
    assert!(pos(Step::DrawForeground) < pos(Step::DrawLightMask));
    assert_eq!(steps[10], Step::DrawOverlays);
    assert_eq!(blend_of(Step::DrawShadowMask), Blend::Multiply);
    assert_eq!(blend_of(Step::DrawLightMask), Blend::Add);
    assert_eq!(blend_of(Step::DrawForeground), Blend::Normal);
}

#[test]
fn occluded_mask_takes_shadow_color() {
    let tint = Rgba { r: 200_000, g: 400_000, b: 600_000, a: 300_000 };
    let mut p = Pipeline::new(800, 600, RAYS, STRENGTH, magenta(), tint).unwrap();
    p.light.set_glow(3);
    let mut layer = OccluderLayer::new(80, 60);
    layer.fill_rect(10, 0, 12, 60, 255);
    let light = p.light.position;
    let map = occlusion_map(&layer, light, &ray_dirs(RAYS));
    let behind = frag(light, Point { x: 50_000, y: 500_000 });
    assert_eq!(shadow_pixel(&p.light, &map, behind), Rgba { a: ONE, ..tint });
    assert_eq!(light_pixel(&p.light, &map, behind), Rgba { r: 0, g: 0, b: 0, a: ONE });
    // In front of the wall the mask blends from white toward the tint.
    let front = frag(light, Point { x: 400_000, y: 500_000 });
    let px = shadow_pixel(&p.light, &map, front);
    assert!(px.r > tint.r && px.r < ONE);
    assert!(px.b > tint.b && px.b < ONE);
}
