use vstd::prelude::*;
use crate::fixed::{Point, MAX_DIM, ONE};

verus! {

/// An RGBA color, each channel in fixed point.
#[derive(Clone, Copy, Debug, PartialEq, Eq, Structural)]
pub struct Rgba {
    pub r: i64,
    pub g: i64,
    pub b: i64,
    pub a: i64,
}

impl Rgba {
    pub open spec fn wf(self) -> bool {
        0 <= self.r <= ONE && 0 <= self.g <= ONE && 0 <= self.b <= ONE && 0 <= self.a <= ONE
    }
}

/// The parameter block shared by the occlusion, shadow and glow passes.
#[derive(Clone, Copy, Debug, PartialEq, Eq, Structural)]
pub struct LightParameters {
    pub position: Point,
    pub light_color: Rgba,
    pub shadow_color: Rgba,
    pub screen_w: u32,
    pub screen_h: u32,
    pub glow: i64,
    pub strength: i64,
}

/// A pixel coordinate along an axis of `size` pixels, normalized into `[0, ONE]`.
pub open spec fn norm_coord(v: int, size: int) -> int {
    if v <= 0 {
        0
    } else if v >= size {
        ONE as int
    } else {
        v * ONE / size
    }
}

/// Largest ball coordinate or radius magnitude accepted, in pixels.
pub const MAX_COORD: i64 = 0x3fff_ffff_ffff_ffff;

impl LightParameters {
    pub open spec fn wf(self) -> bool {
        &&& self.position.in_unit()
        &&& self.light_color.wf()
        &&& self.shadow_color.wf()
        &&& 0 < self.screen_w <= MAX_DIM
        &&& 0 < self.screen_h <= MAX_DIM
        &&& -ONE <= self.glow <= ONE
        &&& -ONE <= self.strength <= ONE
    }

    /// Parameters for a `screen_w` by `screen_h` target, with the light at the
    /// centre and no glow.
    pub fn new(
        screen_w: u32,
        screen_h: u32,
        strength: i64,
        light_color: Rgba,
        shadow_color: Rgba,
    ) -> (r: LightParameters)
        requires
            0 < screen_w <= MAX_DIM,
            0 < screen_h <= MAX_DIM,
            -ONE <= strength <= ONE,
            light_color.wf(),
            shadow_color.wf(),
        ensures
            r.wf(),
            r.position.x == ONE / 2,
            r.position.y == ONE / 2,
            r.screen_w == screen_w,
            r.screen_h == screen_h,
            r.strength == strength,
            r.glow == 0,
            r.light_color == light_color,
            r.shadow_color == shadow_color,
    {
        LightParameters {
            position: Point { x: ONE / 2, y: ONE / 2 },
            light_color,
            shadow_color,
            screen_w,
            screen_h,
            glow: 0,
            strength,
        }
    }

    /// Moves the light onto the ball: `x = (ball_x - radius) / width`,
    /// `y = 1 - (ball_y - radius) / height` (the light's origin is the bottom-left
    /// corner, the game's the top-left), each clamped into `[0, 1]`.
    pub fn follow_ball(&mut self, ball_x: i64, ball_y: i64, radius: i64)
        requires
            old(self).wf(),
            -MAX_COORD <= ball_x <= MAX_COORD,
            -MAX_COORD <= ball_y <= MAX_COORD,
            -MAX_COORD <= radius <= MAX_COORD,
        ensures
            final(self).wf(),
            final(self).position.x == norm_coord(ball_x - radius, old(self).screen_w as int),
            final(self).position.y == ONE - norm_coord(ball_y - radius, old(self).screen_h as int),
            final(self).light_color == old(self).light_color,
            final(self).shadow_color == old(self).shadow_color,
            final(self).screen_w == old(self).screen_w,
            final(self).screen_h == old(self).screen_h,
            final(self).glow == old(self).glow,
            final(self).strength == old(self).strength,
    {
        let x = normalize_coord(ball_x - radius, self.screen_w);
        let y = normalize_coord(ball_y - radius, self.screen_h);
        self.position = Point { x, y: ONE - y };
    }

    /// Sets the glow offset added to the strength.
    pub fn set_glow(&mut self, glow: i64)
        requires
            old(self).wf(),
            -ONE <= glow <= ONE,
        ensures
            *final(self) == (LightParameters { glow, ..*old(self) }),
            final(self).wf(),
    {
        self.glow = glow;
    }

    /// Sets the color of the light.
    pub fn set_light_color(&mut self, color: Rgba)
        requires
            old(self).wf(),
            color.wf(),
        ensures
            *final(self) == (LightParameters { light_color: color, ..*old(self) }),
            final(self).wf(),
    {
        self.light_color = color;
    }
}

fn normalize_coord(v: i64, size: u32) -> (r: i64)
    requires
        0 < size <= MAX_DIM,
    ensures
        r == norm_coord(v as int, size as int),
        0 <= r <= ONE,
{
    if v <= 0 {
        0
    } else if v >= size as i64 {
        ONE
    } else {
        assert(v * ONE / (size as int) <= ONE) by (nonlinear_arith)
            requires
                0 < v < size,
        ;
        assert(v * ONE >= 0) by (nonlinear_arith)
            requires
                0 < v,
        ;
        v * ONE / (size as i64)
    }
}

} // verus!
