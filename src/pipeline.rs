use vstd::prelude::*;
use crate::fixed::{MAX_DIM, ONE, TURN};
use crate::light::{LightParameters, Rgba};

verus! {

/// Why a configuration was refused.
#[derive(Clone, Copy, Debug, PartialEq, Eq, Structural)]
pub enum ConfigError {
    ZeroScreenSize,
    ZeroRayCount,
    TooLarge,
}

/// Width and height of an offscreen target, in texels.
#[derive(Clone, Copy, Debug, PartialEq, Eq, Structural)]
pub struct TargetSize {
    pub width: u32,
    pub height: u32,
}

/// The four offscreen targets of the pipeline.
#[derive(Clone, Copy, Debug, PartialEq, Eq, Structural)]
pub struct RenderTargets {
    pub foreground: TargetSize,
    pub occlusion: TargetSize,
    pub shadow: TargetSize,
    pub light: TargetSize,
}

/// The targets for a `w` by `h` screen and `rays` rays: the occlusion map is
/// `rays` by 1, the others match the screen.
pub open spec fn targets_for(w: u32, h: u32, rays: u32) -> RenderTargets {
    RenderTargets {
        foreground: TargetSize { width: w, height: h },
        occlusion: TargetSize { width: rays, height: 1 },
        shadow: TargetSize { width: w, height: h },
        light: TargetSize { width: w, height: h },
    }
}

/// The error a configuration is refused with, if any.
pub open spec fn config_error(w: u32, h: u32, rays: u32) -> Option<ConfigError> {
    if w == 0 || h == 0 {
        Some(ConfigError::ZeroScreenSize)
    } else if rays == 0 {
        Some(ConfigError::ZeroRayCount)
    } else if w > MAX_DIM || h > MAX_DIM || rays > MAX_DIM {
        Some(ConfigError::TooLarge)
    } else {
        None
    }
}

fn check_config(w: u32, h: u32, rays: u32) -> (r: Option<ConfigError>)
    ensures
        r == config_error(w, h, rays),
{
    if w == 0 || h == 0 {
        Some(ConfigError::ZeroScreenSize)
    } else if rays == 0 {
        Some(ConfigError::ZeroRayCount)
    } else if w > MAX_DIM || h > MAX_DIM || rays > MAX_DIM {
        Some(ConfigError::TooLarge)
    } else {
        None
    }
}

/// Render-target sizes and the light's parameters for one session.
pub struct Pipeline {
    pub targets: RenderTargets,
    pub ray_count: u32,
    pub light: LightParameters,
}

impl Pipeline {
    pub open spec fn wf(&self) -> bool {
        &&& self.light.wf()
        &&& 0 < self.ray_count <= MAX_DIM
        &&& self.targets == targets_for(self.light.screen_w, self.light.screen_h, self.ray_count)
    }

    /// A pipeline for a `screen_w` by `screen_h` screen with `ray_count` rays;
    /// a zero or oversized dimension or ray count is refused.
    pub fn new(
        screen_w: u32,
        screen_h: u32,
        ray_count: u32,
        strength: i64,
        light_color: Rgba,
        shadow_color: Rgba,
    ) -> (r: Result<Pipeline, ConfigError>)
        requires
            -ONE <= strength <= ONE,
            light_color.wf(),
            shadow_color.wf(),
        ensures
            match r {
                Ok(p) => {
                    &&& config_error(screen_w, screen_h, ray_count) is None
                    &&& p.wf()
                    &&& p.ray_count == ray_count
                    &&& p.targets == targets_for(screen_w, screen_h, ray_count)
                    &&& p.light.screen_w == screen_w
                    &&& p.light.screen_h == screen_h
                    &&& p.light.strength == strength
                    &&& p.light.glow == 0
                    &&& p.light.position.x == ONE / 2
                    &&& p.light.position.y == ONE / 2
                    &&& p.light.light_color == light_color
                    &&& p.light.shadow_color == shadow_color
                },
                Err(e) => config_error(screen_w, screen_h, ray_count) == Some(e),
            },
    {
        match check_config(screen_w, screen_h, ray_count) {
            Some(e) => Err(e),
            None => {
                let light = LightParameters::new(
                    screen_w,
                    screen_h,
                    strength,
                    light_color,
                    shadow_color,
                );
                Ok(Pipeline { targets: make_targets(screen_w, screen_h, ray_count), ray_count, light })
            },
        }
    }

    /// Recreates the targets for a new screen size; on refusal nothing changes.
    pub fn resize(&mut self, screen_w: u32, screen_h: u32) -> (r: Result<(), ConfigError>)
        requires
            old(self).wf(),
        ensures
            final(self).wf(),
            match r {
                Ok(()) => {
                    &&& config_error(screen_w, screen_h, old(self).ray_count) is None
                    &&& final(self).targets == targets_for(screen_w, screen_h, old(self).ray_count)
                    &&& final(self).ray_count == old(self).ray_count
                    &&& final(self).light == (LightParameters {
                        screen_w,
                        screen_h,
                        ..old(self).light
                    })
                },
                Err(e) => {
                    &&& config_error(screen_w, screen_h, old(self).ray_count) == Some(e)
                    &&& *final(self) == *old(self)
                },
            },
    {
        match check_config(screen_w, screen_h, self.ray_count) {
            Some(e) => Err(e),
            None => {
                self.targets = make_targets(screen_w, screen_h, self.ray_count);
                self.light.screen_w = screen_w;
                self.light.screen_h = screen_h;
                Ok(())
            },
        }
    }
}

fn make_targets(w: u32, h: u32, rays: u32) -> (r: RenderTargets)
    ensures
        r == targets_for(w, h, rays),
{
    RenderTargets {
        foreground: TargetSize { width: w, height: h },
        occlusion: TargetSize { width: rays, height: 1 },
        shadow: TargetSize { width: w, height: h },
        light: TargetSize { width: w, height: h },
    }
}

/// The angle of ray `i` of `n`, in millidegrees: `i / n * 360` degrees, rounded down.
pub fn ray_angle(i: u32, n: u32) -> (r: i64)
    requires
        0 < n,
        i < n,
    ensures
        r == i * TURN / (n as int),
        0 <= r < TURN,
{
    assert(0 <= i * TURN < n * TURN) by (nonlinear_arith)
        requires
            i < n,
    ;
    assert(i * TURN / (n as int) < TURN) by (nonlinear_arith)
        requires
            0 <= i < n,
    ;
    ((i as u64) * (TURN as u64) / (n as u64)) as i64
}

/// One step of a frame, in the order the compositor runs them.
#[derive(Clone, Copy, Debug, PartialEq, Eq, Structural)]
pub enum Step {
    ClearForeground,
    DrawOccluders,
    ClearMasks,
    RunOcclusion,
    RunShadow,
    RunGlow,
    DrawBackground,
    DrawShadowMask,
    DrawForeground,
    DrawLightMask,
    DrawOverlays,
}

/// How a layer is blended onto the final frame.
#[derive(Clone, Copy, Debug, PartialEq, Eq, Structural)]
pub enum Blend {
    Normal,
    Multiply,
    Add,
}

/// The fixed order of a frame's steps.
pub open spec fn frame_order() -> Seq<Step> {
    seq![
        Step::ClearForeground,
        Step::DrawOccluders,
        Step::ClearMasks,
        Step::RunOcclusion,
        Step::RunShadow,
        Step::RunGlow,
        Step::DrawBackground,
        Step::DrawShadowMask,
        Step::DrawForeground,
        Step::DrawLightMask,
        Step::DrawOverlays,
    ]
}

/// The steps of one frame, in order.
pub fn frame_steps() -> (r: Vec<Step>)
    ensures
        r@ == frame_order(),
{
    let r = vec![
        Step::ClearForeground,
        Step::DrawOccluders,
        Step::ClearMasks,
        Step::RunOcclusion,
        Step::RunShadow,
        Step::RunGlow,
        Step::DrawBackground,
        Step::DrawShadowMask,
        Step::DrawForeground,
        Step::DrawLightMask,
        Step::DrawOverlays,
    ];
    assert(r@ =~= frame_order());
    r
}

/// The blend mode of a step that draws onto the final frame: the shadow mask
/// multiplies, the light mask adds, everything else draws normally.
pub fn blend_of(step: Step) -> (r: Blend)
    ensures
        r == match step {
            Step::DrawShadowMask => Blend::Multiply,
            Step::DrawLightMask => Blend::Add,
            _ => Blend::Normal,
        },
{
    match step {
        Step::DrawShadowMask => Blend::Multiply,
        Step::DrawLightMask => Blend::Add,
        _ => Blend::Normal,
    }
}

} // verus!
