//! Render targets: the settings of a canvas, which needs an explicit
//! resolution before it can be drawn, and the builders of two- and
//! three-dimensional canvases.

use vstd::prelude::*;

verus! {

/// Whether a canvas renders a two- or a three-dimensional scene.
#[derive(Clone, Copy, Debug, PartialEq, Eq, Structural)]
pub enum CanvasDimension {
    Two,
    Three,
}

/// Declarative render target settings with a build-time resolution.
#[derive(Clone, Copy, Debug)]
pub struct CanvasSettings {
    pub resolution: (u32, u32),
    pub dimension: CanvasDimension,
}

/// A resolution a canvas can render at: both dimensions positive and within `i32`.
pub open spec fn valid_resolution(resolution: (u32, u32)) -> bool {
    0 < resolution.0 <= i32::MAX && 0 < resolution.1 <= i32::MAX
}

impl CanvasSettings {
    /// Settings of the given dimension whose resolution is still unset.
    pub fn new(dimension: CanvasDimension) -> (settings: Self)
        ensures
            settings == (CanvasSettings { resolution: (0, 0), dimension }),
    {
        CanvasSettings { resolution: (0, 0), dimension }
    }

    /// Accepts a resolution that was explicitly set to positive `i32` dimensions.
    pub fn validate(&self) -> (result: Result<(), String>)
        ensures
            result is Ok <==> valid_resolution(self.resolution),
            result matches Err(message) ==> message@
                == "Canvas resolution must be explicitly set to positive i32 dimensions."@,
    {
        let (w, h) = self.resolution;
        if w == 0 || h == 0 || w > i32::MAX as u32 || h > i32::MAX as u32 {
            return Err(
                String::from_str(
                    "Canvas resolution must be explicitly set to positive i32 dimensions.",
                ),
            );
        }
        Ok(())
    }

    /// Returns the render-target resolution as width and height.
    pub fn resolution(&self) -> (resolution: (u32, u32))
        ensures
            resolution == self.resolution,
    {
        self.resolution
    }
}

/// Independent two-dimensional viewport with its own camera.
#[derive(Clone, Copy, Debug)]
pub struct Canvas2D {
    pub settings: CanvasSettings,
}

impl Default for Canvas2D {
    /// A two-dimensional canvas whose resolution is still unset.
    fn default() -> (canvas: Self)
        ensures
            canvas.settings == (CanvasSettings {
                resolution: (0, 0),
                dimension: CanvasDimension::Two,
            }),
    {
        Canvas2D { settings: CanvasSettings::new(CanvasDimension::Two) }
    }
}

/// Independent three-dimensional viewport with its own camera.
#[derive(Clone, Copy, Debug)]
pub struct Canvas3D {
    pub settings: CanvasSettings,
}

impl Default for Canvas3D {
    /// A three-dimensional canvas whose resolution is still unset.
    fn default() -> (canvas: Self)
        ensures
            canvas.settings == (CanvasSettings {
                resolution: (0, 0),
                dimension: CanvasDimension::Three,
            }),
    {
        Canvas3D { settings: CanvasSettings::new(CanvasDimension::Three) }
    }
}

/// Builder of a two-dimensional canvas.
#[derive(Clone, Copy, Debug)]
pub struct Canvas2DBuilder {
    pub object: Canvas2D,
}

/// Creates a two-dimensional canvas builder whose resolution is still unset.
pub fn canvas_2d() -> (builder: Canvas2DBuilder)
    ensures
        builder.object.settings == (CanvasSettings {
            resolution: (0, 0),
            dimension: CanvasDimension::Two,
        }),
{
    Canvas2DBuilder { object: Canvas2D::default() }
}

impl Canvas2DBuilder {
    /// Sets the fixed render-target resolution for this canvas.
    pub fn resolution(self, resolution: (u32, u32)) -> (builder: Self)
        ensures
            builder.object.settings == (CanvasSettings { resolution, ..self.object.settings }),
    {
        Canvas2DBuilder {
            object: Canvas2D { settings: CanvasSettings { resolution, ..self.object.settings } },
        }
    }
}

/// Builder of a three-dimensional canvas.
#[derive(Clone, Copy, Debug)]
pub struct Canvas3DBuilder {
    pub object: Canvas3D,
}

/// Creates a three-dimensional canvas builder whose resolution is still unset.
pub fn canvas_3d() -> (builder: Canvas3DBuilder)
    ensures
        builder.object.settings == (CanvasSettings {
            resolution: (0, 0),
            dimension: CanvasDimension::Three,
        }),
{
    Canvas3DBuilder { object: Canvas3D::default() }
}

impl Canvas3DBuilder {
    /// Sets the fixed render-target resolution for this canvas.
    pub fn resolution(self, resolution: (u32, u32)) -> (builder: Self)
        ensures
            builder.object.settings == (CanvasSettings { resolution, ..self.object.settings }),
    {
        Canvas3DBuilder {
            object: Canvas3D { settings: CanvasSettings { resolution, ..self.object.settings } },
        }
    }
}

} // verus!
