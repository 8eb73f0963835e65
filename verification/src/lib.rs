//! Deterministic, verified building blocks of the Kinematic animation engine:
//! its seeded random number generator, the triangle topology of its
//! procedural meshes, the validation rules for shapes, canvases and shader
//! bindings, text-morph glyph matching, and the ordering of children by
//! their z-index.

pub mod random;
pub mod prism;
pub mod pyramid;
pub mod regular_polygon;
pub mod line;
pub mod torus;
pub mod canvas;
pub mod shader;
pub mod layering;
pub mod container;
pub mod text_morph;
pub mod scene_tree;
pub mod noise;
pub mod font;
pub mod extrusion;
