//! A ray tracer: the color that a ray sees in a scene of spheres, planes,
//! cubes, cylinders and cones under one point light, with shadows, mirror
//! reflection and refraction followed for a bounded number of bounces.
//!
//! All numbers are decimal fixed-point scalars, so that every result is an
//! exact function of the inputs: each function states its result over the
//! integer formulas of [`scalar`], and Verus proves that it returns it.
//!
//! The modules, from the ground up:
//!
//! * [`scalar`]: fixed-point numbers with their arithmetic, roots, powers
//!   and angle functions;
//! * [`tuple`], [`color`], [`matrix`], [`transform`]: points and vectors,
//!   colors, matrices with determinant and inverse, and the matrices of the
//!   affine transformations;
//! * [`ray`], [`light`], [`pattern`], [`material`]: rays, the light, surface
//!   patterns, and materials with the lighting of a surface point;
//! * [`shape`] with [`sphere`], [`plane`], [`cube`], [`cylinder`], [`cone`]:
//!   the primitives, each with its intersections and normals in its own
//!   space;
//! * [`object`]: a primitive placed in the world;
//! * [`intersection`]: intersections, the nearest hit, and the state of a
//!   hit, with the refractive indices on its two sides;
//! * [`world`]: the scene and the color along a ray;
//! * [`canvas`], [`camera`], [`ppm`]: pictures, the rays through their
//!   pixels, and their text form.

pub mod scalar;
pub mod tuple;
pub mod color;
pub mod matrix;
pub mod transform;
pub mod ray;
pub mod light;
pub mod pattern;
pub mod material;
pub mod shape;
pub mod sphere;
pub mod plane;
pub mod cube;
pub mod cylinder;
pub mod cone;
pub mod object;
pub mod intersection;
pub mod world;
pub mod canvas;
pub mod camera;
pub mod ppm;
