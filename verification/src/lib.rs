//! A small geometric-math kernel for ray tracing: vector algebra, rays,
//! sphere/ray intersection, and pinhole-camera ray generation.
//!
//! Every scalar is a fixed-point number: an `i64` counting units of
//! `1/SCALE`.  All arithmetic is exact integer arithmetic with rounding
//! toward zero, so every operation carries a contract that pins its result
//! down to the unit.

pub mod scalar;
pub mod vector;
pub mod ray;
pub mod sphere;
pub mod camera;
pub mod laws;

pub use scalar::SCALE;
pub use scalar::DEFAULT_EPSILON;
pub use scalar::almost_equal;
pub use scalar::almost_equal_with_epsilon;
pub use scalar::posunit_to_unit;
pub use vector::Vector;
pub use vector::MAX_COORD;
pub use ray::Ray;
pub use sphere::Sphere;
pub use sphere::Intersection;
pub use camera::Camera;
pub use camera::Radians;
