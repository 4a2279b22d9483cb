//! Integer core of a Monte Carlo path tracer: bounding boxes over
//! order-preserving integer coordinates, the construction of the
//! bounding-volume hierarchy, the permutation tables of Perlin noise, the
//! control decisions of the recursive radiance estimator, and pixel
//! colours with their PPM encoding.

pub mod aabb;
pub mod bvh;
pub mod color;
pub mod integrator;
pub mod perlin;
pub mod ppm;
mod sampling;
