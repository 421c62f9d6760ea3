//! Integer core of a stochastic sphere ray tracer: the xorshift random
//! series, rays over any point type, and the render plan (configuration
//! checks, row bands, per-band seeds, pixel layout, bounce depth).
pub mod math;
pub mod ray;
pub mod render;
