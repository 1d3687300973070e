//! A small software rasterizer with exact arithmetic.
//!
//! Vertices run through a programmable vertex stage, are grouped into
//! triangles, and every pixel whose centre a triangle covers receives the
//! colour that a programmable fragment stage computes from the barycentric
//! coordinate of that centre. All numbers are exact rationals, so coverage
//! decisions and interpolation weights are free of rounding. Their parts are
//! bounded: where coordinates are too fine for a turn or a weight to fit,
//! `draw_fits` says so before anything is drawn, and `draw_checked` leaves the
//! frame alone.
pub mod color;
pub mod matrix;
pub mod pipeline;
pub mod program;
pub mod rational;
