pub mod camera;
pub mod color;
pub mod hittable;
pub mod image;
pub mod fx;
pub mod geometry;
pub mod material;
pub mod render;
pub mod rng;
