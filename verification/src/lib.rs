pub mod bands;
pub mod hit;
pub mod integrator;
pub mod ppm;
pub mod resolution;
pub mod scene;
pub mod sweep;
