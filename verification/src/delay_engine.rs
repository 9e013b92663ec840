pub mod engine;
pub mod params;
