pub mod binary64;
pub mod circle;
pub mod points;
pub mod polygon;
pub mod smallest_cover;
