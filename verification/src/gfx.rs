pub mod rgb555;
pub mod rgba;
