pub mod gen4_map_matrix;
pub mod hgss_map;
pub mod narc;
