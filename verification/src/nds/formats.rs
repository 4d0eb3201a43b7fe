pub mod hgss_map_header;
