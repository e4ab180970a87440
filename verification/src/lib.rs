pub mod checksum;
pub mod config;
pub mod file_state;
pub mod html;
pub mod keyed;
pub mod page;
pub mod page_bundle;
pub mod paths;
pub mod pattern;
pub mod render;
pub mod shortcode;
pub mod site;
pub mod sorting;
pub mod state;
pub mod text;
pub mod types;
