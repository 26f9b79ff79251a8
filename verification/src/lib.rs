pub mod ai;
pub mod browser_core;
pub mod kv_map;
pub mod text;
