pub mod bookmarks;
pub mod downloads;
pub mod history;
pub mod navigation;
pub mod rows;
pub mod settings;
pub mod tab_manager;
