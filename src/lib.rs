pub mod text;
pub mod error;
pub mod comic_info;
pub mod page_order;
pub mod data_uri;
pub mod archive;
pub mod file_manager;
