pub mod buffer;
pub mod cmdline;
pub mod cursor;
pub mod editor;
pub mod filelisting;
pub mod input;
pub mod layout_manager;
pub mod text;
