pub mod document;
pub mod defaults;
pub mod file;
