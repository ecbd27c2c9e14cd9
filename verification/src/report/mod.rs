pub mod json;
pub mod markdown;
pub mod text;
