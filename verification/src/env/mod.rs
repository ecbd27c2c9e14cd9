pub mod model;
pub mod parser;
pub mod compare;
pub mod validate;
pub mod scanner;
