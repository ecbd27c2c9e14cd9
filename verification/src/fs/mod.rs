pub mod paths;
pub mod ignore;
