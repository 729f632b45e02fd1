pub mod paths;
pub mod cache;
pub mod manifest;
pub mod resolver;
pub mod commands;
pub mod builder;
pub mod linker;
pub mod plan;
