pub mod cache;
pub mod clock;
pub mod host_functions;
pub mod interpreter;
pub mod modules;
pub mod records;
pub mod runtime;
pub mod sandbox;
pub mod text;
pub mod types;
