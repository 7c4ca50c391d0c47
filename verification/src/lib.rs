pub mod text;
pub mod paths;
pub mod config;
pub mod encoding;
pub mod sort;
pub mod order;
pub mod sandbox;
pub mod glob;
pub mod util;
pub mod actions;
pub mod numbers;
pub mod logger;
