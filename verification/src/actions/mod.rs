pub mod accept;
pub mod config;
pub mod list;
pub mod status;
pub mod reject;
pub mod delete;
pub mod diff;
