pub mod mount_overlays;
pub mod settings;
pub mod changes;
pub mod sandbox_struct;
pub mod setup;
pub mod exec;
