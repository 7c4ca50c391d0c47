pub mod file_details;
pub mod change_entries;
pub mod changes;
pub mod upper;
