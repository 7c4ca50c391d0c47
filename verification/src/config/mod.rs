pub mod sources;
pub mod structs;
pub mod cli;
pub mod resolve;
pub mod storage;
