//! The calls of processes.
pub mod call;
pub mod channel;
pub mod exception;
pub mod exit;
pub mod fin;
pub mod gpu;
pub mod inference;
pub mod memory;
pub mod misc;
pub mod mmap;
pub mod model;
pub mod outcome;
pub mod print;
pub mod prompts;
pub mod provision;
pub mod request;
pub mod window;
