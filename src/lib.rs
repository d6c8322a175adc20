pub mod data;
pub mod errors;
pub mod models;
pub mod phase;
pub mod scheduler;
