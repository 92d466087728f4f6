pub mod manager;
pub mod memory;
