pub mod data;
pub mod reports;
pub mod requests;
pub mod server;
