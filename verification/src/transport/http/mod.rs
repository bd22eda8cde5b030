pub mod requests;
pub mod server;
