pub mod behaviour;
pub mod bytes_channel;
pub mod handler;
pub mod protocol;
