pub mod config;
pub mod login;
pub mod play;
pub mod status;
