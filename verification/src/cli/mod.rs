//! What the command line decides: how arguments are read, where requests go, and what is shown.

pub mod jobs;
pub mod laws;
pub mod peers;
pub mod redirect;
pub mod server;
pub mod shown_laws;
pub mod tables;
