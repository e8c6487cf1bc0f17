//! What the services answer. The transport around them carries requests in and answers out.

pub mod answer_laws;
pub mod client_service;
pub mod cluster_service;
pub mod internal_service;
pub mod laws;
pub mod status;
