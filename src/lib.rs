pub mod cds_worker;
pub mod cell;
pub mod convergence;
pub mod handshake;
pub mod kv_message;
pub mod message;
pub mod peer;
pub mod socket_worker;
