//! The ADS transport: requests, replies and the errors they can end in.
pub mod errors;
pub mod requests;
pub mod client;
pub mod notification;
