//! Rules and records of a self-hosted anime library manager.
pub mod handlers;
pub mod json;
pub mod models;
pub mod number;
pub mod routing;
pub mod scheduler;
pub mod source;
pub mod table;
pub mod text;
