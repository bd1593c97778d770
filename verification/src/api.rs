pub mod engine_handlers;
pub mod handlers;
pub mod models;
