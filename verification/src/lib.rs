//! Decision and text-processing core of a desktop launcher for a local web service.
pub mod text;
pub mod order;
pub mod version;
pub mod log;
pub mod health;
pub mod paths;
pub mod manager;
pub mod update;
pub mod service;
pub mod runtime;
