//! Route templates and controller composition for typed routers.
pub mod text;
pub mod template;
pub mod render;
pub mod route;
pub mod config;
pub mod controller;

pub use controller::{controller, emit};
pub use route::route;
