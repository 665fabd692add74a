//! Routing logic for a Docker-to-Caddy reverse proxy gateway.

pub mod caddy;
pub mod clock;
pub mod credentials;
pub mod docker;
pub mod laws;
pub mod models;
pub mod routing;
pub mod string_map;
pub mod text;
pub mod watcher;
pub mod settings;
