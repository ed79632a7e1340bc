//! Authentication configuration for a YouTube Music client: capturing a browser
//! session, turning it into request headers, and validating stored configurations.
pub mod capture;
pub mod config;
pub mod cookies;
pub mod error;
pub mod json;
pub mod laws;
pub mod session;
pub mod string_map;
pub mod text;
