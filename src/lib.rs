//! Decision logic of a tray utility that turns two global keys into Spotify
//! volume commands: configuration parsing, the volume controller, the event
//! router of the application shell, and the steps of the OAuth login.
pub mod config;
pub mod login_flow;
pub mod oauth;
pub mod router;
pub mod spotify;
