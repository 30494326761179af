//! The logic of a desktop launcher and control service, verified.

pub mod amount;
pub mod api;
pub mod awake;
pub mod bytes;
pub mod capture;
pub mod client;
pub mod compositor;
pub mod config;
pub mod fuzzy;
pub mod hardware;
pub mod history;
pub mod icons;
pub mod json;
pub mod keyed;
pub mod localsend;
pub mod night;
pub mod nix;
pub mod notify;
pub mod number;
pub mod order;
pub mod path;
pub mod power;
pub mod providers;
pub mod server;
pub mod service;
pub mod tailscale;
pub mod terminal;
pub mod text;
pub mod types;
pub mod wallpaper;
