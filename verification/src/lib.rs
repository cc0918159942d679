//! Clipboard history and emoji picking for a GNOME / Wayland palette.
//!
//! The daemon's side is in [`store`] and [`ipc`], the palette's side in [`client`] and
//! [`results`]. Their models are in [`history`] and [`ipc`], and what holds of the whole is
//! in [`history_laws`] and [`ipc_laws`].

pub mod text;
pub mod order;
pub mod clock;
pub mod proto;
pub mod frame;
pub mod socket;
pub mod classify;
pub mod query;
pub mod history;
pub mod history_laws;
pub mod store;
pub mod ipc;
pub mod ipc_laws;
pub mod client;
pub mod emoji;
pub mod display;
pub mod swatch;
pub mod picker;
pub mod results;
pub mod line;
pub mod menu;
pub mod snapshot;
pub mod cli;
pub mod watcher;
