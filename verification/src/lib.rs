//! Rendezvous and relay for peer-to-peer screen sharing: session codes, the
//! session registry, message routing, and the bookkeeping of the desktop
//! companion (clipboard history, file index, stream encoder settings).

pub mod clipboard;
pub mod code;
pub mod devices;
pub mod encoder;
pub mod files;
pub mod hls;
pub mod laws;
pub mod message;
pub mod model;
pub mod platform;
pub mod pump;
pub mod registry;
pub mod text;
pub mod tunnel;
