//! A verified core for a Stream Deck controller daemon: value templates and the
//! bindings they carry, plugin instance identities, manifests and presets, the
//! stores that answer "did anything change", the dependency index that maps a
//! value to the keys showing it, surface geometry and the Stream Deck wire
//! formats.

pub mod text;
pub mod identifiers;
pub mod template;
pub mod instance;
pub mod panels;
pub mod manifest;
pub mod preset;
pub mod hass;
pub mod time;
pub mod mpris;
pub mod prometheus;
pub mod http;
pub mod system;
pub mod feedback;
pub mod surfaces;
pub mod ledger;
pub mod plugin;
pub mod index;
pub mod streamdeck;
pub mod numbers;
pub mod order;
pub mod discord;
pub mod presets;
pub mod json;
pub mod keyed;
pub mod gateway;
pub mod roster;
pub mod registry;
pub mod inventory;
pub mod resolve;
pub mod wire;
pub mod discovery;
pub mod connection;
pub mod hass_protocol;
pub mod gestures;
pub mod catalogue;
pub mod hass_session;
pub mod key_image;
pub mod engine;
