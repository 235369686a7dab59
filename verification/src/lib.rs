//! Editor-integration core for a style-sheet analysis plugin: keeping the
//! plugin artifact current, resolving where downstream tools load it from,
//! shaping their configuration, and a length-prefixed JSON protocol stub
//! that stands in for a language server.

pub mod text;
pub mod frame;
pub mod dispatch;
pub mod reconcile;
pub mod resolve;
pub mod config;
