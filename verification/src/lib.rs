//! Verified core of the UltraLog log viewer: the MegaLogViewer (.mlg) binary
//! log reader used by Speeduino and rusEFI ECUs, the decoding of text logs,
//! and the application state of loaded files, tabs, selected channels and
//! stacked plot areas, with the keyboard shortcuts that drive it.

pub mod app;
pub mod app_laws;
pub mod channel_list;
pub mod indices;
pub mod loader;
pub mod shortcuts;
pub mod speeduino;
pub mod text;
