//! Klipt's clip-handling logic, verified: output naming, the FFmpeg argument
//! lists and the Compress plan, banner parsing, the filmstrip sprite,
//! render-cache eviction, the library scan, trash matching and the
//! fullscreen geometry.

pub mod text;
pub mod paths;
pub mod order;
pub mod naming;
pub mod cache;
pub mod media;
pub mod commands;
pub mod compress;
pub mod probe;
pub mod sprite;
pub mod library;
pub mod watcher;
pub mod window;
pub mod settings;
