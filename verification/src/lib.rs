//! Keyboard and mouse sharing between two machines: the protocol, the
//! rules and the state machines, each proved against its contract.

pub mod backoff;
pub mod clipboard;
pub mod config;
pub mod control;
pub mod crypto;
pub mod device;
pub mod filetransfer;
pub mod gui;
pub mod handshake;
pub mod held;
pub mod hotkey;
pub mod json;
pub mod keyfile;
pub mod keymap;
pub mod keys;
pub mod link;
pub mod liveness;
pub mod macos;
pub mod message;
pub mod remap;
pub mod replace;
pub mod replay;
pub mod run;
pub mod screen;
pub mod server;
pub mod session;
pub mod settings;
pub mod supervisor;
pub mod text;
pub mod time;
pub mod transport;
pub mod update;
pub mod warp;
pub mod windows;
pub mod wire;
