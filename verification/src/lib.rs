//! Control of the RGB lighting of ZSA Voyager keyboards over the Oryx raw-HID protocol.
//!
//! - `color`: hex colour notation and RGB bytes.
//! - `text`: whitespace, trimming and splitting of text.
//! - `device`: recognising Oryx interfaces among HID devices, naming them, and choosing
//!   the keyboards that a command addresses.
//! - `protocol`: frames, the conversation of each operation, and the session that steps
//!   through it.
//! - `theme`: the accent colour of the current Omarchy theme.
//! - `hook`: installing the Omarchy hook and the keyboard watcher.
//! - `sync`: retrying the theme sync when a keyboard appears.
pub mod color;
pub mod device;
pub mod hook;
pub mod protocol;
pub mod sync;
pub mod text;
pub mod theme;
