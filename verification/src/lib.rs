//! Verified core of a Wiimote receiver: which buttons a report holds, how
//! configured key names are read, which keys to press and release as buttons
//! come and go, and what the reading loop does with each report.

pub mod bindings;
pub mod buttons;
pub mod key_binding;
pub mod keyboard_sync;
pub mod reader;
