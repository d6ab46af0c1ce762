//! Drives the pump screen of a ROG Strix LC IV / SLC IV cooler.
//!
//! The screen is a USB HID device. This library holds everything that is decided or computed on
//! the way to it; reading and writing the device, running `ffmpeg` and drawing the window are left
//! to the program around it.

pub mod command;
pub mod frame;
pub mod json;
pub mod media;
pub mod msg;
pub mod picture;
pub mod playback;
pub mod process;
pub mod session;
pub mod settings;
pub mod status;
pub mod text;
pub mod tray;
pub mod window;
