//! Configuration of WinWing URSA MINOR joysticks.
//!
//! - [`protocol`], [`transport`]: frames, the map of the flash, and the guard that
//!   keeps the identity of a joystick from being written.
//! - [`enumerate`]: the joysticks that `/sys` tells of.
//! - [`model`]: decoding of the flash, and writes that are backed up, kept to what
//!   changes, and read back.
//! - [`flash`], [`firmware`]: firmware images, their catalog, and the course of a
//!   flash.
//! - [`livemon`], [`remap`], [`axis_curve`], [`rumble`], [`vibration`]: what happens
//!   on the side of the system: events, virtual controllers, curves and the motor.
//! - [`remap_store`], [`axis_store`], [`profiles`]: what is kept in files.
//! - [`pages`], [`cli`], [`message`], [`i18n`]: what is shown and decided in the
//!   window and on the command line.
//!
//! Nothing here opens a file or a device: the caller does, and hands over what was
//! read.

pub mod axis_curve;
pub mod axis_store;
pub mod cli;
pub mod enumerate;
pub mod firmware;
pub mod flash;
pub mod i18n;
pub mod json;
pub mod livemon;
pub mod message;
pub mod model;
pub mod native;
pub mod pages;
pub mod profiles;
pub mod protocol;
pub mod remap;
pub mod remap_store;
pub mod rumble;
pub mod text;
pub mod transport;
pub mod version;
pub mod vibration;
