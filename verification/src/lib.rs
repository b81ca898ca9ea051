//! Protocol logic for the Disney Infinity USB base: how requests are framed,
//! how the device's reports are decoded and matched to the requests that wait
//! for them, and how the base's tag replies are read. The HID plumbing (opening
//! the device, the reader thread or task, observers) lives outside this crate's
//! verified part and drives these functions.
use vstd::prelude::*;

pub mod commands;
pub mod error;
pub mod frame;
pub mod pending;
pub mod tags;

pub use error::{InfinityError, InfnityResult};
