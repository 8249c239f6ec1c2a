//! Coordination of asynchronous USB transfers.
//!
//! A caller builds a [`Transfer`] and submits it to an [`AsyncGroup`], which
//! owns it while the engine works on it and hands it back, completed, from
//! `wait_any`. The group decides; a driver outside this library calls the
//! engine and reports what it answered.

pub mod error;
pub mod time;
pub mod transfer;
pub mod group;
pub mod laws;

pub use crate::error::{from_libusb, Error};
pub use crate::group::{
    async_group_callback, AsyncGroup, CancelStep, Cancellation, Context, WaitStep,
};
pub use crate::transfer::{DeviceHandle, Transfer, TransferStatus};
