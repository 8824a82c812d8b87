//! Operating system personalities of the guest.

pub mod linux;
