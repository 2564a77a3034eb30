//! Admission control and naming authority for a wallet-identified content backend.

pub mod apollo;
pub mod artemis;
mod clock;
pub mod config;
pub mod olympus;
pub mod requests;
pub mod text;
