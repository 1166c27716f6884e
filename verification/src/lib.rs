//! Fan/pump profiles and LCD temperature readout for NZXT Kraken coolers:
//! the protocol, curve and decoding logic, verified.

pub mod curve;
pub mod text;
pub mod config;
pub mod kraken;
pub mod sensors;
pub mod frame;
pub mod console;
pub mod service;
