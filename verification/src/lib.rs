//! Local engine of a desktop wallet for the Amadeus chain: key handling,
//! encrypted key storage, deterministic transaction encoding and signing,
//! and the pure decision logic behind the node-facing network client.
pub mod amount;
pub mod error;
pub mod json;
pub mod keys;
pub mod netflow;
pub mod netparse;
pub mod service;
pub mod storage;
pub mod text;
pub mod tx;
pub mod vecpak;
