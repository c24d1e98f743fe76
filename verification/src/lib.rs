//! Capability credentials for software agents.

pub mod a2a;
pub mod accountability;
pub mod adr;
pub mod approval;
pub mod audit;
pub mod base58;
pub mod bbs;
pub mod binding;
pub mod compliance;
pub mod config;
pub mod crypto;
pub mod delegation;
pub mod did;
pub mod encoding;
pub mod error;
pub mod intent;
pub mod interop;
pub mod jcs;
pub mod json;
pub mod registry;
pub mod signed;
pub mod strings;
pub mod text;
pub mod time;
pub mod vc;
