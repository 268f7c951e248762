//! The blog service: its errors, its requests and the checks and decisions
//! of its server and client.
pub mod domain;
pub mod dto;
pub mod service;
pub mod client;
pub mod wasm_dto;
