pub mod address;
pub mod client;
pub mod emulator;
pub mod entity;
pub mod service;
pub mod wire;
