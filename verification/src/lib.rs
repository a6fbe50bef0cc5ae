//! A small client-side implementation of a line-oriented, length-prefixed
//! request/response protocol: frames, their wire encoding, an incremental
//! decoder, and a cursor that extracts typed arguments from an array frame.

pub mod command;
pub mod connection;
pub mod decimal;
pub mod decode;
pub mod delivery;
pub mod echo;
pub mod frame;
pub mod parse;
pub mod render;
pub mod roundtrip;
pub mod tasks;
pub mod text;
pub mod wire;
