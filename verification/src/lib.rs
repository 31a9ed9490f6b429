//! A verified WebSocket framing and message engine, together with the
//! buffer and string primitives it is built on.
//!
//! The engine is written in a sans-io style: bytes received from a duplex
//! stream are fed into the connection value, frames and auto-replies are
//! produced as plain byte vectors, and the caller performs the actual I/O.

pub mod array_string;
pub mod base64;
pub mod compression;
pub mod connection_state;
pub mod error;
pub mod frame;
pub mod handshake;
pub mod incremental_utf8;
pub mod num;
pub mod op_code;
pub mod partitioned_filled_buffer;
pub mod read_frame_info;
pub mod rng;
pub mod sha1;
pub mod unmask;
pub mod web_socket;
pub mod web_socket_error;
pub mod web_socket_reader;
pub mod web_socket_writer;
