//! WebSocket opening handshake and binary framing, with the behaviour of every
//! function stated as a contract and proved.
//!
//! - `dataframe`, `opcode`, `utils`: the frame codec.
//! - `url`: the endpoint string.
//! - `handshake`, `headers`: the upgrade request and its answer on the
//!   server's side, and the proof that both sides agree.
//! - `client`: the handshake on the client's side and the framing of
//!   messages.
//! - `registry`, `connection`: the server's open connections and what it
//!   sends on to them.
//! - `text`: searching, splitting and reading text.
//! - `primitives`: what is taken on trust from other crates.
//!
//! Sockets, threads and locks are left to the program that uses the library.

pub mod client;
pub mod connection;
pub mod dataframe;
pub mod errors;
pub mod handshake;
pub mod headers;
pub mod opcode;
pub mod primitives;
pub mod registry;
pub mod text;
pub mod url;
pub mod utils;

pub use connection::Connection;
pub use dataframe::DataFrame;
pub use errors::{RsError, ScError};
pub use handshake::{ConnectionStatus, HandShake, RequestLine, ResponseLine};
pub use headers::Headers;
pub use opcode::OpCode;
pub use registry::Registry;
pub use url::WebSocketUrl;
pub use utils::ExtendedPayLoadLength;
