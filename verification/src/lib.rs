//! A sans-I/O HTTP/1.x and WebSocket protocol engine.
//!
//! Every function here works on bytes that the caller has already read, or
//! produces the bytes the caller has to write. Nothing in this crate touches
//! a socket, so every rule of the protocol is stated in a contract.

pub mod bytes;
pub mod cookies;
pub mod head;
pub mod headers;
pub mod request;
pub mod response;
pub mod stopper;
pub mod websocket;
pub mod wire;

pub use head::HttpError;
pub use head::Limits;
pub use request::Request;
pub use request::http;
pub use response::Response;
pub use response::respond;
pub use response::send_content;
