//! WebSocket messages, frames and the upgrade handshake.

pub mod frame;
pub mod handshake;
pub mod header;
pub mod laws;
pub mod message;
pub mod reader;
pub mod writer;

pub use message::Message;
pub use message::MessageType;
pub use message::WebSocketError;
pub use header::WebSocketHeader;
pub use reader::WebSocketReader;
pub use writer::WebSocketWriter;
pub use writer::handle_control;
pub use handshake::upgrade;
