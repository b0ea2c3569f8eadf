//! Request parsing and response framing for a multi-protocol server:
//! HTTP/1.1, HTTP/2, WebSocket and WebTransport sessions, and the
//! Unix-domain-socket channel that carries handler calls.
pub mod command;
pub mod ctx;
pub mod dialects;
pub mod error;
pub mod framing;
pub mod head;
pub mod header_laws;
pub mod http1;
pub mod http2;
pub mod json;
pub mod settings;
pub mod on_the_fly;
pub mod part_waits;
pub mod request;
pub mod response;
pub mod rewrite;
pub mod serialize;
pub mod split;
pub mod sys;
pub mod text;
pub mod uds;
pub mod wt;
pub mod ws;
