//! A SIP user-agent core: message framing, transaction and dialog state,
//! INVITE sessions, and the STUN attributes that share its sockets.
pub mod dialog;
pub mod client_builder;
pub mod endpoint;
pub mod framer;
pub mod h264;
pub mod header;
pub mod ice;
pub mod media;
pub mod serializer;
pub mod session;
pub mod transport;
pub mod tsx;
