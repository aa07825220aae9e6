//! The Native columnar format and the connection that carries it.
pub mod column_type;
pub mod connection;
pub mod connection_actor;
pub mod connection_laws;
pub mod cursor;
pub mod decode;
pub mod decode_errors;
pub mod decode_laws;
pub mod decode_roundtrip;
pub mod encode;
pub mod layout_laws;
pub mod type_laws;
pub mod wire;
