//! A DNS stub resolver core: the wire codec for DNS messages, the encoder that
//! turns backend record sets into resource records, and the resolution engine
//! that assembles a reply from the backend's lookup results.

pub mod answer;
pub mod backend;
pub mod error;
pub mod header;
pub mod name;
pub mod packet;
pub mod question;
pub mod rdata;
pub mod resolver;
pub mod server;
pub mod text;
pub mod wire;
pub mod zone;
