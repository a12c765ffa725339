//! Codec for DNS messages in wire format, with name compression, and the
//! decisions of a forwarding resolver built on it.
//!
//! - [`buffer`]: the byte buffer messages are read from and written to.
//! - [`header`]: the twelve-byte header and its flags.
//! - [`domain_name`]: names, and the lookup table behind compression.
//! - [`question`], [`record`]: the entries of the two sections handled.
//! - [`packet`]: whole messages.
//! - [`forwarder`]: what to send upstream and what to answer.
//! - [`name_laws`], [`packet_laws`]: what is proved of the codec as a whole.
pub mod buffer;
pub mod domain_name;
pub mod forwarder;
pub mod header;
pub mod name_laws;
pub mod packet;
pub mod packet_laws;
pub mod question;
pub mod record;
