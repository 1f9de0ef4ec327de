//! IEEE 802 MAC addresses: six octets in transmission order, with their
//! classification bits, an integer encoding and a textual notation.

pub mod address;
pub mod error;
pub mod hex;
pub mod text;

pub use address::MacAddress;
pub use error::ParseError;
