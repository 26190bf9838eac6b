//! Fixed-width IP address values and their classification.

pub mod ip;
pub mod ipv4;
pub mod ipv6;
pub mod text;

pub use ip::IPAddress;
pub use ipv4::Address as IPv4Address;
