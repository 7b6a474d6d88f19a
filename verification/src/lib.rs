//! A self-contained ICMP echo ("ping") engine.
//!
//! The library holds the pure core of a concurrent ping tool: ICMP echo
//! request/reply packet construction and parsing (with the RFC 1071 internet
//! checksum), a table of outstanding probes keyed by (target, sequence), and
//! a session that tracks targets, allocates sequence numbers, matches replies
//! and aggregates per-target round results. Socket I/O, DNS resolution and
//! clock reads are collaborators supplied by the caller: the caller feeds
//! resolved addresses, received datagrams and timestamps into the session and
//! performs the transmissions the session asks for.

mod addr;
mod packet;
mod result;
mod session;
mod table;

pub use addr::AddrFamily;
pub use addr::IpAddress;
pub use packet::build_echo_request;
pub use packet::checksum;
pub use packet::extract_embedded_echo;
pub use packet::parse_icmp;
pub use packet::parse_reply_v4;
pub use packet::EmbeddedEcho;
pub use packet::IcmpMsg;
pub use packet::ParsedReply;
pub use packet::MAX_PACKET;
pub use result::ErrorKind;
pub use result::IterInfoHandle;
pub use result::PingIter;
pub use result::RoundResult;
pub use result::TIMEOUT_SENTINEL;
pub use session::AddressTarget;
pub use session::EchoItem;
pub use session::Ping;
pub use table::OutstandingPing;
pub use table::SessionTable;
