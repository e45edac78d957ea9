//! Point-to-point file transfer over an unreliable datagram channel.
//!
//! Two peers find each other through relays and then talk directly. One
//! offers a file under a path and a secret; the other fetches it with the
//! share address that names both. This crate holds everything that is
//! decided along the way, verified against the contracts it states:
//!
//! * [`wire`] and [`packets`]: the datagrams and their encoding;
//! * [`ring`]: the bounded memories of identifiers by which peers
//!   acknowledge what they received;
//! * [`pak_storage`] and [`connection`]: what was sent and still waits for
//!   its acknowledgment, and when it is sent again;
//! * [`udp_manager`], [`dispatch`], [`maintenance`] and [`polling`]: the
//!   session manager, which opens connections, takes datagrams in, paces
//!   the data and closes connections;
//! * [`share`]: share addresses;
//! * [`mesage`]: what the host is told;
//! * [`entropy`]: tokens, sessions and ports, drawn at random.
//!
//! Nothing here touches a socket, a file or a clock. Moments are given in
//! milliseconds, datagrams are handed in and out as bytes.
pub mod connection;
pub mod dispatch;
pub mod entropy;
pub mod maintenance;
pub mod mesage;
pub mod packets;
pub mod pak_storage;
pub mod polling;
pub mod ring;
pub mod share;
pub mod udp_manager;
pub mod wire;
