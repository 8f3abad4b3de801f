//! Typed model of the wire message envelope.
//!
//! Every message on the wire is one variant of a tagged union, serialized by
//! an external schema-based encoder and then framed by the byte codec. The
//! engine itself is a pure dispatch on the message kind; the I/O shell parses
//! bytes into these types and serializes the responses.

use vstd::prelude::*;

verus! {

/// Result of a `RegisterPk` attempt, as delivered to the peer.
#[allow(non_camel_case_types)]
#[derive(Debug, Clone, Copy, PartialEq, Eq, Structural)]
pub enum RegisterPkResult {
    OK,
    UUID_MISMATCH,
    TOO_FREQUENT,
    NOT_SUPPORT,
}

/// Announcement of a peer, carrying the configuration serial it knows.
pub struct RegisterPeer {
    pub id: String,
    pub serial: i32,
}

/// Request to bind an identity: identifier, identity token and public key.
pub struct RegisterPk {
    pub id: String,
    pub uuid: Vec<u8>,
    pub pk: Vec<u8>,
    pub old_id: String,
}

/// Request for the externally observed source port.
pub struct TestNatRequest {
    pub serial: i32,
}

/// The externally observed source port of the requesting connection.
pub struct TestNatResponse {
    pub port: i32,
}

/// Push of a newer server configuration.
pub struct ConfigUpdate {
    pub serial: i32,
    pub rendezvous_servers: Vec<String>,
}

/// The message envelope: one tagged union over every message kind. `Other`
/// stands for any kind this server does not know; such messages are ignored
/// so that future kinds do not break old servers.
pub enum RendezvousMessage {
    RegisterPeer(RegisterPeer),
    RegisterPeerResponse,
    RegisterPk(RegisterPk),
    RegisterPkResponse(RegisterPkResult),
    TestNatRequest(TestNatRequest),
    TestNatResponse(TestNatResponse),
    ConfigUpdate(ConfigUpdate),
    Other,
}

/// A socket address as the engine sees it: the printable IP and the port.
/// The I/O shell converts between this and its concrete address types.
pub struct SockAddr {
    pub ip: String,
    pub port: u16,
}

} // verus!
