//! The snapshot model: the typed in-memory form of one poll of the RTMP
//! server's status tree (server, applications, streams, clients), and the
//! relay classifier that tells a real viewer from an internal loopback relay.
//!
//! A snapshot is produced once per cycle by the transport layer outside this
//! library, consumed once, and discarded.

use vstd::prelude::*;

use crate::ip::{is_internal, parse_ip_addr, spec_is_internal, spec_parse_ip};
use crate::meta::str_eq;

verus! {

/// The root of one poll result.
#[derive(Debug)]
pub struct RtmpStats {
    pub nginx_version: String,
    pub nginx_rtmp_version: String,
    pub compiler: String,
    pub pid: u32,
    pub uptime: u32,
    pub naccepted: u32,
    pub bw_in: u64,
    pub bytes_in: u64,
    pub bw_out: u64,
    pub bytes_out: u64,
    pub server: RtmpServerBlock,
}

#[derive(Debug)]
pub struct RtmpServerBlock {
    pub applications: Vec<RtmpApplication>,
}

#[derive(Debug)]
pub struct RtmpApplication {
    pub name: String,
    pub live: RtmpApplicationLiveBlock,
}

#[derive(Debug)]
pub struct RtmpApplicationLiveBlock {
    pub streams: Vec<RtmpStream>,
}

#[derive(Debug)]
pub struct RtmpStream {
    pub name: String,
    pub time: u64,
    pub bytes_in: u64,
    pub bytes_out: u64,
    pub bw_in: u64,
    pub bw_out: u64,
    pub bw_audio: u64,
    pub bw_video: u64,
    pub clients: Vec<RtmpStreamClient>,
    /// Codec metadata the upstream server reported; absent while no real
    /// publisher is attached.
    pub meta: Option<RtmpStreamMeta>,
}

#[derive(Debug)]
pub struct RtmpStreamClient {
    pub id: u32,
    /// The client's network address as reported, if any.
    pub address: Option<String>,
    pub time: u64,
    /// The client-identifying string; the server uses a fixed sentinel here
    /// for its own relay connections.
    pub flashver: Option<String>,
    pub pageurl: Option<String>,
    pub dropped: u64,
    /// Audio-video sync offset, signed.
    pub avsync: i64,
    pub timestamp: u64,
    /// Present iff the client is publishing.
    pub publishing: Option<()>,
    /// Present iff the client is active.
    pub active: Option<()>,
}

#[derive(Debug)]
pub struct RtmpStreamMeta {
    pub video: RtmpStreamVideoMeta,
    pub audio: RtmpStreamAudioMetaWrapper,
}

/// The video descriptor. Frame rate and level are kept as the reported text;
/// the engine never interprets them.
#[derive(Debug)]
pub struct RtmpStreamVideoMeta {
    pub width: u16,
    pub height: u64,
    pub frame_rate: String,
    pub codec: String,
    pub profile: String,
    pub compat: u16,
    pub level: String,
}

#[derive(Debug)]
pub struct RtmpStreamAudioMetaWrapper {
    pub inner: Option<RtmpStreamAudioMeta>,
}

#[derive(Debug)]
pub struct RtmpStreamAudioMeta {
    pub codec: String,
    pub profile: String,
    pub channels: u8,
    pub sample_rate: u32,
}

impl RtmpStreamClient {
    /// Whether the identifying string is the server's relay sentinel.
    pub open spec fn spec_is_relay(self) -> bool {
        self.flashver is Some && self.flashver.unwrap()@ == "ngx-local-relay"@
    }

    /// A local relay: a relay whose reported address is present, parses as an
    /// IP address, and is loopback or IPv4-private. A missing or malformed
    /// address, or any public one, makes this false.
    pub open spec fn spec_is_local_relay(self) -> bool {
        &&& self.spec_is_relay()
        &&& self.address is Some
        &&& match spec_parse_ip(self.address.unwrap()@) {
            Some(ip) => spec_is_internal(ip),
            None => false,
        }
    }

    /// This method checks if this client is a relay.
    pub fn is_relay(&self) -> (r: bool)
        ensures
            r == self.spec_is_relay(),
    {
        match &self.flashver {
            Some(s) => str_eq(s.as_str(), "ngx-local-relay"),
            None => false,
        }
    }

    /// This method checks if this client is a local relay. Malformed input
    /// degrades to `false` — toward counting the client as a real viewer —
    /// rather than failing the cycle.
    pub fn is_local_relay(&self) -> (r: bool)
        ensures
            r == self.spec_is_local_relay(),
    {
        if !self.is_relay() {
            return false;
        }
        let address = match &self.address {
            Some(a) => a,
            None => {
                return false;
            },
        };
        match parse_ip_addr(address.as_str()) {
            Some(ip) => is_internal(&ip),
            None => false,
        }
    }
}

/// The conservative default, stated once: a client without a present,
/// well-formed, internal (loopback or IPv4-private) address is never a local
/// relay, whatever its identifying string says. Misclassifying a viewer as a
/// relay would silently under-report activity; the classifier fails open
/// toward "viewer".
pub proof fn lemma_local_relay_conservative(c: RtmpStreamClient)
    ensures
        c.address is None ==> !c.spec_is_local_relay(),
        (c.address is Some && spec_parse_ip(c.address.unwrap()@) is None)
            ==> !c.spec_is_local_relay(),
        (c.address is Some && spec_parse_ip(c.address.unwrap()@) is Some && !spec_is_internal(
            spec_parse_ip(c.address.unwrap()@).unwrap(),
        )) ==> !c.spec_is_local_relay(),
        !c.spec_is_relay() ==> !c.spec_is_local_relay(),
{
}

} // verus!
