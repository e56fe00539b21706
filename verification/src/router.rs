//! The per-packet classifier.
//!
//! A packet is a run of bytes that may end anywhere. The classifier reads an
//! Ethernet header, then an IPv4 header, then a UDP header, and checks before
//! each read that the header ends inside the packet. UDP packets for the
//! filter port are steered to a zero-copy socket; a packet that ends inside a
//! header it needs is aborted; everything else passes on to the normal stack.

use crate::headers::{
    eth_hdr_len, ether_type_ipv4, ip_proto_udp, ipv4_hdr_len, udp_hdr_len, ETHER_TYPE_IPV4,
    ETH_HDR_LEN, IPV4_HDR_LEN, IP_PROTO_UDP, UDP_HDR_LEN,
};
use vstd::prelude::*;

verus! {

/// The packet is malformed: drop it.
pub const XDP_ABORTED: u32 = 0;

/// Drop the packet.
pub const XDP_DROP: u32 = 1;

/// Hand the packet to the normal network stack.
pub const XDP_PASS: u32 = 2;

/// Send the packet back out of the interface it came in on.
pub const XDP_TX: u32 = 3;

/// Hand the packet to a zero-copy socket.
pub const XDP_REDIRECT: u32 = 4;

/// The UDP destination port whose packets are steered to a zero-copy socket.
pub const FILTER_PORT: u16 = 7777;

/// One trace record: when a packet of interest was seen, how long it was, and
/// the action that stood when the record was written.
#[derive(Debug, Clone, Copy, PartialEq, Eq, Structural)]
pub struct XdpEvent {
    pub timestamp: u64,
    pub packet_size: u32,
    pub action: u32,
}

/// What the classifier reports besides the action.
#[derive(Debug, Clone, Copy, PartialEq, Eq, Structural)]
pub enum Diagnostic {
    /// No socket is registered for the queue; the packet went to the stack.
    RedirectFailed,
}

/// What the headers of a packet say about it.
#[derive(Debug, Clone, Copy, PartialEq, Eq, Structural)]
pub enum PacketClass {
    /// Not a UDP packet for the filter port.
    Other,
    /// A UDP packet over IPv4 for the filter port.
    Filtered,
}

/// The outcome for one packet.
#[derive(Debug, Clone, Copy, PartialEq, Eq, Structural)]
pub struct Routed {
    pub action: u32,
    pub event: Option<XdpEvent>,
    pub diagnostic: Option<Diagnostic>,
}

/// The number that two bytes spell in network byte order.
pub open spec fn be16(hi: u8, lo: u8) -> int {
    hi * 256 + lo
}

/// Whether `len` bytes from `offset` on lie inside a packet of `packet_len` bytes.
pub open spec fn in_bounds(packet_len: int, offset: int, len: int) -> bool {
    offset + len <= packet_len
}

/// What the headers of `packet` say, or `None` where the packet ends inside a
/// header that has to be read.
pub open spec fn classify_spec(packet: Seq<u8>) -> Option<PacketClass> {
    if !in_bounds(packet.len() as int, 0, ETH_HDR_LEN as int) {
        None
    } else if be16(packet[12], packet[13]) != ETHER_TYPE_IPV4 {
        Some(PacketClass::Other)
    } else if !in_bounds(packet.len() as int, ETH_HDR_LEN as int, IPV4_HDR_LEN as int) {
        None
    } else if packet[ETH_HDR_LEN + 9] != IP_PROTO_UDP {
        Some(PacketClass::Other)
    } else if !in_bounds(
        packet.len() as int,
        ETH_HDR_LEN + IPV4_HDR_LEN,
        UDP_HDR_LEN as int,
    ) {
        None
    } else if be16(
        packet[ETH_HDR_LEN + IPV4_HDR_LEN + 2],
        packet[ETH_HDR_LEN + IPV4_HDR_LEN + 3],
    ) == FILTER_PORT {
        Some(PacketClass::Filtered)
    } else {
        Some(PacketClass::Other)
    }
}

/// The record written for a filtered packet of `packet_len` bytes.
pub open spec fn event_spec(packet_len: int, timestamp: u64) -> XdpEvent {
    XdpEvent {
        timestamp,
        packet_size: (packet_len % 0x1_0000_0000) as u32,
        action: XDP_PASS,
    }
}

/// The outcome for a filtered packet: redirected where a socket is
/// registered, else passed on with a diagnostic; a record is written either way.
pub open spec fn steer_spec(packet_len: int, timestamp: u64, registered: bool) -> Routed {
    Routed {
        action: if registered {
            XDP_REDIRECT
        } else {
            XDP_PASS
        },
        event: Some(event_spec(packet_len, timestamp)),
        diagnostic: if registered {
            None
        } else {
            Some(Diagnostic::RedirectFailed)
        },
    }
}

/// The outcome for a packet, or `XDP_ABORTED` where it is truncated.
pub open spec fn route_spec(packet: Seq<u8>, timestamp: u64, registered: bool) -> Result<
    Routed,
    u32,
> {
    match classify_spec(packet) {
        None => Err(XDP_ABORTED),
        Some(PacketClass::Other) => Ok(Routed { action: XDP_PASS, event: None, diagnostic: None }),
        Some(PacketClass::Filtered) => Ok(steer_spec(packet.len() as int, timestamp, registered)),
    }
}

/// Where a header of `len` bytes at `offset` starts, if it ends inside a
/// packet of `packet_len` bytes; else `XDP_ABORTED`. The check comes before
/// any read.
pub fn ptr_at(packet_len: usize, offset: usize, len: usize) -> (r: Result<usize, u32>)
    ensures
        in_bounds(packet_len as int, offset as int, len as int) ==> r == Ok::<usize, u32>(offset),
        !in_bounds(packet_len as int, offset as int, len as int) ==> r == Err::<usize, u32>(
            XDP_ABORTED,
        ),
{
    match offset.checked_add(len) {
        Some(end) => {
            if end > packet_len {
                Err(XDP_ABORTED)
            } else {
                Ok(offset)
            }
        },
        None => Err(XDP_ABORTED),
    }
}

/// Reads two bytes at `at` as a number in network byte order.
fn read_be16(packet: &[u8], at: usize) -> (v: u16)
    requires
        at + 2 <= packet@.len(),
    ensures
        v == be16(packet@[at as int], packet@[at + 1]),
{
    let hi: u16 = packet[at] as u16;
    let lo: u16 = packet[at + 1] as u16;
    hi * 256 + lo
}

/// Parses the headers of `packet`.
pub fn classify(packet: &[u8]) -> (r: Result<PacketClass, u32>)
    ensures
        r == match classify_spec(packet@) {
            Some(class) => Ok::<PacketClass, u32>(class),
            None => Err::<PacketClass, u32>(XDP_ABORTED),
        },
{
    let eth = match ptr_at(packet.len(), 0, eth_hdr_len()) {
        Ok(at) => at,
        Err(e) => {
            return Err(e);
        },
    };
    if read_be16(packet, eth + 12) != ether_type_ipv4() {
        return Ok(PacketClass::Other);
    }
    let ipv4 = match ptr_at(packet.len(), eth_hdr_len(), ipv4_hdr_len()) {
        Ok(at) => at,
        Err(e) => {
            return Err(e);
        },
    };
    if packet[ipv4 + 9] != ip_proto_udp() {
        return Ok(PacketClass::Other);
    }
    let udp = match ptr_at(packet.len(), eth_hdr_len() + ipv4_hdr_len(), udp_hdr_len()) {
        Ok(at) => at,
        Err(e) => {
            return Err(e);
        },
    };
    let dst_port: u16 = read_be16(packet, udp + 2);
    if dst_port == FILTER_PORT {
        Ok(PacketClass::Filtered)
    } else {
        Ok(PacketClass::Other)
    }
}

/// The record for a filtered packet of `packet_len` bytes that arrived at
/// `timestamp`. It is written before the redirect is tried, so the action it
/// holds is the one that stands until then.
pub fn trace_event(packet_len: usize, timestamp: u64) -> (event: XdpEvent)
    ensures
        event == event_spec(packet_len as int, timestamp),
{
    XdpEvent {
        timestamp,
        packet_size: (packet_len as u64 % 0x1_0000_0000u64) as u32,
        action: XDP_PASS,
    }
}

/// The outcome for a filtered packet of `packet_len` bytes, given whether the
/// redirect into a socket succeeded.
pub fn steer(packet_len: usize, timestamp: u64, redirected: bool) -> (r: Routed)
    ensures
        r == steer_spec(packet_len as int, timestamp, redirected),
{
    let event = trace_event(packet_len, timestamp);
    if redirected {
        Routed { action: XDP_REDIRECT, event: Some(event), diagnostic: None }
    } else {
        Routed {
            action: XDP_PASS,
            event: Some(event),
            diagnostic: Some(Diagnostic::RedirectFailed),
        }
    }
}

/// Why a socket could not be registered.
#[derive(Debug, Clone, Copy, PartialEq, Eq, Structural)]
pub enum MapError {
    /// The map has no entry with that index.
    IndexOutOfRange,
}

/// The table of zero-copy sockets, one entry per queue index. Its number of
/// entries is fixed when it is made; only what they hold changes.
pub struct SocketMap {
    entries: Vec<Option<i32>>,
}

impl View for SocketMap {
    type V = Seq<Option<i32>>;

    /// The descriptor registered at each index, if any.
    closed spec fn view(&self) -> Seq<Option<i32>> {
        self.entries@
    }
}

impl SocketMap {
    /// Whether a socket is registered for `queue`.
    pub open spec fn registered(&self, queue: u32) -> bool {
        queue < self@.len() && self@[queue as int] is Some
    }

    /// A map of `max_entries` entries, all empty.
    pub fn with_max_entries(max_entries: u32) -> (map: SocketMap)
        ensures
            map@ == Seq::new(max_entries as nat, |i: int| None::<i32>),
    {
        let entries: Vec<Option<i32>> = vec![None; max_entries as usize];
        let map = SocketMap { entries };
        assert(map@ =~= Seq::new(max_entries as nat, |i: int| None::<i32>));
        map
    }

    /// Number of entries.
    pub fn max_entries(&self) -> (n: usize)
        ensures
            n == self@.len(),
    {
        self.entries.len()
    }

    /// Registers the socket `fd` for queue `index`, in place of any other.
    pub fn set(&mut self, index: u32, fd: i32) -> (r: Result<(), MapError>)
        ensures
            index < old(self)@.len() ==> r is Ok && final(self)@ == old(self)@.update(
                index as int,
                Some(fd),
            ),
            index >= old(self)@.len() ==> r == Err::<(), MapError>(MapError::IndexOutOfRange)
                && final(self)@ == old(self)@,
    {
        if (index as usize) < self.entries.len() {
            self.entries[index as usize] = Some(fd);
            Ok(())
        } else {
            Err(MapError::IndexOutOfRange)
        }
    }

    /// Takes the registration for queue `index` away, if there is one.
    pub fn unset(&mut self, index: u32) -> (r: Result<(), MapError>)
        ensures
            index < old(self)@.len() ==> r is Ok && final(self)@ == old(self)@.update(
                index as int,
                None,
            ),
            index >= old(self)@.len() ==> r == Err::<(), MapError>(MapError::IndexOutOfRange)
                && final(self)@ == old(self)@,
    {
        if (index as usize) < self.entries.len() {
            self.entries[index as usize] = None;
            Ok(())
        } else {
            Err(MapError::IndexOutOfRange)
        }
    }

    /// The socket registered for `queue`.
    pub fn get(&self, queue: u32) -> (fd: Option<i32>)
        ensures
            fd == if queue < self@.len() {
                self@[queue as int]
            } else {
                None
            },
            fd is Some == self.registered(queue),
    {
        if (queue as usize) < self.entries.len() {
            self.entries[queue as usize]
        } else {
            None
        }
    }
}

/// The unread records after `event` was written to a channel that holds at
/// most `capacity`: a full channel gives up its oldest record, a channel
/// without room for any keeps none.
pub open spec fn after_emit(unread: Seq<XdpEvent>, capacity: int, event: XdpEvent) -> Seq<
    XdpEvent,
> {
    if capacity <= 0 {
        unread
    } else if unread.len() >= capacity {
        unread.skip(1).push(event)
    } else {
        unread.push(event)
    }
}

/// How many records were given up after one more was written: one more than
/// `lost` where the channel was full, counted no further than 64 bits hold.
pub open spec fn lost_after_emit(unread: Seq<XdpEvent>, capacity: int, lost: int) -> int {
    if unread.len() < capacity {
        lost
    } else if lost < u64::MAX {
        lost + 1
    } else {
        u64::MAX as int
    }
}

/// The channel that carries trace records from the classifier to its reader.
pub struct TraceChannel {
    capacity: usize,
    records: Vec<XdpEvent>,
    lost: u64,
}

impl View for TraceChannel {
    type V = Seq<XdpEvent>;

    /// The unread records, oldest first.
    closed spec fn view(&self) -> Seq<XdpEvent> {
        self.records@
    }
}

impl TraceChannel {
    /// The most records the channel holds.
    pub closed spec fn room(&self) -> int {
        self.capacity as int
    }

    /// How many records were given up unread, saturating.
    pub closed spec fn lost_records(&self) -> int {
        self.lost as int
    }

    /// The channel holds no more than it has room for.
    pub open spec fn wf(&self) -> bool {
        self@.len() <= self.room()
    }

    /// An empty channel with room for `capacity` records.
    pub fn new(capacity: usize) -> (channel: TraceChannel)
        ensures
            channel.wf(),
            channel.room() == capacity,
            channel@ == Seq::<XdpEvent>::empty(),
            channel.lost_records() == 0,
    {
        TraceChannel { capacity, records: Vec::new(), lost: 0 }
    }

    /// Writes one record.
    pub fn emit(&mut self, event: XdpEvent)
        requires
            old(self).wf(),
        ensures
            final(self).wf(),
            final(self).room() == old(self).room(),
            final(self)@ == after_emit(old(self)@, old(self).room(), event),
            final(self).lost_records() == lost_after_emit(
                old(self)@,
                old(self).room(),
                old(self).lost_records(),
            ),
    {
        if self.records.len() < self.capacity {
            self.records.push(event);
            return ;
        }
        self.lost = self.lost.saturating_add(1);
        if self.capacity > 0 {
            let _oldest = self.records.remove(0);
            self.records.push(event);
            assert(self@ =~= old(self)@.skip(1).push(event));
        }
    }

    /// Takes the oldest unread record out, if there is one.
    pub fn read(&mut self) -> (event: Option<XdpEvent>)
        requires
            old(self).wf(),
        ensures
            final(self).wf(),
            final(self).room() == old(self).room(),
            final(self).lost_records() == old(self).lost_records(),
            old(self)@.len() == 0 ==> event is None && final(self)@ == old(self)@,
            old(self)@.len() > 0 ==> event == Some(old(self)@[0]) && final(self)@ == old(
                self,
            )@.skip(1),
    {
        if self.records.len() == 0 {
            None
        } else {
            let event = self.records.remove(0);
            assert(self@ =~= old(self)@.skip(1));
            Some(event)
        }
    }

    /// Number of unread records.
    pub fn len(&self) -> (n: usize)
        ensures
            n == self@.len(),
    {
        self.records.len()
    }

    /// How many records were given up unread.
    pub fn lost(&self) -> (n: u64)
        ensures
            n == self.lost_records(),
    {
        self.lost
    }
}

/// Classifies `packet` and decides what becomes of it. `timestamp` is the
/// time at which it arrived; `queue` is the index under which `sockets` is
/// asked for a zero-copy socket.
pub fn try_af_xdp_router(
    packet: &[u8],
    timestamp: u64,
    sockets: &SocketMap,
    queue: u32,
) -> (r: Result<Routed, u32>)
    ensures
        r == route_spec(packet@, timestamp, sockets.registered(queue)),
{
    match classify(packet) {
        Err(e) => Err(e),
        Ok(PacketClass::Other) => Ok(Routed { action: XDP_PASS, event: None, diagnostic: None }),
        Ok(PacketClass::Filtered) => {
            let redirected = sockets.get(queue).is_some();
            Ok(steer(packet.len(), timestamp, redirected))
        },
    }
}

/// The action for `packet`. A truncated packet is aborted. The record of a
/// filtered packet goes to `events`.
pub fn af_xdp_router(
    packet: &[u8],
    timestamp: u64,
    sockets: &SocketMap,
    queue: u32,
    events: &mut TraceChannel,
) -> (action: u32)
    requires
        old(events).wf(),
    ensures
        final(events).wf(),
        final(events).room() == old(events).room(),
        match route_spec(packet@, timestamp, sockets.registered(queue)) {
            Ok(routed) => {
                &&& action == routed.action
                &&& final(events)@ == match routed.event {
                    Some(event) => after_emit(old(events)@, old(events).room(), event),
                    None => old(events)@,
                }
                &&& final(events).lost_records() == if routed.event is Some {
                    lost_after_emit(old(events)@, old(events).room(), old(events).lost_records())
                } else {
                    old(events).lost_records()
                }
            },
            Err(_) => {
                &&& action == XDP_ABORTED
                &&& final(events)@ == old(events)@
                &&& final(events).lost_records() == old(events).lost_records()
            },
        },
{
    match try_af_xdp_router(packet, timestamp, sockets, queue) {
        Ok(routed) => {
            match routed.event {
                Some(event) => {
                    events.emit(event);
                },
                None => {},
            }
            routed.action
        },
        Err(_) => XDP_ABORTED,
    }
}

/// Whether `packet` holds an Ethernet header, an IPv4 header and a UDP
/// header in full, each announced by the one before it.
pub open spec fn is_udp_over_ipv4(packet: Seq<u8>) -> bool {
    &&& packet.len() >= ETH_HDR_LEN + IPV4_HDR_LEN + UDP_HDR_LEN
    &&& be16(packet[12], packet[13]) == ETHER_TYPE_IPV4
    &&& packet[ETH_HDR_LEN + 9] == IP_PROTO_UDP
}

/// The UDP destination port of such a packet.
pub open spec fn udp_dst_port(packet: Seq<u8>) -> int {
    be16(packet[ETH_HDR_LEN + IPV4_HDR_LEN + 2], packet[ETH_HDR_LEN + IPV4_HDR_LEN + 3])
}

/// What the classifier does, case by case. A whole UDP packet for the filter
/// port is redirected where a socket is registered for the queue, and passed
/// on with a diagnostic where none is; either way one record is written. A
/// whole UDP packet for another port is passed on and leaves no record. A
/// packet that announces IPv4 and ends before the IPv4 header does is
/// aborted, and so is one that ends inside the Ethernet header.
pub proof fn lemma_classifier_cases(packet: Seq<u8>, timestamp: u64, registered: bool)
    ensures
        is_udp_over_ipv4(packet) && udp_dst_port(packet) == FILTER_PORT && registered
            ==> route_spec(packet, timestamp, registered) == Ok::<Routed, u32>(
            Routed {
                action: XDP_REDIRECT,
                event: Some(event_spec(packet.len() as int, timestamp)),
                diagnostic: None,
            },
        ),
        is_udp_over_ipv4(packet) && udp_dst_port(packet) == FILTER_PORT && !registered
            ==> route_spec(packet, timestamp, registered) == Ok::<Routed, u32>(
            Routed {
                action: XDP_PASS,
                event: Some(event_spec(packet.len() as int, timestamp)),
                diagnostic: Some(Diagnostic::RedirectFailed),
            },
        ),
        is_udp_over_ipv4(packet) && udp_dst_port(packet) != FILTER_PORT ==> route_spec(
            packet,
            timestamp,
            registered,
        ) == Ok::<Routed, u32>(Routed { action: XDP_PASS, event: None, diagnostic: None }),
        packet.len() >= ETH_HDR_LEN && be16(packet[12], packet[13]) == ETHER_TYPE_IPV4
            && packet.len() < ETH_HDR_LEN + IPV4_HDR_LEN ==> route_spec(
            packet,
            timestamp,
            registered,
        ) == Err::<Routed, u32>(XDP_ABORTED),
        packet.len() < ETH_HDR_LEN ==> route_spec(packet, timestamp, registered) == Err::<
            Routed,
            u32,
        >(XDP_ABORTED),
{
}

} // verus!
