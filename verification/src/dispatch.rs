//! What a connection makes of a packet that arrives on it.
//!
//! | carries     | receiving side ([`Should::Recv`], [`Should::Sync`])  | offering side |
//! |-------------|------------------------------------------------------|---------------|
//! | headers     | takes the size, marks the packet seen, answers       | passes over   |
//! | content     | if unseen: has the bytes written, moves on, answers  | passes over   |
//! | finished    | if unseen: closes, reports completion, answers       | passes over   |
//! | tick        | if unseen: marks it seen, counts as heard            | the same      |
//! | anything else | passes over                                        | passes over   |
//!
//! A packet is *seen* where its identifier stands in the window. To mark it
//! seen is to record its identifier in the window and to merge the window
//! it carries into the memory of acknowledged identifiers. The answer is
//! always a tick.
use crate::connection::{Connection, ConnectionView};
use crate::mesage::Progress;
use crate::packets::{decode_wire, wire_bytes, Packet, PacketView, Packets, PacketsView};
use crate::pak_storage::Millis;
use crate::ring::holds;
use crate::udp_manager::{connections_view, Should, UdpManager, UdpManagerView};
use vstd::prelude::*;

verus! {

/// What the caller has to do after a datagram was taken in.
#[derive(Debug, PartialEq, Clone)]
pub struct Received {
    /// A datagram to transmit to the peer.
    pub reply: Option<Vec<u8>>,
    /// Bytes to write to the data, with the offset to write them at.
    pub write: Option<(u128, Vec<u8>)>,
    /// How far the transfer has come.
    pub progress: Option<Progress>,
    /// Whether the transfer is complete.
    pub completed: bool,
}

/// A [`Received`] as mathematical data; the reply stands as the packet it
/// carries.
pub struct Effects {
    pub reply: Option<PacketView>,
    pub write: Option<(u128, Seq<u8>)>,
    pub progress: Option<Progress>,
    pub completed: bool,
}

/// Nothing to do.
pub open spec fn no_effects() -> Effects {
    Effects { reply: None, write: None, progress: None, completed: false }
}

/// `received` is what `effects` says.
pub open spec fn received_is(received: Received, effects: Effects) -> bool {
    &&& match effects.reply {
        Some(p) => received.reply matches Some(wire) && wire@ == wire_bytes(p),
        None => received.reply is None,
    }
    &&& match effects.write {
        Some((offset, bytes)) => received.write matches Some(w) && w.0 == offset && w.1@ == bytes,
        None => received.write is None,
    }
    &&& received.progress == effects.progress
    &&& received.completed == effects.completed
}

/// Whether this side takes data in.
pub open spec fn receives(should: Should) -> bool {
    should is Recv || should is Sync
}

/// The offset behind `len` bytes at `cursor`, which stops at the largest
/// offset there is.
pub open spec fn advanced(cursor: u128, len: nat) -> u128 {
    if cursor + len > u128::MAX {
        u128::MAX
    } else {
        (cursor + len) as u128
    }
}

/// The connection after the packet `p` was marked seen.
pub open spec fn heard(c: ConnectionView, p: PacketView) -> ConnectionView {
    c.recorded(p.id).merged(p.packets)
}

/// Whether the packet `p` has been seen on `c`.
pub open spec fn seen(c: ConnectionView, p: PacketView) -> bool {
    c.packets.contains(p.id)
}

/// The connection `c` before its answer to `p` is sent, where it answers.
pub open spec fn taken_in(c: ConnectionView, should: Should, p: PacketView, now: Millis) -> Option<
    ConnectionView,
> {
    match p.packet {
        PacketsView::Headers(h) => if receives(should) {
            Some(
                ConnectionView {
                    last_action: now,
                    ..heard(ConnectionView { content_length: h.content_length, ..c }, p)
                },
            )
        } else {
            None
        },
        PacketsView::FileContent(f) => if receives(should) && !seen(c, p) {
            Some(
                ConnectionView {
                    last_action: now,
                    coursor: advanced(f.cursor, f.bytes.len()),
                    ..heard(c, p)
                },
            )
        } else {
            None
        },
        PacketsView::Finished(_) => if receives(should) && !seen(c, p) {
            Some(ConnectionView { active: false, ..heard(c, p) })
        } else {
            None
        },
        _ => None,
    }
}

/// The connection `c` after the packet `p` arrived on it at `now`.
pub open spec fn dispatched(c: ConnectionView, should: Should, p: PacketView, now: Millis)
    -> ConnectionView {
    match taken_in(c, should, p, now) {
        Some(c1) => c1.sent(PacketsView::Tick(c.session), now),
        None => if p.packet is Tick && !seen(c, p) {
            ConnectionView { last_action: now, ..heard(c, p) }
        } else {
            c
        },
    }
}

/// What the caller has to do after the packet `p` arrived on `c`.
pub open spec fn effects(c: ConnectionView, should: Should, p: PacketView, now: Millis) -> Effects {
    match taken_in(c, should, p, now) {
        Some(c1) => Effects {
            reply: Some(c1.packet_for(PacketsView::Tick(c.session))),
            write: match p.packet {
                PacketsView::FileContent(f) => Some((f.cursor, f.bytes)),
                _ => None,
            },
            progress: match p.packet {
                PacketsView::FileContent(f) => Some(
                    Progress { done: c1.coursor, total: c1.content_length },
                ),
                PacketsView::Finished(_) => if should is Recv {
                    Some(Progress { done: c1.content_length, total: c1.content_length })
                } else {
                    None
                },
                _ => None,
            },
            completed: p.packet is Finished && should is Recv,
        },
        None => no_effects(),
    }
}

/// The first position at or behind `from` at which `connections` holds a
/// connection of `session`, or their number where there is none.
pub open spec fn find_session(connections: Seq<ConnectionView>, session: u128, from: int) -> int
    decreases connections.len() - from,
{
    if from < 0 || from >= connections.len() {
        connections.len() as int
    } else if connections[from].session == session {
        from
    } else {
        find_session(connections, session, from + 1)
    }
}

/// The manager after the datagram `wire` arrived for `session` at `now`: a
/// datagram that is no packet, or a session that no connection has, changes
/// nothing.
pub open spec fn received_state(m: UdpManagerView, session: u128, wire: Seq<u8>, now: Millis)
    -> UdpManagerView {
    let at = find_session(m.connections, session, 0);
    match decode_wire(wire) {
        Some(p) => if at < m.connections.len() {
            UdpManagerView {
                connections: m.connections.update(
                    at,
                    dispatched(m.connections[at], m.should, p, now),
                ),
                ..m
            }
        } else {
            m
        },
        None => m,
    }
}

/// What the caller has to do after the datagram `wire` arrived for
/// `session`.
pub open spec fn received_effects(m: UdpManagerView, session: u128, wire: Seq<u8>, now: Millis)
    -> Effects {
    let at = find_session(m.connections, session, 0);
    match decode_wire(wire) {
        Some(p) => if at < m.connections.len() {
            effects(m.connections[at], m.should, p, now)
        } else {
            no_effects()
        },
        None => no_effects(),
    }
}

/// The offset behind `len` bytes at `cursor` (see [`advanced`]).
pub fn advance(cursor: u128, len: usize) -> (next: u128)
    ensures
        next == advanced(cursor, len as nat),
{
    cursor.saturating_add(len as u128)
}

/// Takes the packet `packet`, which arrived at `now`, in on `connection`,
/// and says what the caller has to do.
pub fn dispatch(connection: &mut Connection, should: Should, packet: Packet, now: Millis) -> (received:
    Received)
    requires
        old(connection)@.wf(),
    ensures
        final(connection)@ == dispatched(old(connection)@, should, packet@, now),
        received_is(received, effects(old(connection)@, should, packet@, now)),
        final(connection)@.wf(),
{
    let nothing = Received { reply: None, write: None, progress: None, completed: false };
    let takes = match should {
        Should::Send => false,
        _ => true,
    };
    let known = holds(&connection.packets, packet.id);
    let session = connection.session;
    match packet.packet {
        Packets::Headers(h) => {
            if !takes {
                return nothing;
            }
            connection.content_length = h.content_length;
            connection.add_id(packet.id);
            connection.add_packets(packet.packets.as_slice());
            connection.last_action = now;
            let reply = connection.send(Packets::Tick(session), now);
            Received { reply: Some(reply), write: None, progress: None, completed: false }
        },
        Packets::FileContent(f) => {
            if !takes || known {
                return nothing;
            }
            connection.add_id(packet.id);
            connection.add_packets(packet.packets.as_slice());
            connection.last_action = now;
            connection.coursor = advance(f.cursor, f.bytes.len());
            let progress = Progress { done: connection.coursor, total: connection.content_length };
            let reply = connection.send(Packets::Tick(session), now);
            Received {
                reply: Some(reply),
                write: Some((f.cursor, f.bytes)),
                progress: Some(progress),
                completed: false,
            }
        },
        Packets::Finished(_) => {
            if !takes || known {
                return nothing;
            }
            connection.add_id(packet.id);
            connection.add_packets(packet.packets.as_slice());
            connection.active = false;
            let fetching = match should {
                Should::Recv => true,
                _ => false,
            };
            let progress = if fetching {
                Some(Progress { done: connection.content_length, total: connection.content_length })
            } else {
                None
            };
            let reply = connection.send(Packets::Tick(session), now);
            Received { reply: Some(reply), write: None, progress, completed: fetching }
        },
        Packets::Tick(_) => {
            if !known {
                connection.last_action = now;
                connection.add_id(packet.id);
                connection.add_packets(packet.packets.as_slice());
            }
            nothing
        },
        _ => nothing,
    }
}

impl UdpManager {
    /// The position of the first connection of `session`.
    pub fn get_conn(&self, session: u128) -> (at: Option<usize>)
        ensures
            match at {
                Some(i) => i < self@.connections.len() && i == find_session(
                    self@.connections,
                    session,
                    0,
                ) && self@.connections[i as int].session == session,
                None => find_session(self@.connections, session, 0) == self@.connections.len(),
            },
    {
        let mut i: usize = 0;
        while i < self.connections.len()
            invariant
                i <= self.connections@.len(),
                find_session(self@.connections, session, i as int) == find_session(
                    self@.connections,
                    session,
                    0,
                ),
            decreases self.connections@.len() - i,
        {
            if self.connections[i].session == session {
                assert(self@.connections[i as int] == self.connections@[i as int]@);
                return Some(i);
            }
            i += 1;
        }
        None
    }

    /// Takes in the datagram that arrived for `session` at `now`, and says
    /// what the caller has to do. A datagram that is no packet is dropped,
    /// and so is one for a session that no connection has.
    pub fn receive(&mut self, session: u128, datagram: &[u8], now: Millis) -> (received: Received)
        requires
            old(self)@.wf(),
        ensures
            final(self)@ == received_state(old(self)@, session, datagram@, now),
            received_is(received, received_effects(old(self)@, session, datagram@, now)),
            final(self)@.wf(),
    {
        let nothing = Received { reply: None, write: None, progress: None, completed: false };
        let packet = match Packet::decode(datagram) {
            Ok(p) => p,
            Err(_) => return nothing,
        };
        let at = match self.get_conn(session) {
            Some(i) => i,
            None => return nothing,
        };
        let ghost before = self.connections@;
        assert(connections_view(before)[at as int] == before[at as int]@);
        let should = self.should;
        let received = dispatch(&mut self.connections[at], should, packet, now);
        proof {
            assert(self.connections@ == before.update(at as int, self.connections@[at as int]));
            assert(connections_view(self.connections@) =~= connections_view(before).update(
                at as int,
                self.connections@[at as int]@,
            ));
            assert forall|i: int| 0 <= i < self@.connections.len() implies (
            #[trigger] self@.connections[i]).wf() by {
                if i != at {
                    assert(self@.connections[i] == old(self)@.connections[i]);
                }
            }
        }
        received
    }
}

/// A piece of data, or the announcement of the end, that arrives a second
/// time is dropped: nothing is written, nothing is answered, and the
/// connection stays as it was.
pub proof fn lemma_second_arrival_is_dropped(
    c: ConnectionView,
    should: Should,
    p: PacketView,
    now: Millis,
    later: Millis,
)
    requires
        c.wf(),
        p.packet is FileContent || p.packet is Finished,
    ensures
        effects(dispatched(c, should, p, now), should, p, later) == no_effects(),
        dispatched(dispatched(c, should, p, now), should, p, later) == dispatched(
            c,
            should,
            p,
            now,
        ),
{
    let after = dispatched(c, should, p, now);
    if receives(should) && !seen(c, p) {
        assert(after.packets == c.packets.update(c.pak_cour as int, p.id));
        assert(after.packets[c.pak_cour as int] == p.id);
        assert(seen(after, p));
    } else {
        assert(after == c);
    }
}

} // verus!
