//! The maintenance pass: retransmission, pacing of the data, and the end of
//! connections.
//!
//! For each active connection the pass takes stock of the waiting packets
//! ([`Connection::resolv`]). On the offering side it then asks for the next
//! piece of the data, unless more than [`MAX_DUE`] packets were due (the
//! peer is not keeping up), or the end of the data has already been
//! announced. A connection whose announcement of the end has been
//! acknowledged is closed, and so is one that has not been heard for more
//! than [`IDLE_TIMEOUT`]. Closed connections leave the set, each with one
//! [`Message::Destroy`].
use crate::connection::{datagrams_of, Connection, ConnectionView, IDLE_TIMEOUT};
use crate::dispatch::{advance, advanced, find_session};
use crate::mesage::{messages_view, Message, MessageView, Progress};
use crate::packets::file_content::FileContent;
use crate::packets::round_trip::lemma_ids_bytes;
use crate::packets::{wire_bytes, PacketView, Packets, PacketsView};
use crate::pak_storage::Millis;
use crate::ring::holds;
use crate::udp_manager::{connections_view, Should, UdpManager, UdpManagerView};
use vstd::bytes::*;
use vstd::prelude::*;

verus! {

/// The most packets that may be due for retransmission while new data is
/// still sent: one less than a window holds.
pub const MAX_DUE: usize = 31;

/// The bytes that a datagram with a piece of data takes besides the piece:
/// identifier, a window of 32 identifiers behind its count, the variant's
/// index, session, offset, and the length of the piece.
pub const CHUNK_OVERHEAD: usize = 122;

/// Where to read the next piece of the data, and how much at most.
#[derive(Debug, PartialEq, Eq, Clone, Copy)]
pub struct ReadRequest {
    pub offset: u128,
    pub len: usize,
}

/// What the caller has to do for one connection after a maintenance pass.
#[derive(Debug, PartialEq, Clone)]
pub struct Pace {
    /// The session of the connection.
    pub session: u128,
    /// Datagrams to transmit again.
    pub resend: Vec<Vec<u8>>,
    /// The piece of the data to read and hand to
    /// [`UdpManager::chunk_read`].
    pub read: Option<ReadRequest>,
}

/// A packet that announces the end of the data waits on `c`.
pub open spec fn finished_waiting(c: ConnectionView) -> bool {
    exists|k: int|
        0 <= k < c.storage.packets.len() && (#[trigger] c.storage.packets[k]).0.packet is Finished
}

/// The peer has acknowledged a packet of `c` that announced the end of the
/// data.
pub open spec fn finished_acknowledged(c: ConnectionView) -> bool {
    exists|k: int|
        0 <= k < c.storage.packets.len() && (#[trigger] c.storage.packets[k]).0.packet is Finished
            && c.recv_packets.contains(c.storage.packets[k].0.id)
}

/// The packets of `c` that the pass at `now` transmits again.
pub open spec fn resent(c: ConnectionView, now: Millis) -> Seq<PacketView> {
    if c.active {
        c.due(now)
    } else {
        Seq::empty()
    }
}

/// The piece of the data that the pass at `now` asks for on `c`.
pub open spec fn wanted_read(c: ConnectionView, should: Should, buffer_size: usize, now: Millis)
    -> Option<ReadRequest> {
    if c.active && !finished_acknowledged(c) && c.due(now).len() <= MAX_DUE && should is Send
        && !finished_waiting(c) && buffer_size > CHUNK_OVERHEAD {
        Some(ReadRequest { offset: c.coursor, len: (buffer_size - CHUNK_OVERHEAD) as usize })
    } else {
        None
    }
}

/// The connection `c` after stock was taken at `now`.
pub open spec fn paced(c: ConnectionView, now: Millis) -> ConnectionView {
    if !c.active {
        c
    } else if finished_acknowledged(c) {
        ConnectionView { active: false, ..c.resolved(now) }
    } else {
        c.resolved(now)
    }
}

/// `c` has not been heard for more than [`IDLE_TIMEOUT`] at `now`.
pub open spec fn idle(c: ConnectionView, now: Millis) -> bool {
    now - c.last_action > IDLE_TIMEOUT
}

/// The connection `c` after the pass at `now`.
pub open spec fn maintained(c: ConnectionView, now: Millis) -> ConnectionView {
    let c1 = paced(c, now);
    if idle(c1, now) {
        ConnectionView { active: false, ..c1 }
    } else {
        c1
    }
}

/// Every connection after the pass at `now`.
pub open spec fn all_maintained(connections: Seq<ConnectionView>, now: Millis) -> Seq<
    ConnectionView,
> {
    Seq::new(connections.len(), |i: int| maintained(connections[i], now))
}

/// The connections that stay: the active ones, in their order.
pub open spec fn survivors(connections: Seq<ConnectionView>) -> Seq<ConnectionView>
    decreases connections.len(),
{
    if connections.len() == 0 {
        Seq::empty()
    } else if connections.last().active {
        survivors(connections.drop_last()).push(connections.last())
    } else {
        survivors(connections.drop_last())
    }
}

/// One [`Message::Destroy`] for each connection that leaves, in their
/// order.
pub open spec fn farewells(connections: Seq<ConnectionView>) -> Seq<MessageView>
    decreases connections.len(),
{
    if connections.len() == 0 {
        Seq::empty()
    } else if connections.last().active {
        farewells(connections.drop_last())
    } else {
        farewells(connections.drop_last()).push(MessageView::Destroy(connections.last().session))
    }
}

/// The manager after the pass at `now`.
pub open spec fn ticked(m: UdpManagerView, now: Millis) -> UdpManagerView {
    UdpManagerView {
        connections: survivors(all_maintained(m.connections, now)),
        messages: m.messages + farewells(all_maintained(m.connections, now)),
        ..m
    }
}

/// `paces` are what the pass at `now` asks for on the connections of `m`,
/// one for one.
pub open spec fn paces_are(paces: Seq<Pace>, m: UdpManagerView, now: Millis) -> bool {
    &&& paces.len() == m.connections.len()
    &&& forall|i: int|
        0 <= i < paces.len() ==> pace_is(
            #[trigger] paces[i],
            m.connections[i],
            m.should,
            m.buffer_size,
            now,
        )
    &&& forall|i: int|
        0 <= i < paces.len() && (#[trigger] paces[i]).resend@.len() > MAX_DUE ==> paces[i].read
            is None
}

/// `pace` is what the pass at `now` asks for on `c`.
pub open spec fn pace_is(
    pace: Pace,
    c: ConnectionView,
    should: Should,
    buffer_size: usize,
    now: Millis,
) -> bool {
    &&& pace.session == c.session
    &&& datagrams_of(pace.resend@, resent(c, now))
    &&& pace.read == wanted_read(c, should, buffer_size, now)
}

/// What is sent for the piece `data` read at the cursor of `c`: the piece,
/// or the announcement of the end where nothing was read.
pub open spec fn chunk_body(c: ConnectionView, data: Seq<u8>) -> PacketsView {
    if data.len() == 0 {
        PacketsView::Finished(c.session)
    } else {
        PacketsView::FileContent(
            crate::packets::FileContentView { session: c.session, cursor: c.coursor, bytes: data },
        )
    }
}

/// What the host is told when the piece `data` was read at the cursor of
/// `c`: how far the transfer has come with it, or that it is over.
pub open spec fn chunk_note(c: ConnectionView, data: Seq<u8>) -> MessageView {
    if data.len() == 0 {
        MessageView::Destroy(c.session)
    } else {
        MessageView::SetProgress(
            c.session,
            Progress { done: advanced(c.coursor, data.len()), total: c.content_length },
        )
    }
}

/// The connection `c` after the piece `data` was sent at `now`.
pub open spec fn chunk_sent(c: ConnectionView, data: Seq<u8>, now: Millis) -> ConnectionView {
    ConnectionView { coursor: advanced(c.coursor, data.len()), ..c }.sent(chunk_body(c, data), now)
}

/// The manager after the piece `data` was read for `session`.
pub open spec fn chunk_state(m: UdpManagerView, session: u128, data: Seq<u8>, now: Millis)
    -> UdpManagerView {
    let at = find_session(m.connections, session, 0);
    if at < m.connections.len() {
        UdpManagerView {
            connections: m.connections.update(at, chunk_sent(m.connections[at], data, now)),
            messages: m.messages.push(chunk_note(m.connections[at], data)),
            ..m
        }
    } else {
        m
    }
}

/// Whether a packet that announces the end of the data waits.
fn has_finished(connection: &Connection) -> (found: bool)
    ensures
        found == finished_waiting(connection@),
{
    let mut k: usize = 0;
    while k < connection.storage.packets.len()
        invariant
            k <= connection.storage.packets@.len(),
            forall|j: int|
                0 <= j < k ==> !((#[trigger] connection@.storage.packets[j]).0.packet is Finished),
        decreases connection.storage.packets@.len() - k,
    {
        assert(connection@.storage.packets[k as int] == (
            connection.storage.packets@[k as int].0@,
            connection.storage.packets@[k as int].1,
        ));
        match connection.storage.packets[k].0.packet {
            Packets::Finished(_) => {
                return true;
            },
            _ => {},
        }
        k += 1;
    }
    false
}

/// Whether the peer has acknowledged a packet that announced the end.
fn has_finished_acknowledged(connection: &Connection) -> (found: bool)
    ensures
        found == finished_acknowledged(connection@),
{
    let mut k: usize = 0;
    while k < connection.storage.packets.len()
        invariant
            k <= connection.storage.packets@.len(),
            forall|j: int|
                0 <= j < k ==> !((#[trigger] connection@.storage.packets[j]).0.packet is Finished
                    && connection@.recv_packets.contains(connection@.storage.packets[j].0.id)),
        decreases connection.storage.packets@.len() - k,
    {
        assert(connection@.storage.packets[k as int] == (
            connection.storage.packets@[k as int].0@,
            connection.storage.packets@[k as int].1,
        ));
        let acknowledged = holds(&connection.recv_packets, connection.storage.packets[k].0.id);
        match connection.storage.packets[k].0.packet {
            Packets::Finished(_) => {
                if acknowledged {
                    return true;
                }
            },
            _ => {},
        }
        k += 1;
    }
    false
}

/// Runs the pass at `now` on one connection, but for the removal.
pub fn maintain(connection: &mut Connection, should: Should, buffer_size: usize, now: Millis) -> (pace:
    Pace)
    requires
        old(connection)@.wf(),
    ensures
        final(connection)@ == maintained(old(connection)@, now),
        pace_is(pace, old(connection)@, should, buffer_size, now),
        pace.resend@.len() > MAX_DUE ==> pace.read is None,
        final(connection)@.wf(),
{
    let session = connection.session;
    let mut pace = Pace { session, resend: Vec::new(), read: None };
    if connection.active {
        let acknowledged = has_finished_acknowledged(connection);
        let announced = has_finished(connection);
        let due = connection.resolv(now);
        pace.resend = due.1;
        if acknowledged {
            connection.active = false;
        } else {
            let offers = match should {
                Should::Send => true,
                _ => false,
            };
            if due.0 <= MAX_DUE && offers && !announced && buffer_size > CHUNK_OVERHEAD {
                pace.read = Some(
                    ReadRequest { offset: connection.coursor, len: buffer_size - CHUNK_OVERHEAD },
                );
            }
        }
    }
    if now > connection.last_action && now - connection.last_action > IDLE_TIMEOUT {
        connection.active = false;
    }
    pace
}

impl UdpManager {
    /// The maintenance pass at `now`. Returns, for each connection that
    /// was in the set, what the caller has to do for it; the connections
    /// that are closed afterwards leave the set, each with one
    /// [`Message::Destroy`].
    pub fn tick(&mut self, now: Millis) -> (paces: Vec<Pace>)
        requires
            old(self)@.wf(),
        ensures
            final(self)@ == ticked(old(self)@, now),
            final(self)@.wf(),
            paces_are(paces@, old(self)@, now),
    {
        let ghost before = self@;
        let ghost all = all_maintained(before.connections, now);
        let should = self.should;
        let buffer_size = self.buffer_size;
        let mut paces: Vec<Pace> = Vec::new();
        let mut i: usize = 0;
        while i < self.connections.len()
            invariant
                before == old(self)@,
                before.wf(),
                all == all_maintained(before.connections, now),
                should == before.should,
                buffer_size == before.buffer_size,
                self@ == (UdpManagerView { connections: self@.connections, ..before }),
                self@.connections.len() == before.connections.len(),
                i <= self@.connections.len(),
                forall|k: int| 0 <= k < i ==> self@.connections[k] == all[k],
                forall|k: int|
                    i <= k < self@.connections.len() ==> self@.connections[k]
                        == before.connections[k],
                forall|k: int| 0 <= k < self@.connections.len() ==> (#[trigger] self@.connections[k]).wf(),
                paces@.len() == i,
                forall|k: int|
                    0 <= k < i ==> pace_is(
                        #[trigger] paces@[k],
                        before.connections[k],
                        should,
                        buffer_size,
                        now,
                    ),
                forall|k: int|
                    0 <= k < i && (#[trigger] paces@[k]).resend@.len() > MAX_DUE
                        ==> paces@[k].read is None,
            decreases self@.connections.len() - i,
        {
            let ghost current = self.connections@;
            assert(connections_view(current)[i as int] == current[i as int]@);
            assert(self@.connections[i as int].wf());
            let pace = maintain(&mut self.connections[i], should, buffer_size, now);
            proof {
                assert(self.connections@ == current.update(i as int, self.connections@[i as int]));
                assert(connections_view(self.connections@) =~= connections_view(current).update(
                    i as int,
                    self.connections@[i as int]@,
                ));
            }
            paces.push(pace);
            i += 1;
        }
        assert(self@.connections =~= all);
        let ghost done: int = 0;
        let mut k: usize = 0;
        assert(all.take(0) =~= Seq::<ConnectionView>::empty());
        assert(all.skip(0) =~= all);
        assert(before.messages + farewells(all.take(0)) =~= before.messages);
        while k < self.connections.len()
            invariant
                before == old(self)@,
                all == all_maintained(before.connections, now),
                forall|j: int| 0 <= j < all.len() ==> (#[trigger] all[j]).wf(),
                0 <= done <= all.len(),
                k == survivors(all.take(done)).len(),
                self@ == (UdpManagerView {
                    connections: survivors(all.take(done)) + all.skip(done),
                    messages: before.messages + farewells(all.take(done)),
                    ..before
                }),
            decreases all.len() - done,
        {
            let ghost kept = survivors(all.take(done));
            let ghost current = self.connections@;
            let ghost told = self.messages@;
            proof {
                assert(self@.connections[k as int] == all.skip(done)[0]);
                assert(connections_view(current)[k as int] == current[k as int]@);
                assert(all.take(done + 1).drop_last() =~= all.take(done));
                assert(all.take(done + 1).last() == all[done]);
            }
            if !self.connections[k].active {
                let gone = self.connections.remove(k);
                self.messages.push(Message::Destroy(gone.session));
                proof {
                    assert(connections_view(current.remove(k as int)) =~= connections_view(
                        current,
                    ).remove(k as int));
                    assert((kept + all.skip(done)).remove(k as int) =~= kept + all.skip(done + 1));
                    assert(messages_view(told.push(Message::Destroy(gone.session)))
                        =~= messages_view(told).push(MessageView::Destroy(gone.session)));
                    assert(self@.messages =~= before.messages + farewells(all.take(done + 1)));
                    done = done + 1;
                }
            } else {
                proof {
                    assert(kept.push(all[done]) + all.skip(done + 1) =~= kept + all.skip(done));
                    done = done + 1;
                }
                k += 1;
            }
        }
        proof {
            assert(done == all.len()) by {
                assert(self@.connections.len() == k + all.skip(done).len());
            }
            assert(all.take(done) =~= all);
            assert(self@.connections =~= survivors(all));
            lemma_survivors_come_from(all);
        }
        paces
    }

    /// Sends the piece `data`, which was read at the cursor of the
    /// connection of `session`, and returns its datagram. A piece without
    /// bytes says that the data has ended: the end is announced to the
    /// peer, and the host is told that the transfer is over. Any other
    /// piece is sent at the cursor, which moves behind it, and the host is
    /// told how far the transfer has come. Without a connection of
    /// `session` nothing happens.
    pub fn chunk_read(&mut self, session: u128, data: Vec<u8>, now: Millis) -> (wire: Option<
        Vec<u8>,
    >)
        requires
            old(self)@.wf(),
        ensures
            final(self)@ == chunk_state(old(self)@, session, data@, now),
            final(self)@.wf(),
            match wire {
                Some(w) => {
                    let at = find_session(old(self)@.connections, session, 0);
                    at < old(self)@.connections.len() && w@ == wire_bytes(
                        old(self)@.connections[at].packet_for(
                            chunk_body(old(self)@.connections[at], data@),
                        ),
                    )
                },
                None => find_session(old(self)@.connections, session, 0) == old(
                    self,
                )@.connections.len(),
            },
    {
        let at = match self.get_conn(session) {
            Some(i) => i,
            None => return None,
        };
        let ghost before = self.connections@;
        let ghost told = self.messages@;
        let ghost c = before[at as int]@;
        assert(connections_view(before)[at as int] == c);
        let len = data.len();
        let cursor = self.connections[at].coursor;
        let total = self.connections[at].content_length;
        let pak = if len == 0 {
            self.messages.push(Message::Destroy(session));
            Packets::Finished(session)
        } else {
            self.messages.push(
                Message::SetProgress(session, Progress { done: advance(cursor, len), total }),
            );
            Packets::FileContent(FileContent { session, cursor, bytes: data })
        };
        assert(pak@ == chunk_body(c, data@));
        assert(messages_view(self.messages@) =~= messages_view(told).push(chunk_note(c, data@)));
        let connection = &mut self.connections[at];
        connection.coursor = advance(cursor, len);
        let wire = connection.send(pak, now);
        proof {
            assert(self.connections@ == before.update(at as int, self.connections@[at as int]));
            assert(connections_view(self.connections@) =~= connections_view(before).update(
                at as int,
                self.connections@[at as int]@,
            ));
            assert forall|i: int| 0 <= i < self@.connections.len() implies (
            #[trigger] self@.connections[i]).wf() by {
                if i != at {
                    assert(self@.connections[i] == old(self)@.connections[i]);
                }
            }
        }
        Some(wire)
    }
}

/// Who stays was there before, and is active.
pub proof fn lemma_survivors_come_from(connections: Seq<ConnectionView>)
    ensures
        forall|k: int|
            0 <= k < survivors(connections).len() ==> (#[trigger] survivors(connections)[k]).active
                && connections.contains(survivors(connections)[k]),
        survivors(connections).len() <= connections.len(),
    decreases connections.len(),
{
    if connections.len() > 0 {
        let front = connections.drop_last();
        lemma_survivors_come_from(front);
        let kept = survivors(connections);
        assert forall|k: int| 0 <= k < kept.len() implies (#[trigger] kept[k]).active
            && connections.contains(kept[k]) by {
            if k < survivors(front).len() {
                let j = choose|j: int| 0 <= j < front.len() && front[j] == survivors(front)[k];
                assert(connections[j] == kept[k]);
            } else {
                assert(connections[connections.len() - 1] == kept[k]);
            }
        }
    }
}

/// While more than [`MAX_DUE`] packets of a connection are due, the pass
/// asks for no new piece of the data on it.
pub proof fn lemma_backpressure(c: ConnectionView, should: Should, buffer_size: usize, now: Millis)
    requires
        c.due(now).len() > MAX_DUE,
    ensures
        wanted_read(c, should, buffer_size, now) is None,
{
}

/// Each connection that leaves is told to the host once: there are as many
/// farewells as connections that do not stay.
pub proof fn lemma_one_farewell_each(connections: Seq<ConnectionView>)
    ensures
        farewells(connections).len() + survivors(connections).len() == connections.len(),
    decreases connections.len(),
{
    if connections.len() > 0 {
        lemma_one_farewell_each(connections.drop_last());
    }
}

/// The host is told of every closed connection.
pub proof fn lemma_farewell_for(connections: Seq<ConnectionView>, i: int)
    requires
        0 <= i < connections.len(),
        !connections[i].active,
    ensures
        farewells(connections).contains(MessageView::Destroy(connections[i].session)),
    decreases connections.len(),
{
    let told = farewells(connections);
    if i == connections.len() - 1 {
        assert(told[told.len() - 1] == MessageView::Destroy(connections[i].session));
    } else {
        let front = connections.drop_last();
        lemma_farewell_for(front, i);
        let k = choose|k: int|
            0 <= k < farewells(front).len() && farewells(front)[k] == MessageView::Destroy(
                connections[i].session,
            );
        assert(told[k] == MessageView::Destroy(connections[i].session));
    }
}

/// A connection that has not been heard for more than [`IDLE_TIMEOUT`] is
/// closed by the pass and does not stay; the host is told so, and is told
/// once of each connection that leaves.
pub proof fn lemma_idle_is_evicted(connections: Seq<ConnectionView>, now: Millis, i: int)
    requires
        0 <= i < connections.len(),
        idle(connections[i], now),
    ensures
        !maintained(connections[i], now).active,
        forall|k: int|
            0 <= k < survivors(all_maintained(connections, now)).len() ==> (#[trigger] survivors(
                all_maintained(connections, now),
            )[k]).active,
        farewells(all_maintained(connections, now)).contains(
            MessageView::Destroy(connections[i].session),
        ),
        farewells(all_maintained(connections, now)).len() + survivors(
            all_maintained(connections, now),
        ).len() == connections.len(),
{
    let after = all_maintained(connections, now);
    assert(after[i] == maintained(connections[i], now));
    lemma_survivors_come_from(after);
    lemma_farewell_for(after, i);
    lemma_one_farewell_each(after);
}

/// A datagram that carries a piece of data is [`CHUNK_OVERHEAD`] bytes
/// longer than the piece.
pub proof fn lemma_chunk_overhead(c: ConnectionView, data: Seq<u8>)
    requires
        c.wf(),
        data.len() > 0,
    ensures
        wire_bytes(c.packet_for(chunk_body(c, data))).len() == CHUNK_OVERHEAD + data.len(),
{
    lemma_auto_spec_u16_to_from_le_bytes();
    lemma_auto_spec_u64_to_from_le_bytes();
    lemma_auto_spec_u128_to_from_le_bytes();
    lemma_ids_bytes(c.packets);
}

/// A piece of the size that the pass asks for gives a datagram that fits
/// the buffer, and so does the announcement of the end.
pub proof fn lemma_chunk_fits(c: ConnectionView, data: Seq<u8>, buffer_size: usize)
    requires
        c.wf(),
        buffer_size > CHUNK_OVERHEAD,
        data.len() <= buffer_size - CHUNK_OVERHEAD,
    ensures
        wire_bytes(c.packet_for(chunk_body(c, data))).len() <= buffer_size,
{
    if data.len() > 0 {
        lemma_chunk_overhead(c, data);
    } else {
        lemma_auto_spec_u16_to_from_le_bytes();
        lemma_auto_spec_u64_to_from_le_bytes();
        lemma_auto_spec_u128_to_from_le_bytes();
        lemma_ids_bytes(c.packets);
    }
}

} // verus!
