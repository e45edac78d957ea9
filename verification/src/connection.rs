//! The reliability state that one side keeps for one peer.
//!
//! A connection decides; it does not transmit. Whatever it wants to have on
//! the wire it hands back as datagrams, and every moment it needs is given
//! to it, in milliseconds.
use crate::packets::{wire_bytes, Packet, PacketView, Packets, PacketsView};
use crate::pak_storage::{waiting_view, Millis, PakStorage, PakStorageView, FIRST_COUNTER};
use crate::ring::{copy_ids, holds, merge, merge_into, next_position, record};
use vstd::prelude::*;

verus! {

/// How long an unacknowledged packet waits before it is transmitted again.
pub const RETRANSMIT_AFTER: Millis = 1000;

/// How long a connection may hear nothing before it is given up.
pub const IDLE_TIMEOUT: Millis = 20000;

/// One established transfer with one peer.
///
/// `packets` is the window of the last 32 identifiers recorded with
/// [`Connection::add_id`], written round-robin at `pak_cour`; every packet
/// sent carries a copy of it. `recv_packets` is the memory of 64 identifiers
/// that the peer's windows have acknowledged. `storage` holds what was sent
/// and is not yet acknowledged. `coursor` is the byte offset at which the
/// transfer stands and `content_length` its total size. `last_action` is
/// the moment at which the peer was last heard.
#[derive(Debug, PartialEq, Clone)]
pub struct Connection {
    pub name: String,
    pub peer: String,
    pub packets: Vec<u16>,
    pub recv_packets: Vec<u16>,
    pub pak_cour: u8,
    pub coursor: u128,
    pub session: u128,
    pub active: bool,
    pub last_action: Millis,
    pub content_length: u128,
    pub storage: PakStorage,
}

/// A [`Connection`] as plain mathematical data.
pub struct ConnectionView {
    pub name: Seq<char>,
    pub peer: Seq<char>,
    pub packets: Seq<u16>,
    pub recv_packets: Seq<u16>,
    pub pak_cour: u8,
    pub coursor: u128,
    pub session: u128,
    pub active: bool,
    pub last_action: Millis,
    pub content_length: u128,
    pub storage: PakStorageView,
}

impl View for Connection {
    type V = ConnectionView;

    open spec fn view(&self) -> ConnectionView {
        ConnectionView {
            name: self.name@,
            peer: self.peer@,
            packets: self.packets@,
            recv_packets: self.recv_packets@,
            pak_cour: self.pak_cour,
            coursor: self.coursor,
            session: self.session,
            active: self.active,
            last_action: self.last_action,
            content_length: self.content_length,
            storage: self.storage@,
        }
    }
}

impl ConnectionView {
    /// The window has 32 identifiers, the memory 64 slots, and the write
    /// position lies in the window.
    pub open spec fn wf(self) -> bool {
        &&& self.packets.len() == 32
        &&& self.recv_packets.len() == 64
        &&& self.pak_cour < 32
    }

    /// The connection after `id` was recorded in its window.
    pub open spec fn recorded(self, id: u16) -> ConnectionView {
        ConnectionView {
            packets: record(self.packets, self.pak_cour as int, id),
            pak_cour: next_position(self.pak_cour as int) as u8,
            ..self
        }
    }

    /// The connection after `ids` were merged into its memory.
    pub open spec fn merged(self, ids: Seq<u16>) -> ConnectionView {
        ConnectionView { recv_packets: merge(self.recv_packets, ids), ..self }
    }

    /// The packet that carries `pak` when it is sent next.
    pub open spec fn packet_for(self, pak: PacketsView) -> PacketView {
        PacketView { id: next_id(self.storage.counter), packets: self.packets, packet: pak }
    }

    /// The connection after `pak` was sent at `now`.
    pub open spec fn sent(self, pak: PacketsView, now: Millis) -> ConnectionView {
        ConnectionView {
            storage: PakStorageView {
                packets: self.storage.packets.push((self.packet_for(pak), now)),
                counter: counter_after(next_id(self.storage.counter)),
            },
            ..self
        }
    }

    /// The packets that are transmitted again when stock is taken at `now`.
    pub open spec fn due(self, now: Millis) -> Seq<PacketView> {
        due_packets(self.storage.packets, self.recv_packets, now)
    }

    /// The connection after stock was taken at `now`.
    pub open spec fn resolved(self, now: Millis) -> ConnectionView {
        ConnectionView {
            storage: PakStorageView {
                packets: still_waiting(self.storage.packets, self.recv_packets, now),
                counter: self.storage.counter,
            },
            ..self
        }
    }
}

/// A connection as [`Connection::new`] makes it.
pub open spec fn fresh_connection(name: Seq<char>, peer: Seq<char>, session: u128, now: Millis)
    -> ConnectionView {
    ConnectionView {
        name,
        peer,
        packets: Seq::new(32, |i: int| 0u16),
        recv_packets: Seq::new(64, |i: int| 0u16),
        pak_cour: 0,
        coursor: 0,
        session,
        active: true,
        last_action: now,
        content_length: 0,
        storage: PakStorageView { packets: Seq::empty(), counter: FIRST_COUNTER },
    }
}

/// What becomes of a waiting packet when the connection takes stock.
pub enum Fate {
    /// The peer has acknowledged it: it is forgotten.
    Acknowledged,
    /// It was transmitted less than [`RETRANSMIT_AFTER`] ago: it waits on.
    Waiting,
    /// It is transmitted again, and waits on from now.
    Due,
}

/// The fate of `entry` at `now`, where the peer has acknowledged `acked`.
pub open spec fn fate(entry: (PacketView, Millis), acked: Seq<u16>, now: Millis) -> Fate {
    if acked.contains(entry.0.id) {
        Fate::Acknowledged
    } else if now - entry.1 < RETRANSMIT_AFTER {
        Fate::Waiting
    } else {
        Fate::Due
    }
}

/// The packets that go on waiting after stock was taken at `now`, each with
/// the moment of its last transmission, in their old order.
pub open spec fn still_waiting(entries: Seq<(PacketView, Millis)>, acked: Seq<u16>, now: Millis)
    -> Seq<(PacketView, Millis)>
    decreases entries.len(),
{
    if entries.len() == 0 {
        Seq::empty()
    } else {
        let before = still_waiting(entries.drop_last(), acked, now);
        match fate(entries.last(), acked, now) {
            Fate::Acknowledged => before,
            Fate::Waiting => before.push(entries.last()),
            Fate::Due => before.push((entries.last().0, now)),
        }
    }
}

/// The packets that are transmitted again when stock is taken at `now`, in
/// the order in which they wait.
pub open spec fn due_packets(entries: Seq<(PacketView, Millis)>, acked: Seq<u16>, now: Millis)
    -> Seq<PacketView>
    decreases entries.len(),
{
    if entries.len() == 0 {
        Seq::empty()
    } else {
        let before = due_packets(entries.drop_last(), acked, now);
        match fate(entries.last(), acked, now) {
            Fate::Due => before.push(entries.last().0),
            _ => before,
        }
    }
}

/// The identifier that the next packet gets where the counter stands at
/// `counter`: the counter itself, but never `0`.
pub open spec fn next_id(counter: u16) -> u16 {
    if counter == 0 {
        1
    } else {
        counter
    }
}

/// The counter after `id` was handed out: one more, wrapping to `0`.
pub open spec fn counter_after(id: u16) -> u16 {
    if id == 0xffff {
        0
    } else {
        (id + 1) as u16
    }
}

/// `datagrams` are the datagrams of `packets`, one for one.
pub open spec fn datagrams_of(datagrams: Seq<Vec<u8>>, packets: Seq<PacketView>) -> bool {
    &&& datagrams.len() == packets.len()
    &&& forall|k: int| 0 <= k < datagrams.len() ==> (#[trigger] datagrams[k])@ == wire_bytes(packets[k])
}

impl Connection {
    /// A fresh, active connection of `session` with the peer `name` at the
    /// address `peer`, last heard at `now`: empty rings, nothing waiting,
    /// nothing transferred yet.
    pub fn new(name: String, peer: String, session: u128, now: Millis) -> (connection: Connection)
        ensures
            connection@ == fresh_connection(name@, peer@, session, now),
            connection@.wf(),
    {
        let packets: Vec<u16> = vec![0u16; 32];
        let recv_packets: Vec<u16> = vec![0u16; 64];
        assert(packets@ =~= Seq::new(32, |i: int| 0u16));
        assert(recv_packets@ =~= Seq::new(64, |i: int| 0u16));
        Connection {
            name,
            peer,
            packets,
            recv_packets,
            pak_cour: 0,
            coursor: 0,
            session,
            active: true,
            last_action: now,
            content_length: 0,
            storage: PakStorage::default(),
        }
    }

    /// Records `id` in the window: it overwrites the oldest entry, and the
    /// write position moves on by one, wrapping after 32.
    pub fn add_id(&mut self, id: u16)
        requires
            old(self)@.wf(),
        ensures
            final(self)@ == old(self)@.recorded(id),
            final(self)@.wf(),
    {
        let at: usize = self.pak_cour as usize;
        self.packets.set(at, id);
        self.pak_cour = (self.pak_cour + 1) % 32;
    }

    /// Merges the identifiers `packets`, which the peer reports to have
    /// received, into the memory (see [`merge`]). The memory keeps its 64
    /// slots.
    pub fn add_packets(&mut self, packets: &[u16])
        requires
            old(self)@.wf(),
        ensures
            final(self)@ == old(self)@.merged(packets@),
            final(self)@.wf(),
    {
        merge_into(&mut self.recv_packets, packets);
    }

    /// Sends `pak`: gives it the next identifier and the current window,
    /// stores it as waiting since `now`, and returns its datagram, which the
    /// caller transmits.
    pub fn send(&mut self, pak: Packets, now: Millis) -> (wire: Vec<u8>)
        ensures
            wire@ == wire_bytes(old(self)@.packet_for(pak@)),
            final(self)@ == old(self)@.sent(pak@, now),
            old(self)@.wf() ==> final(self)@.wf(),
    {
        if self.storage.counter == 0 {
            self.storage.counter = 1;
        }
        let packet = Packet {
            id: self.storage.counter,
            packets: copy_ids(&self.packets),
            packet: pak,
        };
        self.storage.counter = self.storage.counter.wrapping_add(1);
        let wire = packet.encode();
        let ghost before = self.storage.packets@;
        self.storage.packets.push((packet, now));
        assert(waiting_view(self.storage.packets@) =~= waiting_view(before).push((packet@, now)));
        wire
    }

    /// Takes stock of the waiting packets at `now`. A packet whose
    /// identifier the peer has acknowledged is forgotten. One that was
    /// last transmitted less than a second ago waits on. Every other one is
    /// due: its datagram, byte for byte what it was, is returned for the
    /// caller to transmit, and the packet waits on from `now`. The number
    /// returned is the number of packets that were due.
    pub fn resolv(&mut self, now: Millis) -> (due: (usize, Vec<Vec<u8>>))
        ensures
            datagrams_of(due.1@, old(self)@.due(now)),
            due.0 == due.1@.len(),
            final(self)@ == old(self)@.resolved(now),
            old(self)@.wf() ==> final(self)@.wf(),
    {
        let ghost all = waiting_view(self.storage.packets@);
        let ghost acked = self.recv_packets@;
        let ghost done: int = 0;
        let mut datagrams: Vec<Vec<u8>> = Vec::new();
        let mut i: usize = 0;
        assert(all.take(0) =~= Seq::<(PacketView, Millis)>::empty());
        assert(all.skip(0) =~= all);
        while i < self.storage.packets.len()
            invariant
                0 <= done <= all.len(),
                all == waiting_view(old(self).storage.packets@),
                acked == old(self).recv_packets@,
                i == still_waiting(all.take(done), acked, now).len(),
                waiting_view(self.storage.packets@) == still_waiting(all.take(done), acked, now)
                    + all.skip(done),
                datagrams_of(datagrams@, due_packets(all.take(done), acked, now)),
                self@ == (ConnectionView {
                    storage: PakStorageView {
                        packets: waiting_view(self.storage.packets@),
                        counter: old(self).storage.counter,
                    },
                    ..old(self)@
                }),
            decreases all.len() - done,
        {
            let ghost kept = still_waiting(all.take(done), acked, now);
            let ghost current = self.storage.packets@;
            proof {
                assert(waiting_view(current).len() == kept.len() + all.skip(done).len());
                assert(waiting_view(current)[i as int] == all.skip(done)[0]);
                assert(all.take(done + 1).drop_last() =~= all.take(done));
                assert(all.take(done + 1).last() == all[done]);
                assert(all.skip(done).skip(1) =~= all.skip(done + 1));
            }
            let id = self.storage.packets[i].0.id;
            let sent_at = self.storage.packets[i].1;
            if holds(&self.recv_packets, id) {
                self.storage.packets.remove(i);
                proof {
                    assert(self.storage.packets@ == current.remove(i as int));
                    assert(waiting_view(current.remove(i as int)) =~= waiting_view(
                        current,
                    ).remove(i as int));
                    assert((kept + all.skip(done)).remove(i as int) =~= kept + all.skip(done + 1));
                    assert(waiting_view(self.storage.packets@) =~= kept + all.skip(done + 1));
                    done = done + 1;
                }
            } else if now >= sent_at && now - sent_at >= RETRANSMIT_AFTER {
                let wire = self.storage.packets[i].0.encode();
                datagrams.push(wire);
                let entry = self.storage.packets.remove(i);
                let ghost removed = self.storage.packets@;
                self.storage.packets.insert(i, (entry.0, now));
                proof {
                    assert(entry == current[i as int]);
                    assert(removed == current.remove(i as int));
                    assert(waiting_view(removed) =~= waiting_view(current).remove(i as int));
                    assert((kept + all.skip(done)).remove(i as int) =~= kept + all.skip(done + 1));
                    assert(self.storage.packets@ == removed.insert(i as int, (entry.0, now)));
                    assert(waiting_view(removed.insert(i as int, (entry.0, now))) =~= waiting_view(
                        removed,
                    ).insert(i as int, (entry.0@, now)));
                    assert(entry.0@ == all[done].0);
                    assert(waiting_view(self.storage.packets@) =~= kept.push((all[done].0, now))
                        + all.skip(done + 1));
                    done = done + 1;
                }
                i += 1;
            } else {
                proof {
                    assert(waiting_view(self.storage.packets@) =~= kept.push(all[done])
                        + all.skip(done + 1));
                    done = done + 1;
                }
                i += 1;
            }
        }
        proof {
            assert(done == all.len()) by {
                assert(waiting_view(self.storage.packets@).len() == i + all.skip(done).len());
            }
            assert(all.take(done) =~= all);
            assert(waiting_view(self.storage.packets@) =~= still_waiting(all, acked, now));
        }
        (datagrams.len(), datagrams)
    }
}

/// A packet whose identifier the peer has acknowledged is forgotten: it
/// neither waits on nor is transmitted again.
pub proof fn lemma_acknowledged_is_forgotten(
    entries: Seq<(PacketView, Millis)>,
    acked: Seq<u16>,
    now: Millis,
    id: u16,
)
    requires
        acked.contains(id),
    ensures
        forall|k: int|
            0 <= k < still_waiting(entries, acked, now).len() ==> (#[trigger] still_waiting(
                entries,
                acked,
                now,
            )[k]).0.id != id,
        forall|k: int|
            0 <= k < due_packets(entries, acked, now).len() ==> (#[trigger] due_packets(
                entries,
                acked,
                now,
            )[k]).id != id,
    decreases entries.len(),
{
    if entries.len() > 0 {
        lemma_acknowledged_is_forgotten(entries.drop_last(), acked, now, id);
    }
}

/// A packet that is neither acknowledged nor due waits on, with the moment
/// of its last transmission unchanged.
pub proof fn lemma_waiting_is_kept(
    entries: Seq<(PacketView, Millis)>,
    acked: Seq<u16>,
    now: Millis,
    i: int,
)
    requires
        0 <= i < entries.len(),
        fate(entries[i], acked, now) is Waiting,
    ensures
        still_waiting(entries, acked, now).contains(entries[i]),
    decreases entries.len(),
{
    let after = still_waiting(entries, acked, now);
    let before = still_waiting(entries.drop_last(), acked, now);
    if i == entries.len() - 1 {
        assert(after[after.len() - 1] == entries[i]);
    } else {
        lemma_waiting_is_kept(entries.drop_last(), acked, now, i);
        let k = choose|k: int| 0 <= k < before.len() && before[k] == entries[i];
        assert(after[k] == entries[i]);
    }
}

/// A packet that the peer has not acknowledged and that was last
/// transmitted a second ago or longer is transmitted again, and waits on
/// from `now`.
pub proof fn lemma_due_is_resent(
    entries: Seq<(PacketView, Millis)>,
    acked: Seq<u16>,
    now: Millis,
    i: int,
)
    requires
        0 <= i < entries.len(),
        fate(entries[i], acked, now) is Due,
    ensures
        due_packets(entries, acked, now).contains(entries[i].0),
        still_waiting(entries, acked, now).contains((entries[i].0, now)),
    decreases entries.len(),
{
    let resent = due_packets(entries, acked, now);
    let after = still_waiting(entries, acked, now);
    let resent_before = due_packets(entries.drop_last(), acked, now);
    let before = still_waiting(entries.drop_last(), acked, now);
    if i == entries.len() - 1 {
        assert(resent[resent.len() - 1] == entries[i].0);
        assert(after[after.len() - 1] == (entries[i].0, now));
    } else {
        lemma_due_is_resent(entries.drop_last(), acked, now, i);
        let k = choose|k: int| 0 <= k < resent_before.len() && resent_before[k] == entries[i].0;
        assert(resent[k] == entries[i].0);
        let m = choose|m: int| 0 <= m < before.len() && before[m] == (entries[i].0, now);
        assert(after[m] == (entries[i].0, now));
    }
}

/// A packet is not transmitted again while every entry that holds it is
/// acknowledged or was transmitted less than a second ago.
pub proof fn lemma_not_resent_early(
    entries: Seq<(PacketView, Millis)>,
    acked: Seq<u16>,
    now: Millis,
    packet: PacketView,
)
    requires
        forall|i: int|
            0 <= i < entries.len() && (#[trigger] entries[i]).0 == packet ==> !(fate(
                entries[i],
                acked,
                now,
            ) is Due),
    ensures
        !due_packets(entries, acked, now).contains(packet),
    decreases entries.len(),
{
    if entries.len() > 0 {
        let front = entries.drop_last();
        assert forall|i: int| 0 <= i < front.len() && (#[trigger] front[i]).0 == packet implies !(
        fate(front[i], acked, now) is Due) by {
            assert(front[i] == entries[i]);
        }
        lemma_not_resent_early(front, acked, now, packet);
        let resent = due_packets(entries, acked, now);
        let before = due_packets(front, acked, now);
        if resent.contains(packet) {
            let k = choose|k: int| 0 <= k < resent.len() && resent[k] == packet;
            if k < before.len() {
                assert(before[k] == packet);
            } else {
                assert(entries[entries.len() - 1].0 == packet);
            }
        }
    }
}

/// Only what waits is ever transmitted again or kept waiting: a packet that
/// was forgotten does not come back.
pub proof fn lemma_nothing_comes_back(
    entries: Seq<(PacketView, Millis)>,
    acked: Seq<u16>,
    now: Millis,
    packet: PacketView,
)
    requires
        forall|i: int| 0 <= i < entries.len() ==> (#[trigger] entries[i]).0 != packet,
    ensures
        !due_packets(entries, acked, now).contains(packet),
        forall|k: int|
            0 <= k < still_waiting(entries, acked, now).len() ==> (#[trigger] still_waiting(
                entries,
                acked,
                now,
            )[k]).0 != packet,
    decreases entries.len(),
{
    if entries.len() > 0 {
        let front = entries.drop_last();
        assert forall|i: int| 0 <= i < front.len() implies (#[trigger] front[i]).0 != packet by {
            assert(front[i] == entries[i]);
        }
        lemma_nothing_comes_back(front, acked, now, packet);
        assert(entries[entries.len() - 1].0 != packet);
        let resent = due_packets(entries, acked, now);
        let before = due_packets(front, acked, now);
        if resent.contains(packet) {
            let k = choose|k: int| 0 <= k < resent.len() && resent[k] == packet;
            if k < before.len() {
                assert(before[k] == packet);
            }
        }
    }
}

} // verus!
