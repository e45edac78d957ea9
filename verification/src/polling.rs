//! The polling entry point: one turn of the loop that the caller runs.
//!
//! A turn takes in, in this order, the outcome of the handshake that was
//! under way, if it has ended; the datagrams that have arrived, each for
//! the session on whose socket it came; and then runs the maintenance pass.
use crate::connection::Connection;
use crate::dispatch::{received_effects, received_is, received_state, Received};
use crate::maintenance::{paces_are, ticked, Pace};
use crate::pak_storage::Millis;
use crate::udp_manager::{joined, outcome_view, ConnectingError, UdpManager, UdpManagerView};
use vstd::prelude::*;

verus! {

/// What the caller has to do after a turn.
#[derive(Debug, PartialEq, Clone)]
pub struct Stepped {
    /// What to do for each datagram that was handed in, in their order.
    pub received: Vec<Received>,
    /// What to do for each connection that was in the set when the
    /// maintenance pass began, in their order.
    pub paces: Vec<Pace>,
}

/// Datagrams, each with the session it arrived for, as sequences of bytes.
pub open spec fn arrivals_view(datagrams: Seq<(u128, Vec<u8>)>) -> Seq<(u128, Seq<u8>)> {
    datagrams.map_values(|d: (u128, Vec<u8>)| (d.0, d.1@))
}

/// The manager after the handshake's outcome, if there is one, was taken
/// in.
pub open spec fn after_handshake(
    m: UdpManagerView,
    outcome: Option<Result<Connection, ConnectingError>>,
    now: Millis,
) -> UdpManagerView {
    match outcome {
        Some(result) => joined(m, outcome_view(result), now),
        None => m,
    }
}

/// The manager after the datagrams `arrivals` were taken in, the first one
/// first.
pub open spec fn after_arrivals(m: UdpManagerView, arrivals: Seq<(u128, Seq<u8>)>, now: Millis)
    -> UdpManagerView
    decreases arrivals.len(),
{
    if arrivals.len() == 0 {
        m
    } else {
        received_state(
            after_arrivals(m, arrivals.drop_last(), now),
            arrivals.last().0,
            arrivals.last().1,
            now,
        )
    }
}

impl UdpManager {
    /// One turn at `now`: takes in the outcome of the handshake that was
    /// under way, if it has ended (`outcome`), then each of `datagrams`
    /// with the session it arrived for, and then runs the maintenance
    /// pass. Says what the caller has to do for each datagram and for each
    /// connection.
    pub fn step(
        &mut self,
        outcome: Option<Result<Connection, ConnectingError>>,
        datagrams: &Vec<(u128, Vec<u8>)>,
        now: Millis,
    ) -> (done: Stepped)
        requires
            old(self)@.wf(),
            outcome matches Some(Ok(c)) ==> c@.wf(),
        ensures
            final(self)@ == ticked(
                after_arrivals(
                    after_handshake(old(self)@, outcome, now),
                    arrivals_view(datagrams@),
                    now,
                ),
                now,
            ),
            final(self)@.wf(),
            done.received@.len() == datagrams@.len(),
            forall|i: int|
                0 <= i < datagrams@.len() ==> received_is(
                    #[trigger] done.received@[i],
                    received_effects(
                        after_arrivals(
                            after_handshake(old(self)@, outcome, now),
                            arrivals_view(datagrams@).take(i),
                            now,
                        ),
                        datagrams@[i].0,
                        datagrams@[i].1@,
                        now,
                    ),
                ),
            paces_are(
                done.paces@,
                after_arrivals(
                    after_handshake(old(self)@, outcome, now),
                    arrivals_view(datagrams@),
                    now,
                ),
                now,
            ),
    {
        match outcome {
            Some(result) => self.finish_connecting(result, now),
            None => {},
        }
        let ghost begun = self@;
        let ghost arrivals = arrivals_view(datagrams@);
        let mut received: Vec<Received> = Vec::new();
        let mut i: usize = 0;
        assert(arrivals.take(0) =~= Seq::<(u128, Seq<u8>)>::empty());
        while i < datagrams.len()
            invariant
                begun == after_handshake(old(self)@, outcome, now),
                arrivals == arrivals_view(datagrams@),
                i <= datagrams@.len(),
                self@ == after_arrivals(begun, arrivals.take(i as int), now),
                self@.wf(),
                received@.len() == i,
                forall|k: int|
                    0 <= k < i ==> received_is(
                        #[trigger] received@[k],
                        received_effects(
                            after_arrivals(begun, arrivals.take(k), now),
                            datagrams@[k].0,
                            datagrams@[k].1@,
                            now,
                        ),
                    ),
            decreases datagrams@.len() - i,
        {
            proof {
                assert(arrivals.take(i + 1).drop_last() =~= arrivals.take(i as int));
                assert(arrivals.take(i + 1).last() == (datagrams@[i as int].0, datagrams@[i as int].1@));
            }
            let one = self.receive(datagrams[i].0, datagrams[i].1.as_slice(), now);
            received.push(one);
            i += 1;
        }
        assert(arrivals.take(i as int) =~= arrivals);
        let paces = self.tick(now);
        Stepped { received, paces }
    }
}

} // verus!
