//! The packets that wait for their acknowledgment.
use crate::packets::{Packet, PacketView};
use vstd::prelude::*;

verus! {

/// A moment, in milliseconds since an epoch that the caller chooses.
pub type Millis = u64;

/// The identifier that a fresh store hands out first.
pub const FIRST_COUNTER: u16 = 2121;

/// The packets sent and not yet acknowledged, each with the moment at which
/// it was last transmitted, and the identifier that the next packet gets.
#[derive(Debug, PartialEq, Clone)]
pub struct PakStorage {
    pub packets: Vec<(Packet, Millis)>,
    pub counter: u16,
}

/// The waiting packets of a store, through their views.
pub open spec fn waiting_view(entries: Seq<(Packet, Millis)>) -> Seq<(PacketView, Millis)> {
    entries.map_values(|e: (Packet, Millis)| (e.0@, e.1))
}

/// A [`PakStorage`] seen through the views of its packets.
pub struct PakStorageView {
    pub packets: Seq<(PacketView, Millis)>,
    pub counter: u16,
}

impl View for PakStorage {
    type V = PakStorageView;

    open spec fn view(&self) -> PakStorageView {
        PakStorageView { packets: waiting_view(self.packets@), counter: self.counter }
    }
}

impl Default for PakStorage {
    /// An empty store whose counter stands at [`FIRST_COUNTER`].
    fn default() -> (storage: PakStorage)
        ensures
            storage@.packets == Seq::<(PacketView, Millis)>::empty(),
            storage@.counter == FIRST_COUNTER,
    {
        let storage = PakStorage { packets: Vec::new(), counter: FIRST_COUNTER };
        assert(waiting_view(storage.packets@) =~= Seq::<(PacketView, Millis)>::empty());
        storage
    }
}

} // verus!
