//! Bounded identifier memory: the two fixed-size rings with which a
//! connection tells what got through, without sequence numbers.
//!
//! The *window* keeps the last [`WINDOW`] identifiers that were recorded, the
//! oldest being overwritten first. The *memory* keeps [`MEMORY`] identifiers
//! that were merged into it; `0` marks a free slot. Merging works in three
//! steps: a slot that repeats an earlier slot is freed ([`dedup`]); the free
//! slots are listed, and the list is filled up to the size of the memory
//! with the lowest positions ([`free_list`]); each incoming identifier other
//! than `0` then goes to the position that stands last in the list
//! ([`fill`]).
use vstd::prelude::*;

verus! {

/// Number of identifiers in an acknowledgment window.
pub const WINDOW: usize = 32;

/// Number of slots in the memory of acknowledged identifiers.
pub const MEMORY: usize = 64;

/// The slot at `j` repeats an earlier slot.
pub open spec fn seen_before(slots: Seq<u16>, j: int) -> bool {
    exists|i: int| 0 <= i < j && #[trigger] slots[i] == slots[j]
}

/// `slots` with every slot freed that repeats an earlier one.
pub open spec fn dedup(slots: Seq<u16>) -> Seq<u16> {
    Seq::new(
        slots.len(),
        |j: int|
            if seen_before(slots, j) {
                0u16
            } else {
                slots[j]
            },
    )
}

/// The positions below `upto` at which `slots` is free, in rising order.
pub open spec fn zero_positions(slots: Seq<u16>, upto: nat) -> Seq<int>
    decreases upto,
{
    if upto == 0 {
        Seq::empty()
    } else {
        let before = zero_positions(slots, (upto - 1) as nat);
        if slots[upto - 1] == 0 {
            before.push(upto - 1)
        } else {
            before
        }
    }
}

/// The positions that a merge may write to, the last one first: the free
/// positions in rising order, then as many of the lowest positions
/// `0, 1, 2, ..` as it takes to list as many positions as there are slots.
pub open spec fn free_list(slots: Seq<u16>) -> Seq<int> {
    let zeros = zero_positions(slots, slots.len());
    zeros + Seq::new((slots.len() - zeros.len()) as nat, |i: int| i)
}

/// Writes each identifier of `incoming` other than `0` to the position that
/// stands last in `free`, and strikes that position off. Once `free` is used
/// up, nothing more is written.
pub open spec fn fill(slots: Seq<u16>, free: Seq<int>, incoming: Seq<u16>) -> Seq<u16>
    decreases incoming.len(),
{
    if incoming.len() == 0 {
        slots
    } else if incoming[0] == 0 {
        fill(slots, free, incoming.skip(1))
    } else if free.len() == 0 {
        slots
    } else {
        fill(slots.update(free.last(), incoming[0]), free.drop_last(), incoming.skip(1))
    }
}

/// The memory `slots` after `incoming` has been merged into it.
pub open spec fn merge(slots: Seq<u16>, incoming: Seq<u16>) -> Seq<u16> {
    let kept = dedup(slots);
    fill(kept, free_list(kept), incoming)
}

/// The window `ids` after `id` has been recorded at `at`.
pub open spec fn record(ids: Seq<u16>, at: int, id: u16) -> Seq<u16> {
    ids.update(at, id)
}

/// The position that follows `at` in a window.
pub open spec fn next_position(at: int) -> int {
    (at + 1) % 32
}

/// The free positions below `upto` are fewer than `upto` and lie below it.
pub proof fn lemma_zero_positions(slots: Seq<u16>, upto: nat)
    requires
        upto <= slots.len(),
    ensures
        zero_positions(slots, upto).len() <= upto,
        forall|k: int|
            0 <= k < zero_positions(slots, upto).len() ==> 0 <= #[trigger] zero_positions(
                slots,
                upto,
            )[k] < upto,
    decreases upto,
{
    if upto > 0 {
        lemma_zero_positions(slots, (upto - 1) as nat);
    }
}

/// The list names as many positions as there are slots, all of them within
/// the slots.
pub proof fn lemma_free_list(slots: Seq<u16>)
    ensures
        free_list(slots).len() == slots.len(),
        forall|k: int|
            0 <= k < free_list(slots).len() ==> 0 <= #[trigger] free_list(slots)[k] < slots.len(),
{
    lemma_zero_positions(slots, slots.len());
}

/// Filling keeps the number of slots.
pub proof fn lemma_fill_len(slots: Seq<u16>, free: Seq<int>, incoming: Seq<u16>)
    requires
        forall|k: int| 0 <= k < free.len() ==> 0 <= #[trigger] free[k] < slots.len(),
    ensures
        fill(slots, free, incoming).len() == slots.len(),
    decreases incoming.len(),
{
    if incoming.len() > 0 && incoming[0] != 0 && free.len() > 0 {
        lemma_fill_len(slots.update(free.last(), incoming[0]), free.drop_last(), incoming.skip(1));
    } else if incoming.len() > 0 && incoming[0] == 0 {
        lemma_fill_len(slots, free, incoming.skip(1));
    }
}

/// A merge neither grows nor shrinks the memory.
pub proof fn lemma_merge_len(slots: Seq<u16>, incoming: Seq<u16>)
    ensures
        merge(slots, incoming).len() == slots.len(),
{
    let kept = dedup(slots);
    lemma_free_list(kept);
    lemma_fill_len(kept, free_list(kept), incoming);
}

/// Whether `id` stands in `ids`.
pub fn holds(ids: &Vec<u16>, id: u16) -> (found: bool)
    ensures
        found == ids@.contains(id),
{
    let mut i: usize = 0;
    while i < ids.len()
        invariant
            i <= ids@.len(),
            forall|k: int| 0 <= k < i ==> ids@[k] != id,
        decreases ids@.len() - i,
    {
        if ids[i] == id {
            return true;
        }
        i += 1;
    }
    false
}

/// A copy of `ids`.
pub fn copy_ids(ids: &Vec<u16>) -> (copy: Vec<u16>)
    ensures
        copy@ == ids@,
{
    let mut copy: Vec<u16> = Vec::with_capacity(ids.len());
    let mut i: usize = 0;
    while i < ids.len()
        invariant
            i <= ids@.len(),
            copy@ == ids@.take(i as int),
        decreases ids@.len() - i,
    {
        copy.push(ids[i]);
        i += 1;
    }
    copy
}

/// Whether the slot at `j` repeats an earlier slot.
fn repeats(slots: &Vec<u16>, j: usize) -> (found: bool)
    requires
        j < slots@.len(),
    ensures
        found == seen_before(slots@, j as int),
{
    let mut i: usize = 0;
    while i < j
        invariant
            i <= j < slots@.len(),
            forall|k: int| 0 <= k < i ==> slots@[k] != slots@[j as int],
        decreases j - i,
    {
        if slots[i] == slots[j] {
            return true;
        }
        i += 1;
    }
    false
}

/// Frees every slot that repeats an earlier one.
pub fn dedup_slots(slots: &mut Vec<u16>)
    ensures
        final(slots)@ == dedup(old(slots)@),
{
    let before = copy_ids(slots);
    let mut j: usize = 0;
    while j < before.len()
        invariant
            before@ == old(slots)@,
            slots@.len() == before@.len(),
            j <= before@.len(),
            forall|k: int| 0 <= k < j ==> slots@[k] == dedup(before@)[k],
            forall|k: int| j <= k < before@.len() ==> slots@[k] == before@[k],
        decreases before@.len() - j,
    {
        if repeats(&before, j) {
            slots.set(j, 0);
        }
        j += 1;
    }
    assert(slots@ =~= dedup(before@));
}

/// The positions of [`free_list`], in its order.
pub fn free_positions(slots: &Vec<u16>) -> (positions: Vec<usize>)
    ensures
        positions@.len() == free_list(slots@).len(),
        forall|k: int| 0 <= k < positions@.len() ==> positions@[k] as int == free_list(slots@)[k],
{
    let total = slots.len();
    let mut positions: Vec<usize> = Vec::with_capacity(total);
    let mut i: usize = 0;
    while i < total
        invariant
            total == slots@.len(),
            i <= total,
            positions@.len() == zero_positions(slots@, i as nat).len(),
            positions@.len() <= i,
            forall|k: int|
                0 <= k < positions@.len() ==> positions@[k] as int == zero_positions(
                    slots@,
                    i as nat,
                )[k],
        decreases total - i,
    {
        if slots[i] == 0 {
            positions.push(i);
        }
        i += 1;
    }
    let ghost zeros = zero_positions(slots@, total as nat);
    let missing = total - positions.len();
    let mut n: usize = 0;
    while n < missing
        invariant
            total == slots@.len(),
            zeros == zero_positions(slots@, total as nat),
            missing == total - zeros.len(),
            n <= missing,
            positions@.len() == zeros.len() + n,
            forall|k: int| 0 <= k < zeros.len() ==> positions@[k] as int == zeros[k],
            forall|k: int| zeros.len() <= k < positions@.len() ==> positions@[k] as int == k
                - zeros.len(),
        decreases missing - n,
    {
        positions.push(n);
        n += 1;
    }
    positions
}

/// Merges `incoming` into the memory `slots` (see [`merge`]).
pub fn merge_into(slots: &mut Vec<u16>, incoming: &[u16])
    ensures
        final(slots)@ == merge(old(slots)@, incoming@),
        final(slots)@.len() == old(slots)@.len(),
{
    dedup_slots(slots);
    let ghost kept = slots@;
    let mut positions = free_positions(slots);
    proof {
        lemma_free_list(kept);
        lemma_merge_len(old(slots)@, incoming@);
    }
    let ghost free = free_list(kept);
    assert(incoming@.skip(0) == incoming@);
    let mut k: usize = 0;
    while k < incoming.len()
        invariant
            k <= incoming@.len(),
            kept == dedup(old(slots)@),
            slots@.len() == kept.len(),
            free.len() == positions@.len(),
            forall|i: int| 0 <= i < free.len() ==> positions@[i] as int == free[i],
            forall|i: int| 0 <= i < free.len() ==> 0 <= #[trigger] free[i] < slots@.len(),
            fill(slots@, free, incoming@.skip(k as int)) == fill(kept, free_list(kept), incoming@),
        decreases incoming@.len() - k,
    {
        let id = incoming[k];
        let ghost rest = incoming@.skip(k as int);
        assert(rest[0] == id);
        assert(rest.skip(1) == incoming@.skip(k + 1));
        if id != 0 {
            match positions.pop() {
                Some(position) => {
                    slots.set(position, id);
                    proof {
                        free = free.drop_last();
                    }
                },
                None => {
                    return ;
                },
            }
        }
        k += 1;
    }
}

/// The memory after each batch of `batches` has been merged into it, the
/// first batch first.
pub open spec fn merge_all(slots: Seq<u16>, batches: Seq<Seq<u16>>) -> Seq<u16>
    decreases batches.len(),
{
    if batches.len() == 0 {
        slots
    } else {
        merge(merge_all(slots, batches.drop_last()), batches.last())
    }
}

/// However many batches are merged, and whatever they hold, the memory has
/// as many slots as before.
pub proof fn lemma_merges_keep_size(slots: Seq<u16>, batches: Seq<Seq<u16>>)
    ensures
        merge_all(slots, batches).len() == slots.len(),
    decreases batches.len(),
{
    if batches.len() > 0 {
        lemma_merges_keep_size(slots, batches.drop_last());
        lemma_merge_len(merge_all(slots, batches.drop_last()), batches.last());
    }
}

/// `id` stands in at most one slot.
pub open spec fn at_most_once(slots: Seq<u16>, id: u16) -> bool {
    forall|i: int, j: int|
        0 <= i < slots.len() && 0 <= j < slots.len() && #[trigger] slots[i] == id
            && #[trigger] slots[j] == id ==> i == j
}

/// After the first step of a merge no identifier other than `0` stands in
/// two slots.
pub proof fn lemma_dedup_at_most_once(slots: Seq<u16>, id: u16)
    requires
        id != 0,
    ensures
        at_most_once(dedup(slots), id),
{
    let kept = dedup(slots);
    assert forall|i: int, j: int|
        0 <= i < kept.len() && 0 <= j < kept.len() && #[trigger] kept[i] == id
            && #[trigger] kept[j] == id implies i == j by {
        assert(slots[i] == id && slots[j] == id);
        if i < j {
            assert(seen_before(slots, j));
        } else if j < i {
            assert(seen_before(slots, i));
        }
    }
}

/// Filling in identifiers other than `id` gives `id` no further slot.
pub proof fn lemma_fill_keeps_once(slots: Seq<u16>, free: Seq<int>, incoming: Seq<u16>, id: u16)
    requires
        at_most_once(slots, id),
        !incoming.contains(id),
        forall|k: int| 0 <= k < free.len() ==> 0 <= #[trigger] free[k] < slots.len(),
    ensures
        at_most_once(fill(slots, free, incoming), id),
    decreases incoming.len(),
{
    if incoming.len() > 0 {
        let rest = incoming.skip(1);
        assert forall|k: int| 0 <= k < rest.len() implies rest[k] != id by {
            assert(rest[k] == incoming[k + 1]);
        }
        assert(incoming[0] != id);
        if incoming[0] == 0 {
            lemma_fill_keeps_once(slots, free, rest, id);
        } else if free.len() > 0 {
            let written = slots.update(free.last(), incoming[0]);
            assert forall|i: int, j: int|
                0 <= i < written.len() && 0 <= j < written.len() && #[trigger] written[i] == id
                    && #[trigger] written[j] == id implies i == j by {
                assert(slots[i] == id && slots[j] == id);
            }
            lemma_fill_keeps_once(written, free.drop_last(), rest, id);
        }
    }
}

/// A merge that does not bring `id` leaves it in at most one slot: a second
/// copy never outlasts the next merge.
pub proof fn lemma_merge_frees_copies(slots: Seq<u16>, incoming: Seq<u16>, id: u16)
    requires
        id != 0,
        !incoming.contains(id),
    ensures
        at_most_once(merge(slots, incoming), id),
{
    let kept = dedup(slots);
    lemma_dedup_at_most_once(slots, id);
    lemma_free_list(kept);
    lemma_fill_keeps_once(kept, free_list(kept), incoming, id);
}

/// The position that a merge into `slots` writes to first.
pub open spec fn first_target(slots: Seq<u16>) -> int {
    free_list(dedup(slots)).last()
}

/// An identifier merged a second time stands in one slot, where the second
/// merge writes to the slot that holds it. (Where it writes elsewhere, the
/// identifier stands in two slots until the next merge frees one.)
pub proof fn lemma_merged_twice(slots: Seq<u16>, id: u16)
    requires
        slots.len() == 64,
        id != 0,
        dedup(merge(slots, seq![id]))[first_target(merge(slots, seq![id]))] == id,
    ensures
        at_most_once(merge(merge(slots, seq![id]), seq![id]), id),
{
    let once = merge(slots, seq![id]);
    lemma_merge_len(slots, seq![id]);
    let kept = dedup(once);
    let free = free_list(kept);
    lemma_free_list(kept);
    let batch = seq![id];
    assert(batch.skip(1).len() == 0);
    let written = kept.update(free.last(), id);
    assert(fill(written, free.drop_last(), batch.skip(1)) == written);
    assert(merge(once, batch) == written);
    assert(written =~= kept);
    lemma_dedup_at_most_once(once, id);
}

} // verus!
