use mzt_transport::connection::Connection;
use mzt_transport::ring::{copy_ids, dedup_slots, free_positions, holds, merge_into};

fn fresh() -> Connection {
    Connection::new("peer".to_string(), "127.0.0.1:9".to_string(), 1, 0)
}

fn count(slots: &[u16], id: u16) -> usize {
    slots.iter().filter(|slot| **slot == id).count()
}

#[test]
fn a_fresh_connection_has_empty_rings() {
    let c = fresh();
    assert_eq!(c.packets, vec![0u16; 32]);
    assert_eq!(c.recv_packets, vec![0u16; 64]);
    assert_eq!(c.pak_cour, 0);
    assert_eq!(c.coursor, 0);
    assert_eq!(c.content_length, 0);
    assert!(c.active);
    assert_eq!(c.last_action, 0);
    assert_eq!(c.storage.counter, 2121);
    assert!(c.storage.packets.is_empty());
    assert_eq!(c.name, "peer");
    assert_eq!(c.peer, "127.0.0.1:9");
    assert_eq!(c.session, 1);
}

#[test]
fn the_window_overwrites_its_oldest_entry() {
    let mut c = fresh();
    for id in 1..=32u16 {
        c.add_id(id);
    }
    assert_eq!(c.packets, (1..=32).collect::<Vec<u16>>());
    assert_eq!(c.pak_cour, 0);
    c.add_id(100);
    assert_eq!(c.packets[0], 100);
    assert_eq!(c.packets[1], 2);
    assert_eq!(c.pak_cour, 1);
    assert_eq!(c.packets.len(), 32);
}

#[test]
fn incoming_identifiers_go_to_the_last_free_slot_first() {
    let mut c = fresh();
    c.add_packets(&[7, 0, 9]);
    let mut expected = vec![0u16; 64];
    expected[63] = 7;
    expected[62] = 9;
    assert_eq!(c.recv_packets, expected);
}

#[test]
fn padding_positions_are_used_before_free_ones() {
    let mut c = fresh();
    c.add_packets(&[7, 9]);
    c.add_packets(&[11, 12, 13]);
    // 62 slots were free; the list was padded with positions 0 and 1
    let mut expected = vec![0u16; 64];
    expected[63] = 7;
    expected[62] = 9;
    expected[1] = 11;
    expected[0] = 12;
    expected[61] = 13;
    assert_eq!(c.recv_packets, expected);
}

#[test]
fn repeats_are_freed_and_the_first_stays() {
    let mut slots: Vec<u16> = vec![5, 6, 5, 0, 6, 7];
    dedup_slots(&mut slots);
    assert_eq!(slots, vec![5, 6, 0, 0, 0, 7]);
    assert_eq!(free_positions(&slots), vec![2, 3, 4, 0, 1, 2]);
}

#[test]
fn a_full_memory_lists_the_lowest_positions() {
    let slots: Vec<u16> = (1..=64).collect();
    assert_eq!(free_positions(&slots), (0..64).collect::<Vec<usize>>());
    let empty = vec![0u16; 64];
    assert_eq!(free_positions(&empty), (0..64).collect::<Vec<usize>>());
}

#[test]
fn merging_twice_into_a_full_memory_keeps_the_identifier_once() {
    let mut c = fresh();
    c.recv_packets = (1..=64).collect();
    c.add_packets(&[100]);
    c.add_packets(&[100]);
    assert_eq!(count(&c.recv_packets, 100), 1);
    assert_eq!(c.recv_packets[63], 100);
    assert_eq!(c.recv_packets.len(), 64);
}

#[test]
fn a_second_copy_is_freed_by_the_next_merge() {
    let mut c = fresh();
    c.add_packets(&[7]);
    c.add_packets(&[7]);
    // the second merge wrote to position 0, the first to position 63
    assert_eq!(c.recv_packets[0], 7);
    assert_eq!(c.recv_packets[63], 7);
    c.add_packets(&[]);
    assert_eq!(count(&c.recv_packets, 7), 1);
    assert_eq!(c.recv_packets[0], 7);
}

#[test]
fn the_memory_keeps_its_size_whatever_is_merged() {
    let mut c = fresh();
    for round in 0..50u16 {
        let batch: Vec<u16> = (0..40).map(|i| round * 40 + i).collect();
        c.add_packets(&batch);
        assert_eq!(c.recv_packets.len(), 64);
    }
    c.add_packets(&vec![9; 1000]);
    assert_eq!(c.recv_packets.len(), 64);
    c.add_packets(&[]);
    assert_eq!(c.recv_packets.len(), 64);
}

#[test]
fn more_identifiers_than_slots_fill_every_slot_and_stop() {
    let mut slots = vec![0u16; 64];
    let incoming: Vec<u16> = (1..=70).collect();
    merge_into(&mut slots, &incoming);
    let mut expected: Vec<u16> = (1..=64).collect();
    expected.reverse();
    assert_eq!(slots, expected);
}

#[test]
fn zero_is_never_merged() {
    let mut slots: Vec<u16> = (1..=64).collect();
    merge_into(&mut slots, &[0, 0, 0]);
    assert_eq!(slots, (1..=64).collect::<Vec<u16>>());
}

#[test]
fn holds_and_copy() {
    let ids = vec![4u16, 5, 6];
    assert!(holds(&ids, 5));
    assert!(!holds(&ids, 7));
    assert!(!holds(&vec![], 0));
    assert_eq!(copy_ids(&ids), ids);
}
