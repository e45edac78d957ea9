use mzt_transport::connection::Connection;
use mzt_transport::packets::{FileContent, Packet, Packets};

fn fresh() -> Connection {
    Connection::new("peer".to_string(), "10.0.0.1:4000".to_string(), 9, 0)
}

#[test]
fn send_numbers_packets_and_attaches_the_window() {
    let mut c = fresh();
    c.add_id(77);
    let wire = c.send(Packets::Tick(9), 500);
    let mut window = vec![0u16; 32];
    window[0] = 77;
    let expected = Packet { id: 2121, packets: window, packet: Packets::Tick(9) };
    assert_eq!(wire, expected.encode());
    assert_eq!(c.storage.packets, vec![(expected, 500)]);
    assert_eq!(c.storage.counter, 2122);
    let second = c.send(Packets::Finished(9), 600);
    assert_eq!(Packet::decode(&second).unwrap().id, 2122);
    assert_eq!(c.storage.packets.len(), 2);
    assert_eq!(c.storage.packets[1].1, 600);
}

#[test]
fn identifiers_wrap_and_skip_zero() {
    let mut c = fresh();
    c.storage.counter = 0xffff;
    let a = c.send(Packets::Tick(9), 0);
    assert_eq!(Packet::decode(&a).unwrap().id, 0xffff);
    assert_eq!(c.storage.counter, 0);
    let b = c.send(Packets::Tick(9), 0);
    assert_eq!(Packet::decode(&b).unwrap().id, 1);
    assert_eq!(c.storage.counter, 2);
}

#[test]
fn a_packet_is_sent_again_after_a_second_and_not_before() {
    let mut c = fresh();
    let wire = c.send(Packets::Tick(9), 1000);
    assert_eq!(c.resolv(1000), (0, vec![]));
    assert_eq!(c.resolv(1999), (0, vec![]));
    assert_eq!(c.storage.packets[0].1, 1000);
    assert_eq!(c.resolv(2000), (1, vec![wire.clone()]));
    assert_eq!(c.storage.packets[0].1, 2000);
    // the wait starts anew with each transmission
    assert_eq!(c.resolv(2500), (0, vec![]));
    assert_eq!(c.resolv(3000), (1, vec![wire.clone()]));
    assert_eq!(c.resolv(9000), (1, vec![wire]));
    assert_eq!(c.storage.packets.len(), 1);
}

#[test]
fn an_acknowledged_packet_is_forgotten_for_good() {
    let mut c = fresh();
    let first = c.send(Packets::Tick(9), 0);
    let second = c.send(Packets::Finished(9), 0);
    c.add_packets(&[2121]);
    assert_eq!(c.resolv(5000), (1, vec![second.clone()]));
    assert_eq!(c.storage.packets.len(), 1);
    assert_eq!(c.storage.packets[0].0.id, 2122);
    assert_eq!(c.resolv(7000), (1, vec![second]));
    c.add_packets(&[2122]);
    assert_eq!(c.resolv(9000), (0, vec![]));
    assert!(c.storage.packets.is_empty());
    assert_eq!(c.resolv(20000), (0, vec![]));
    assert_ne!(first, Vec::<u8>::new());
}

#[test]
fn a_packet_from_the_future_waits() {
    let mut c = fresh();
    c.send(Packets::Tick(9), 5000);
    assert_eq!(c.resolv(100), (0, vec![]));
    assert_eq!(c.storage.packets[0].1, 5000);
}

#[test]
fn stock_is_taken_in_order_and_keeps_the_order() {
    let mut c = fresh();
    let a = c.send(Packets::Tick(9), 0);
    let _b = c.send(Packets::Tick(9), 900);
    let d = c.send(
        Packets::FileContent(FileContent { session: 9, cursor: 0, bytes: vec![1, 2, 3] }),
        0,
    );
    let _e = c.send(Packets::Tick(9), 0);
    c.add_packets(&[2124]);
    let (due, datagrams) = c.resolv(1000);
    assert_eq!(due, 2);
    assert_eq!(datagrams, vec![a, d]);
    let ids: Vec<u16> = c.storage.packets.iter().map(|e| e.0.id).collect();
    assert_eq!(ids, vec![2121, 2122, 2123]);
    let times: Vec<u64> = c.storage.packets.iter().map(|e| e.1).collect();
    assert_eq!(times, vec![1000, 900, 1000]);
}

#[test]
fn stock_taking_touches_nothing_else() {
    let mut c = fresh();
    c.add_id(5);
    c.add_packets(&[6]);
    c.coursor = 12;
    c.content_length = 34;
    c.send(Packets::Tick(9), 0);
    let before = c.clone();
    c.resolv(500);
    assert_eq!(c, before);
}
