use mzt_transport::mesage::{Message, Progress};
use mzt_transport::packets::{FileContent, Packet, Packets};
use mzt_transport::share::share_url;
use mzt_transport::udp_manager::{Answer, ConnectingError, Handshake, Should, UdpManager};

const STEP_MS: u64 = 100;

/// A channel that drops datagrams by a fixed pseudo-random pattern.
struct Channel {
    state: u64,
    loss_percent: u64,
    dropped: usize,
    carried: usize,
}

impl Channel {
    fn lossless() -> Channel {
        Channel { state: 1, loss_percent: 0, dropped: 0, carried: 0 }
    }

    fn lossy(seed: u64, loss_percent: u64) -> Channel {
        Channel { state: seed, loss_percent, dropped: 0, carried: 0 }
    }

    fn carries(&mut self) -> bool {
        self.state = self.state.wrapping_mul(6364136223846793005).wrapping_add(1442695040888963407);
        let draw = (self.state >> 33) % 100;
        if draw < self.loss_percent {
            self.dropped += 1;
            false
        } else {
            self.carried += 1;
            true
        }
    }
}

struct Side {
    manager: UdpManager,
    data: Vec<u8>,
    inbox: Vec<(u128, Vec<u8>)>,
    writes: Vec<(u128, usize)>,
    completed: bool,
}

impl Side {
    fn offering(data: Vec<u8>, buffer_size: usize, path: &str, secret: &str) -> Side {
        let manager = UdpManager::with_token(
            buffer_size,
            path.to_string(),
            Should::Send,
            secret.to_string(),
            "offerer".to_string(),
            vec![0xab; 16],
        );
        Side { manager, data, inbox: vec![], writes: vec![], completed: false }
    }

    fn fetching(buffer_size: usize) -> Side {
        let manager = UdpManager::with_token(
            buffer_size,
            String::new(),
            Should::Recv,
            String::new(),
            "fetcher".to_string(),
            vec![0xcd; 16],
        );
        Side { manager, data: vec![], inbox: vec![], writes: vec![], completed: false }
    }

    fn write(&mut self, offset: u128, bytes: &[u8]) {
        let offset = offset as usize;
        if self.data.len() < offset + bytes.len() {
            self.data.resize(offset + bytes.len(), 0);
        }
        self.data[offset..offset + bytes.len()].copy_from_slice(bytes);
        self.writes.push((offset as u128, bytes.len()));
    }

    fn read(&self, offset: u128, len: usize) -> Vec<u8> {
        let from = (offset as usize).min(self.data.len());
        let to = (from + len).min(self.data.len());
        self.data[from..to].to_vec()
    }

    fn destroyed(&self, session: u128) -> usize {
        self.manager.messages.iter().filter(|m| **m == Message::Destroy(session)).count()
    }
}

/// Runs the handshake over a lossless channel and returns the session.
fn shake_hands(
    offerer: &mut Side,
    fetcher: &mut Side,
    url: &str,
    now: u64,
) -> Result<u128, ConnectingError> {
    let request = fetcher.manager.send_request(url).unwrap();
    assert_eq!(request.adress, offerer.manager.public);
    fetcher.manager.begin_connecting();
    offerer.manager.begin_connecting();
    let size = offerer.data.len() as u128;
    let answer =
        offerer.manager.request_received(&request.auth, "fetcher:1".to_string(), Some(size), now);
    let wires = match answer {
        Answer::Wait => panic!("the request was passed over"),
        Answer::Reject(wire, error) => {
            offerer.manager.finish_connecting(Err(error), now);
            vec![wire]
        }
        Answer::Accept(connection, wires) => {
            offerer.manager.finish_connecting(Ok(connection), now);
            wires
        }
    };
    match UdpManager::answer_received(&wires[0], "offerer:1".to_string(), now) {
        Handshake::Wait => panic!("the answer was passed over"),
        Handshake::Failed(error) => {
            fetcher.manager.finish_connecting(Err(error), now);
            Err(error)
        }
        Handshake::Done(connection) => {
            let session = connection.session;
            fetcher.manager.finish_connecting(Ok(connection), now);
            for wire in &wires[1..] {
                let received = fetcher.manager.receive(session, wire, now);
                assert!(received.reply.is_some());
            }
            Ok(session)
        }
    }
}

/// One round: each side takes its turn, and the channel carries what it
/// sends to the other side, which takes it in at its next turn.
fn round(offerer: &mut Side, fetcher: &mut Side, channel: &mut Channel, session: u128, now: u64) {
    let arrived = std::mem::take(&mut offerer.inbox);
    let done = offerer.manager.step(None, &arrived, now);
    for received in done.received {
        assert_eq!(received.reply, None);
        assert_eq!(received.write, None);
    }
    for pace in done.paces {
        for wire in pace.resend {
            if channel.carries() {
                fetcher.inbox.push((session, wire));
            }
        }
        if let Some(read) = pace.read {
            let piece = offerer.read(read.offset, read.len);
            if let Some(wire) = offerer.manager.chunk_read(pace.session, piece, now) {
                assert!(wire.len() <= offerer.manager.buffer_size);
                if channel.carries() {
                    fetcher.inbox.push((session, wire));
                }
            }
        }
    }

    let arrived = std::mem::take(&mut fetcher.inbox);
    let done = fetcher.manager.step(None, &arrived, now);
    for received in done.received {
        if let Some((offset, bytes)) = received.write {
            fetcher.write(offset, &bytes);
        }
        if received.completed {
            fetcher.completed = true;
        }
        if let Some(reply) = received.reply {
            if channel.carries() {
                offerer.inbox.push((session, reply));
            }
        }
    }
    for pace in done.paces {
        assert_eq!(pace.read, None);
        for wire in pace.resend {
            if channel.carries() {
                offerer.inbox.push((session, wire));
            }
        }
    }
}

fn sample(len: usize) -> Vec<u8> {
    (0..len).map(|i| (i * 7 + 3) as u8).collect()
}

#[test]
fn a_hundred_bytes_arrive_over_a_lossless_channel() {
    let data = sample(100);
    let mut offerer = Side::offering(data.clone(), 172, "data.bin", "pw");
    let mut fetcher = Side::fetching(172);
    let url = share_url(&offerer.manager.public, "pw", "data.bin");
    assert_eq!(offerer.manager.messages, vec![Message::SetShare(url.clone())]);
    let session = shake_hands(&mut offerer, &mut fetcher, &url, 0).unwrap();
    assert_eq!(fetcher.manager.connections[0].content_length, 100);
    assert_eq!(offerer.manager.connections[0].content_length, 100);

    let mut channel = Channel::lossless();
    let mut now = 0;
    let mut rounds = 0;
    while !(offerer.manager.connections.is_empty() && fetcher.manager.connections.is_empty()) {
        now += STEP_MS;
        rounds += 1;
        assert!(rounds < 100, "the transfer did not end");
        round(&mut offerer, &mut fetcher, &mut channel, session, now);
    }

    assert_eq!(fetcher.data, data);
    assert_eq!(fetcher.writes, vec![(0, 50), (50, 50)]);
    assert!(fetcher.completed);
    // the offering side announced the end, and both sides closed
    assert_eq!(offerer.destroyed(session), 2);
    assert_eq!(fetcher.destroyed(session), 1);
    assert_eq!(rounds, 4);
    assert_eq!(
        offerer.manager.messages,
        vec![
            Message::SetShare(url),
            Message::New("fetcher".to_string(), session, "fetcher:1".to_string()),
            Message::SetProgress(session, Progress { done: 50, total: 100 }),
            Message::SetProgress(session, Progress { done: 100, total: 100 }),
            Message::Destroy(session),
            Message::Destroy(session),
        ]
    );
    assert_eq!(
        fetcher.manager.messages,
        vec![
            Message::New("Server".to_string(), session, "offerer:1".to_string()),
            Message::Destroy(session),
        ]
    );
}

#[test]
fn a_wrong_secret_opens_no_connection() {
    let mut offerer = Side::offering(sample(100), 172, "data.bin", "pw");
    let mut fetcher = Side::fetching(172);
    let url = share_url(&offerer.manager.public, "guess", "data.bin");
    assert_eq!(
        shake_hands(&mut offerer, &mut fetcher, &url, 0),
        Err(ConnectingError::AuthFailed)
    );
    assert!(offerer.manager.connections.is_empty());
    assert!(fetcher.manager.connections.is_empty());
    assert!(!offerer.manager.connecting);
    assert!(!fetcher.manager.connecting);
    assert_eq!(
        fetcher.manager.messages.last(),
        Some(&Message::Error("Invalid secret or path!".to_string()))
    );
    assert_eq!(
        offerer.manager.messages.last(),
        Some(&Message::Error("Invalid request!".to_string()))
    );
}

#[test]
fn a_piece_that_arrives_twice_is_written_once() {
    let mut offerer = Side::offering(sample(100), 172, "data.bin", "pw");
    let mut fetcher = Side::fetching(172);
    let url = share_url(&offerer.manager.public, "pw", "data.bin");
    let session = shake_hands(&mut offerer, &mut fetcher, &url, 0).unwrap();

    let paces = offerer.manager.tick(100);
    let read = paces[0].read.unwrap();
    let piece = offerer.read(read.offset, read.len);
    let first = offerer.manager.chunk_read(session, piece, 100).unwrap();
    let read = offerer.manager.tick(200)[0].read.unwrap();
    let piece = offerer.read(read.offset, read.len);
    let second = offerer.manager.chunk_read(session, piece, 200).unwrap();

    // the second piece overtakes the first, which then arrives twice
    for wire in [&second, &first, &first, &second] {
        let received = fetcher.manager.receive(session, wire, 300);
        if let Some((offset, bytes)) = received.write {
            fetcher.write(offset, &bytes);
        }
    }
    assert_eq!(fetcher.writes, vec![(50, 50), (0, 50)]);
    assert_eq!(fetcher.data, sample(100));
    assert_eq!(
        Packet::decode(&first).unwrap().packet,
        Packets::FileContent(FileContent { session, cursor: 0, bytes: sample(100)[0..50].to_vec() })
    );
}

/// Runs a transfer of 1000 bytes over a channel that loses three in ten
/// datagrams, until the fetching side has seen the end. Returns the rounds
/// it took and whether all of the data had arrived by then.
fn lossy_transfer(seed: u64) -> (usize, bool) {
    let data = sample(1000);
    let mut offerer = Side::offering(data.clone(), 222, "data.bin", "pw");
    let mut fetcher = Side::fetching(222);
    let url = share_url(&offerer.manager.public, "pw", "data.bin");
    let session = shake_hands(&mut offerer, &mut fetcher, &url, 0).unwrap();

    let mut channel = Channel::lossy(seed, 30);
    let mut now = 0;
    let mut rounds = 0;
    // a datagram is sent again once a second: sixty seconds allow each
    // datagram sixty transmissions
    while !fetcher.completed {
        now += STEP_MS;
        rounds += 1;
        assert!(rounds <= 600, "the end was not seen within the retry ceiling");
        round(&mut offerer, &mut fetcher, &mut channel, session, now);
    }
    assert!(channel.dropped > 0);
    // every piece that was written stands where the offering side has it
    for (offset, len) in &fetcher.writes {
        let from = *offset as usize;
        assert_eq!(fetcher.data[from..from + len], data[from..from + len]);
        assert_eq!(*len, 100);
    }
    assert_eq!(offerer.destroyed(session), 1);
    (rounds, fetcher.data == data)
}

#[test]
fn the_end_is_seen_although_three_in_ten_datagrams_are_lost() {
    for seed in 1..=20u64 {
        let (rounds, _) = lossy_transfer(seed);
        assert!(rounds >= 11 && rounds <= 600);
    }
}

#[test]
fn lost_pieces_are_sent_again_and_arrive() {
    // with this pattern of losses the announcement of the end is lost too,
    // and is sent again a second later together with the pieces that were
    // lost; pieces that are still on their way when the end arrives are not
    // waited for
    assert_eq!(lossy_transfer(20), (21, true));
    assert_eq!(lossy_transfer(2), (11, false));
}
