use mzt_transport::packets::{
    Auth, AuthResponse, DecodeError, FileContent, Headers, Packet, Packets,
};
use mzt_transport::wire::{peek_len, take_blob, take_ids, take_string};

fn tick(id: u16, window: Vec<u16>, session: u128) -> Packet {
    Packet { id, packets: window, packet: Packets::Tick(session) }
}

#[test]
fn tick_has_the_documented_bytes() {
    let pak = tick(0x0102, vec![3], 5);
    let mut expected: Vec<u8> = vec![0x02, 0x01];
    expected.extend_from_slice(&[1, 0, 0, 0, 0, 0, 0, 0]);
    expected.extend_from_slice(&[3, 0]);
    expected.extend_from_slice(&[5, 0, 0, 0, 0, 0, 0, 0]);
    expected.extend_from_slice(&[5, 0, 0, 0, 0, 0, 0, 0, 0, 0, 0, 0, 0, 0, 0, 0]);
    assert_eq!(pak.to_bytes(), expected);
    expected.reverse();
    assert_eq!(pak.encode(), expected);
}

#[test]
fn auth_response_has_the_documented_bytes() {
    let yes = AuthResponse { accepted: true, session: 0x0a0b };
    let mut expected: Vec<u8> = vec![1, 0x0b, 0x0a];
    expected.extend_from_slice(&[0; 14]);
    assert_eq!(yes.to_bytes(), expected);
    let no = AuthResponse { accepted: false, session: 0 };
    assert_eq!(no.to_bytes(), vec![0u8; 17]);
}

#[test]
fn auth_has_the_documented_bytes() {
    let auth = Auth { name: "ab".to_string(), path: "/".to_string(), secret: String::new() };
    let expected: Vec<u8> = vec![
        2, 0, 0, 0, 0, 0, 0, 0, b'a', b'b', 1, 0, 0, 0, 0, 0, 0, 0, b'/', 0, 0, 0, 0, 0, 0, 0, 0,
    ];
    assert_eq!(auth.to_bytes(), expected);
}

#[test]
fn file_content_has_the_documented_bytes() {
    let piece = FileContent { session: 1, cursor: 2, bytes: vec![9, 8] };
    let mut expected: Vec<u8> = vec![1];
    expected.extend_from_slice(&[0; 15]);
    expected.push(2);
    expected.extend_from_slice(&[0; 15]);
    expected.extend_from_slice(&[2, 0, 0, 0, 0, 0, 0, 0, 9, 8]);
    assert_eq!(piece.to_bytes(), expected);
}

#[test]
fn headers_have_the_documented_bytes() {
    let headers = Headers {
        session: 1,
        content_length: 0x0100,
        others: vec![("k".to_string(), "v".to_string())],
    };
    let mut expected: Vec<u8> = vec![1];
    expected.extend_from_slice(&[0; 15]);
    expected.extend_from_slice(&[0, 1]);
    expected.extend_from_slice(&[0; 14]);
    expected.extend_from_slice(&[1, 0, 0, 0, 0, 0, 0, 0]);
    expected.extend_from_slice(&[1, 0, 0, 0, 0, 0, 0, 0, b'k']);
    expected.extend_from_slice(&[1, 0, 0, 0, 0, 0, 0, 0, b'v']);
    assert_eq!(headers.to_bytes(), expected);
}

#[test]
fn variants_are_numbered_in_declaration_order() {
    let bodies = vec![
        Packets::Auth(Auth { name: String::new(), path: String::new(), secret: String::new() }),
        Packets::AuthResponse(AuthResponse { accepted: false, session: 0 }),
        Packets::Headers(Headers { session: 0, content_length: 0, others: vec![] }),
        Packets::FileContent(FileContent { session: 0, cursor: 0, bytes: vec![] }),
        Packets::Finished(0),
        Packets::Tick(0),
    ];
    for (index, body) in bodies.iter().enumerate() {
        let bytes = body.to_bytes();
        assert_eq!(bytes[0..8].to_vec(), vec![index as u8, 0, 0, 0, 0, 0, 0, 0]);
    }
}

#[test]
fn every_variant_comes_back_from_its_datagram() {
    let bodies = vec![
        Packets::Auth(Auth {
            name: "konkito".to_string(),
            path: "./dir/data.txt".to_string(),
            secret: "s3cret".to_string(),
        }),
        Packets::AuthResponse(AuthResponse { accepted: true, session: u128::MAX }),
        Packets::Headers(Headers {
            session: 77,
            content_length: 1 << 100,
            others: vec![
                ("Content-Length".to_string(), "21".to_string()),
                ("QQQL".to_string(), "Maniac".to_string()),
            ],
        }),
        Packets::FileContent(FileContent { session: 3, cursor: 4096, bytes: vec![0, 255, 7] }),
        Packets::Finished(9),
        Packets::Tick(10),
    ];
    for (n, body) in bodies.into_iter().enumerate() {
        let pak = Packet { id: 40000 + n as u16, packets: vec![n as u16; 32], packet: body };
        let wire = pak.encode();
        assert_eq!(Packet::decode(&wire), Ok(pak));
    }
}

#[test]
fn empty_window_and_long_window_come_back() {
    let short = tick(1, vec![], 2);
    assert_eq!(Packet::decode(&short.encode()), Ok(short));
    let long = tick(1, (0..500).collect(), 2);
    assert_eq!(Packet::decode(&long.encode()), Ok(long));
}

#[test]
fn decode_reads_from_the_end_and_ignores_what_lies_before() {
    let pak = tick(8, vec![1, 2], 3);
    let mut wire = vec![0xaa, 0xbb];
    wire.extend(pak.encode());
    assert_eq!(Packet::decode(&wire), Ok(pak));
}

#[test]
fn from_bytes_leaves_what_lies_behind_the_packet() {
    let pak = tick(8, vec![1, 2], 3);
    let mut buffer = pak.to_bytes();
    buffer.extend_from_slice(&[0xaa, 0xbb]);
    buffer.reverse();
    assert_eq!(Packet::from_bytes(&mut buffer), Some(pak));
    assert_eq!(buffer, vec![0xbb, 0xaa]);
}

#[test]
fn truncated_datagrams_are_invalid() {
    let pak = Packet {
        id: 21,
        packets: vec![1; 32],
        packet: Packets::FileContent(FileContent { session: 1, cursor: 0, bytes: vec![1; 53] }),
    };
    let wire = pak.encode();
    for cut in 1..wire.len() {
        assert_eq!(Packet::decode(&wire[cut..]), Err(DecodeError::InvalidPacket));
    }
    assert_eq!(Packet::decode(&[]), Err(DecodeError::InvalidPacket));
}

#[test]
fn unknown_variant_is_invalid_and_leaves_the_rest() {
    let mut bytes = tick(1, vec![], 0).to_bytes();
    bytes[10] = 6;
    let mut buffer = bytes.clone();
    buffer.reverse();
    assert_eq!(Packet::from_bytes(&mut buffer), None);
    assert_eq!(buffer.len(), 16);
    bytes.reverse();
    assert_eq!(Packet::decode(&bytes), Err(DecodeError::InvalidPacket));
}

#[test]
fn announced_lengths_beyond_the_datagram_are_invalid() {
    // identifier, then a window that claims 2^63 entries
    let mut bytes: Vec<u8> = vec![1, 0];
    bytes.extend_from_slice(&[0, 0, 0, 0, 0, 0, 0, 0x80]);
    bytes.extend_from_slice(&[0; 40]);
    bytes.reverse();
    assert_eq!(Packet::decode(&bytes), Err(DecodeError::InvalidPacket));

    // an Auth whose name claims the largest length there is
    let mut bytes: Vec<u8> = vec![1, 0];
    bytes.extend_from_slice(&[0; 8]);
    bytes.extend_from_slice(&[0; 8]);
    bytes.extend_from_slice(&[0xff; 8]);
    bytes.extend_from_slice(b"name");
    bytes.reverse();
    assert_eq!(Packet::decode(&bytes), Err(DecodeError::InvalidPacket));

    // a piece of data that claims one byte more than follows
    let mut bytes = Packet {
        id: 1,
        packets: vec![],
        packet: Packets::FileContent(FileContent { session: 0, cursor: 0, bytes: vec![5; 4] }),
    }
    .to_bytes();
    let at = bytes.len() - 4 - 8;
    bytes[at] = 5;
    bytes.reverse();
    assert_eq!(Packet::decode(&bytes), Err(DecodeError::InvalidPacket));

    // headers that claim more entries than follow
    let mut bytes = Packet {
        id: 1,
        packets: vec![],
        packet: Packets::Headers(Headers {
            session: 0,
            content_length: 0,
            others: vec![("a".to_string(), "b".to_string())],
        }),
    }
    .to_bytes();
    let at = 2 + 8 + 8 + 16 + 16;
    assert_eq!(bytes[at], 1);
    bytes[at + 7] = 0x7f;
    bytes.reverse();
    assert_eq!(Packet::decode(&bytes), Err(DecodeError::InvalidPacket));
}

#[test]
fn a_failed_read_uses_the_buffer_up() {
    let mut buffer = vec![1u8, 2, 3];
    assert_eq!(take_string(&mut buffer), None);
    assert!(buffer.is_empty());

    let mut buffer = vec![b'x', 9, 0, 0, 0, 0, 0, 0, 0];
    buffer.reverse();
    assert_eq!(take_blob(&mut buffer), None);
    assert!(buffer.is_empty());

    let mut buffer = vec![1u8, 2, 3, 2, 0, 0, 0, 0, 0, 0, 0];
    buffer.reverse();
    assert_eq!(take_ids(&mut buffer), None);
    assert!(buffer.is_empty());
}

#[test]
fn readers_take_what_was_announced_and_no_more() {
    let mut buffer = vec![2u8, 0, 0, 0, 0, 0, 0, 0, b'h', b'i', 0x77];
    buffer.reverse();
    assert_eq!(peek_len(&buffer), Some(2));
    assert_eq!(take_string(&mut buffer), Some("hi".to_string()));
    assert_eq!(buffer, vec![0x77]);

    let mut buffer = vec![2u8, 0, 0, 0, 0, 0, 0, 0, 0x34, 0x12, 0xcd, 0xab, 0x77];
    buffer.reverse();
    assert_eq!(take_ids(&mut buffer), Some(vec![0x1234, 0xabcd]));
    assert_eq!(buffer, vec![0x77]);

    let mut buffer = vec![3u8, 0, 0, 0, 0, 0, 0, 0, 1, 2, 3, 0x77];
    buffer.reverse();
    assert_eq!(take_blob(&mut buffer), Some(vec![1, 2, 3]));
    assert_eq!(buffer, vec![0x77]);

    assert_eq!(peek_len(&vec![1, 2, 3]), None);
}

#[test]
fn text_is_read_back_byte_by_byte() {
    let auth = Auth { name: "é".to_string(), path: String::new(), secret: String::new() };
    let mut bytes = auth.to_bytes();
    assert_eq!(bytes[0..10].to_vec(), vec![2, 0, 0, 0, 0, 0, 0, 0, 0xc3, 0xa9]);
    bytes.reverse();
    let back = Auth::from_bytes(&mut bytes).unwrap();
    assert_eq!(back.name, "\u{c3}\u{a9}");
}

#[test]
fn a_repeated_key_keeps_its_place_and_takes_the_last_value() {
    let written = Headers {
        session: 1,
        content_length: 2,
        others: vec![
            ("a".to_string(), "1".to_string()),
            ("b".to_string(), "2".to_string()),
            ("a".to_string(), "3".to_string()),
        ],
    };
    let mut bytes = written.to_bytes();
    bytes.reverse();
    let read = Headers::from_bytes(&mut bytes).unwrap();
    assert_eq!(
        read.others,
        vec![("a".to_string(), "3".to_string()), ("b".to_string(), "2".to_string())]
    );
}

#[test]
fn any_nonzero_byte_reads_as_true() {
    let mut bytes = vec![7u8];
    bytes.extend_from_slice(&[0; 16]);
    bytes.reverse();
    assert_eq!(
        AuthResponse::from_bytes(&mut bytes),
        Some(AuthResponse { accepted: true, session: 0 })
    );
}
