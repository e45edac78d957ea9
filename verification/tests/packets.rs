use mzt_transport::packets::{Auth, FileContent, Packet, Packets};

#[test]
fn auth() {
    let auth = Auth {
        name: "konkito".to_string(),
        path: "./data.txt".to_string(),
        secret: String::new(),
    };

    let mut b = auth.to_bytes();
    b.reverse();

    let other = Auth::from_bytes(&mut b).unwrap();

    assert_eq!(auth, other)
}

#[test]
fn auth_pak() {
    let pak = Packet {
        id: 21,
        packets: vec![1; 32],
        packet: Packets::Auth(Auth {
            name: "konkito".to_string(),
            path: "./data.txt".to_string(),
            secret: String::new(),
        }),
    };

    let mut b = pak.to_bytes();
    b.reverse();

    println!("Bytes: {:?}", b);

    let other = Packet::from_bytes(&mut b).unwrap();

    assert_eq!(pak, other)
}

#[test]
fn file_content() {
    let file_content = FileContent {
        session: 1,
        cursor: 0,
        bytes: vec![1; 53],
    };

    let mut bytes = file_content.to_bytes();
    bytes.reverse();

    let other = FileContent::from_bytes(&mut bytes).unwrap();

    assert_eq!(file_content, other)
}

#[test]
fn file_content_pak() {
    let pak = Packet {
        id: 21,
        packets: vec![0; 32],
        packet: Packets::FileContent(FileContent {
            session: 1,
            cursor: 0,
            bytes: vec![1; 53],
        }),
    };

    let mut bytes = pak.to_bytes();
    bytes.reverse();

    let other = Packet::from_bytes(&mut bytes).unwrap();

    assert_eq!(pak, other);
}

#[test]
fn packet() {
    let pak = Packet {
        id: 21,
        packets: vec![1; 32],
        packet: Packets::Auth(Auth {
            name: "konkito".to_string(),
            path: "./data.txt".to_string(),
            secret: String::new(),
        }),
    };

    let mut bytes = pak.to_bytes();
    bytes.reverse();

    let other = Packet::from_bytes(&mut bytes).unwrap();

    assert_eq!(pak, other)
}
