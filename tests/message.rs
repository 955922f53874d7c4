use trident::message::{int_of_bytes, Message, WireError};

fn round_trip(m: Message) -> Message {
    let bytes = m.as_bytes();
    Message::from_bytes(&bytes).unwrap()
}

#[test]
fn round_trip_every_variant() {
    assert!(matches!(round_trip(Message::KeepAlive), Message::KeepAlive));
    assert!(matches!(round_trip(Message::Choke), Message::Choke));
    assert!(matches!(round_trip(Message::Unchoke), Message::Unchoke));
    assert!(matches!(round_trip(Message::Interested), Message::Interested));
    assert!(matches!(round_trip(Message::NotInterested), Message::NotInterested));
    assert!(matches!(round_trip(Message::Have(1234)), Message::Have(1234)));
    match round_trip(Message::Bitfield(vec![0xff, 0x01, 0x80])) {
        Message::Bitfield(b) => assert_eq!(b, vec![0xff, 0x01, 0x80]),
        _ => panic!("wrong variant"),
    }
    assert!(matches!(
        round_trip(Message::Request(3, 16384, 16384)),
        Message::Request(3, 16384, 16384)
    ));
    assert!(matches!(
        round_trip(Message::Cancel(4_000_000_000, 0, 1000)),
        Message::Cancel(4_000_000_000, 0, 1000)
    ));
}

#[test]
fn round_trip_piece_blocks() {
    match round_trip(Message::Piece(2, 32768, vec![])) {
        Message::Piece(i, b, blk) => {
            assert_eq!((i, b), (2, 32768));
            assert!(blk.is_empty());
        }
        _ => panic!("wrong variant"),
    }
    let full: Vec<u8> = (0..16384u32).map(|x| (x % 251) as u8).collect();
    match round_trip(Message::Piece(7, 16384, full.clone())) {
        Message::Piece(i, b, blk) => {
            assert_eq!((i, b), (7, 16384));
            assert_eq!(blk, full);
        }
        _ => panic!("wrong variant"),
    }
}

#[test]
fn exact_encodings() {
    assert_eq!(Message::KeepAlive.as_bytes(), vec![0, 0, 0, 0]);
    assert_eq!(Message::Interested.as_bytes(), vec![0, 0, 0, 1, 2]);
    assert_eq!(Message::Have(258).as_bytes(), vec![0, 0, 0, 5, 4, 0, 0, 1, 2]);
    assert_eq!(Message::Bitfield(vec![9, 8]).as_bytes(), vec![0, 0, 0, 3, 5, 9, 8]);
    assert_eq!(
        Message::Request(1, 16384, 16384).as_bytes(),
        vec![0, 0, 0, 13, 6, 0, 0, 0, 1, 0, 0, 64, 0, 0, 0, 64, 0]
    );
    assert_eq!(
        Message::Cancel(1, 2, 3).as_bytes(),
        vec![0, 0, 0, 13, 8, 0, 0, 0, 1, 0, 0, 0, 2, 0, 0, 0, 3]
    );
    assert_eq!(
        Message::Piece(1, 2, vec![0xaa]).as_bytes(),
        vec![0, 0, 0, 10, 7, 0, 0, 0, 1, 0, 0, 0, 2, 0xaa]
    );
}

#[test]
fn decode_errors() {
    assert!(matches!(Message::from_bytes(&[0, 0, 0]), Err(WireError::Truncated)));
    assert!(matches!(Message::from_bytes(&[0, 0, 0, 5, 4, 0]), Err(WireError::Truncated)));
    assert!(matches!(
        Message::from_bytes(&[0, 0, 0, 3, 4, 0, 1]),
        Err(WireError::PayloadTooShort)
    ));
    assert!(matches!(
        Message::from_bytes(&[0, 0, 0, 5, 6, 0, 0, 0, 1]),
        Err(WireError::PayloadTooShort)
    ));
    assert!(matches!(
        Message::from_bytes(&[0, 0, 0, 3, 7, 0, 0]),
        Err(WireError::PayloadTooShort)
    ));
}

#[test]
fn unknown_id_is_keep_alive() {
    assert!(matches!(Message::from_bytes(&[0, 0, 0, 1, 20]), Ok(Message::KeepAlive)));
    assert!(matches!(Message::from_bytes(&[0, 0, 0, 0, 99]), Ok(Message::KeepAlive)));
}

#[test]
fn length_prefix_is_big_endian() {
    assert_eq!(int_of_bytes(&[0, 0, 0x40, 0x09]), 16393);
    assert_eq!(int_of_bytes(&[1, 2, 3, 4, 5]), 0x01020304);
}
