use fur::wire::{DecodeError, PeerKey, Request, Response, KEY_LENGTH, MAX_FRAME_SIZE};

fn key(seed: u8) -> PeerKey {
    let mut a = [0u8; 32];
    for (i, b) in a.iter_mut().enumerate() {
        *b = seed.wrapping_add(i as u8);
    }
    PeerKey::from_array(a)
}

#[test]
fn connect_round_trip() {
    let k = key(9);
    let req = Request::Connect { agent: String::from("test-agent"), key: k };
    let bytes = req.encode();
    assert_eq!(bytes.len(), 4 + 8 + 10 + 8 + 32);
    match Request::decode(&bytes, MAX_FRAME_SIZE) {
        Ok((Request::Connect { agent, key }, n)) => {
            assert_eq!(agent, "test-agent");
            assert_eq!(key.to_vec(), self::key(9).to_vec());
            assert_eq!(n, bytes.len());
        }
        _ => panic!("connect frame did not decode"),
    }
}

#[test]
fn connect_round_trip_non_ascii_agent() {
    let req = Request::Connect { agent: String::from("agënt-✓"), key: key(1) };
    let bytes = req.encode();
    match Request::decode(&bytes, MAX_FRAME_SIZE) {
        Ok((Request::Connect { agent, .. }, n)) => {
            assert_eq!(agent, "agënt-✓");
            assert_eq!(n, bytes.len());
        }
        _ => panic!("connect frame did not decode"),
    }
}

#[test]
fn login_round_trip() {
    let bytes = Request::Login {}.encode();
    assert_eq!(bytes, vec![1, 0, 0, 0]);
    assert!(matches!(Request::decode(&bytes, MAX_FRAME_SIZE), Ok((Request::Login, 4))));
}

#[test]
fn response_round_trip() {
    let bytes = Response::Connected { server: String::from("fur-server") }.encode();
    match Response::decode(&bytes, MAX_FRAME_SIZE) {
        Ok((Response::Connected { server }, n)) => {
            assert_eq!(server, "fur-server");
            assert_eq!(n, bytes.len());
        }
        _ => panic!("response frame did not decode"),
    }
    let bytes = Response::LoginSuccessful {}.encode();
    assert_eq!(bytes, vec![1, 0, 0, 0]);
    assert!(matches!(Response::decode(&bytes, MAX_FRAME_SIZE), Ok((Response::LoginSuccessful, 4))));
}

#[test]
fn layout_matches_bincode() {
    let req = Request::Connect { agent: String::from("test-agent"), key: key(3) };
    let expected = bincode::serialize(&(0u32, String::from("test-agent"), key(3).to_vec())).unwrap();
    assert_eq!(req.encode(), expected);
    let resp = Response::Connected { server: String::from("srv") };
    let expected = bincode::serialize(&(0u32, String::from("srv"))).unwrap();
    assert_eq!(resp.encode(), expected);
}

#[test]
fn trailing_bytes_are_not_consumed() {
    let mut bytes = Request::Login {}.encode();
    bytes.extend_from_slice(&[9, 9, 9]);
    assert!(matches!(Request::decode(&bytes, MAX_FRAME_SIZE), Ok((Request::Login, 4))));
}

#[test]
fn oversize_frame_is_refused() {
    let agent: String = std::iter::repeat('a').take(5000).collect();
    let bytes = Request::Connect { agent, key: key(0) }.encode();
    assert_eq!(Request::decode(&bytes, MAX_FRAME_SIZE).err(), Some(DecodeError::FrameTooLarge));
}

#[test]
fn huge_claimed_length_is_refused_without_the_bytes() {
    let mut bytes = vec![0u8, 0, 0, 0];
    bytes.extend_from_slice(&u64::MAX.to_le_bytes());
    assert_eq!(Request::decode(&bytes, MAX_FRAME_SIZE).err(), Some(DecodeError::FrameTooLarge));
}

#[test]
fn truncated_frame_is_incomplete() {
    let bytes = Request::Connect { agent: String::from("x"), key: key(0) }.encode();
    for cut in 0..bytes.len() {
        assert_eq!(Request::decode(&bytes[..cut], MAX_FRAME_SIZE).err(), Some(DecodeError::Incomplete));
    }
}

#[test]
fn unknown_tag_is_malformed() {
    assert_eq!(Request::decode(&[2, 0, 0, 0], MAX_FRAME_SIZE).err(), Some(DecodeError::Malformed));
    assert_eq!(Response::decode(&[7, 0, 0, 0], MAX_FRAME_SIZE).err(), Some(DecodeError::Malformed));
}

#[test]
fn wrong_key_length_is_malformed() {
    let bytes = bincode::serialize(&(0u32, String::from("a"), vec![1u8; 31])).unwrap();
    assert_eq!(Request::decode(&bytes, MAX_FRAME_SIZE).err(), Some(DecodeError::Malformed));
}

#[test]
fn invalid_utf8_is_malformed() {
    let bytes = bincode::serialize(&(0u32, vec![0xffu8, 0xfe], vec![1u8; 32])).unwrap();
    assert_eq!(Request::decode(&bytes, MAX_FRAME_SIZE).err(), Some(DecodeError::Malformed));
}

#[test]
fn peer_key_from_slice() {
    assert!(PeerKey::from_slice(&[0u8; 31]).is_none());
    let k = PeerKey::from_slice(&[5u8; KEY_LENGTH]).unwrap();
    assert_eq!(k.to_vec(), vec![5u8; 32]);
}
