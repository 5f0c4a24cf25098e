use lait::ids::WorkspaceId;
use lait::marker::{MarkerError, StoreMarkerV1, MAX_MARKER};

fn space() -> WorkspaceId {
    WorkspaceId::parse("ws_01JTHMH8QTABCDEFGHJKMNPQRS").expect("well formed")
}

type Wire = (Vec<u8>, u8, [u8; 29], [u8; 32]);

fn wire(m: &StoreMarkerV1) -> Wire {
    (m.magic.clone(), m.version, m.space, m.checksum)
}

#[test]
fn a_new_marker_classifies_back_to_itself() {
    let m = StoreMarkerV1::new(&space()).expect("marker");
    assert_eq!(m.magic, b"lait/replica/1".to_vec());
    assert_eq!(m.version, 1);
    assert_eq!(&m.space[..], space().as_str().as_bytes());
    let bytes = m.encode();
    assert_eq!(StoreMarkerV1::classify(&bytes), Ok(m.clone()));
    assert_eq!(m.space().map(|s| s.as_str().to_string()), Some(space().as_str().to_string()));
}

#[test]
fn the_encoding_is_postcards() {
    let m = StoreMarkerV1::new(&space()).unwrap();
    assert_eq!(m.encode(), postcard::to_stdvec(&wire(&m)).unwrap());
    let mut long = m.clone();
    long.magic = vec![7u8; 300];
    assert_eq!(long.encode(), postcard::to_stdvec(&wire(&long)).unwrap());
}

#[test]
fn the_checksum_is_blake3_of_magic_version_and_space() {
    let m = StoreMarkerV1::new(&space()).unwrap();
    let mut h = blake3::Hasher::new();
    h.update(b"lait/replica/1");
    h.update(&[1u8]);
    h.update(&m.space);
    assert_eq!(&m.checksum, h.finalize().as_bytes());
}

#[test]
fn each_failure_gets_its_exact_cause() {
    let m = StoreMarkerV1::new(&space()).unwrap();
    let good = m.encode();
    assert_eq!(StoreMarkerV1::classify(&vec![0u8; MAX_MARKER + 1]), Err(MarkerError::CorruptStoreMarker));
    assert_eq!(StoreMarkerV1::classify(b"hello"), Err(MarkerError::NotAReplicaStore));
    assert_eq!(StoreMarkerV1::classify(&[]), Err(MarkerError::NotAReplicaStore));
    let mut foreign = m.clone();
    foreign.magic = b"lait/replica/X".to_vec();
    assert_eq!(StoreMarkerV1::classify(&foreign.encode()), Err(MarkerError::NotAReplicaStore));
    let mut newer = m.clone();
    newer.version = 2;
    assert_eq!(
        StoreMarkerV1::classify(&newer.encode()),
        Err(MarkerError::UnsupportedStoreVersion { found: 2 })
    );
    let mut corrupt = good.clone();
    let last = corrupt.len() - 1;
    corrupt[last] ^= 1;
    assert_eq!(StoreMarkerV1::classify(&corrupt), Err(MarkerError::CorruptStoreMarker));
    let short = &good[..good.len() - 1];
    assert_eq!(StoreMarkerV1::classify(short), Err(MarkerError::NotAReplicaStore));
}

#[test]
fn decoding_agrees_with_postcard_on_odd_inputs() {
    let m = StoreMarkerV1::new(&space()).unwrap();
    let good = m.encode();
    // Trailing bytes are ignored.
    let mut trailing = good.clone();
    trailing.extend_from_slice(&[1, 2, 3]);
    assert_eq!(StoreMarkerV1::classify(&trailing), Ok(m.clone()));
    // An overlong length varint still reads as 14.
    let mut overlong = vec![0x8E, 0x80, 0x00];
    overlong.extend_from_slice(&good[1..]);
    assert!(postcard::from_bytes::<Wire>(&overlong).is_ok());
    assert_eq!(StoreMarkerV1::classify(&overlong), Ok(m.clone()));
    // Eleven continuation bytes are a malformed varint.
    let mut bad = vec![0x80u8; 11];
    bad.extend_from_slice(&good[1..]);
    assert!(postcard::from_bytes::<Wire>(&bad).is_err());
    assert_eq!(StoreMarkerV1::classify(&bad), Err(MarkerError::NotAReplicaStore));
}

#[test]
fn a_marker_whose_space_is_not_an_id_has_no_space() {
    let mut m = StoreMarkerV1::new(&space()).unwrap();
    m.space[0] = b'x';
    assert!(m.space().is_none());
    assert_eq!(MarkerError::UnsupportedStoreVersion { found: 7 }.message(), "UnsupportedStoreVersion { found: 7 }");
    assert_eq!(MarkerError::ReplicaLocked.message(), format!("{:?}", MarkerError::ReplicaLocked));
}
