use meshpit::bridge::{handle_local_datagram, handle_mesh_event, MeshEvent};
use meshpit::crypto::derive_public_key;
use meshpit::operation::{
    create_operation, decode_gossip_message, decode_header, encode_gossip_message, encode_header,
};
use meshpit::store::{IngestError, IngestResult, OperationStore};
use meshpit::topic::AuthorStore;
use meshpit::Topic;

fn key_a() -> Vec<u8> {
    vec![7u8; 32]
}

fn key_b() -> Vec<u8> {
    vec![11u8; 32]
}

fn topic() -> Topic {
    Topic::from_str("peers-for-peers")
}

fn log_id() -> Vec<u8> {
    topic().id_vec()
}

#[test]
fn topic_id_is_blake3_of_string() {
    let t = Topic::from_str("peers-for-peers");
    let expected = *p2panda_core::Hash::new("peers-for-peers".as_bytes()).as_bytes();
    assert_eq!(t.id(), expected);
    assert_eq!(t.id_vec(), expected.to_vec());
}

#[test]
fn topic_new_keeps_id() {
    let id = [5u8; 32];
    let t = Topic::new(id);
    assert_eq!(t.id(), id);
    assert!(t.same_as(&Topic::new(id)));
    assert!(!t.same_as(&Topic::new([6u8; 32])));
}

#[test]
fn public_key_matches_outside_derivation() {
    let pk = derive_public_key(&key_a());
    let expected = p2panda_core::PrivateKey::from_bytes(&[7u8; 32])
        .public_key()
        .as_bytes()
        .to_vec();
    assert_eq!(pk, expected);
}

#[test]
fn header_round_trip() {
    let store = OperationStore::new();
    let body = b"abc".to_vec();
    let (header, _) = create_operation(&store, &log_id(), &key_a(), Some(&body), false, 42);
    let bytes = encode_header(&header);
    let decoded = decode_header(&bytes).expect("canonical encoding decodes");
    assert_eq!(encode_header(&decoded), bytes);
    assert_eq!(decoded.seq_num, 0);
    assert_eq!(decoded.timestamp, 42);
    assert_eq!(decoded.payload_size, 3);
    assert!(decoded.backlink.is_none());
}

#[test]
fn header_decode_rejects_malformed() {
    assert!(decode_header(&vec![]).is_err());
    assert!(decode_header(&vec![0u8; 100]).is_err());
    let store = OperationStore::new();
    let (header, _) = create_operation(&store, &log_id(), &key_a(), None, false, 1);
    let mut bytes = encode_header(&header);
    bytes.push(0);
    assert!(decode_header(&bytes).is_err());
}

#[test]
fn gossip_round_trip_with_body() {
    let store = OperationStore::new();
    let body = b"payload".to_vec();
    let (header, _) = create_operation(&store, &log_id(), &key_a(), Some(&body), false, 9);
    let envelope = encode_gossip_message(&header, Some(&body));
    let (header_bytes, decoded_body) = decode_gossip_message(&envelope).expect("round trip");
    assert_eq!(header_bytes, encode_header(&header));
    assert_eq!(decoded_body, Some(body));
}

#[test]
fn gossip_round_trip_without_body() {
    let store = OperationStore::new();
    let (header, _) = create_operation(&store, &log_id(), &key_a(), None, false, 9);
    let envelope = encode_gossip_message(&header, None);
    let (header_bytes, decoded_body) = decode_gossip_message(&envelope).expect("round trip");
    assert_eq!(header_bytes, encode_header(&header));
    assert_eq!(decoded_body, None);
}

#[test]
fn gossip_decode_rejects_malformed() {
    assert!(decode_gossip_message(&vec![1u8, 2, 3]).is_err());
    assert!(decode_gossip_message(&vec![9u8; 64]).is_err());
}

fn ingest_new(
    store: &mut OperationStore,
    key: &Vec<u8>,
    body: Option<&Vec<u8>>,
    timestamp: u64,
) -> IngestResult {
    let lid = log_id();
    let (header, stored_body) = create_operation(store, &lid, key, body, false, timestamp);
    let header_bytes = encode_header(&header);
    store.ingest(header, stored_body, header_bytes, &lid, false)
}

#[test]
fn sequence_numbers_are_contiguous() {
    let mut store = OperationStore::new();
    let pk = derive_public_key(&key_a());
    let lid = log_id();
    for expected in 0..3u64 {
        let body = vec![expected as u8];
        let r = ingest_new(&mut store, &key_a(), Some(&body), 100 + expected);
        assert_eq!(r, IngestResult::Complete(expected));
    }
    assert_eq!(store.log_len(&pk, &lid), 3);
    let latest = store.latest_operation(&pk, &lid).expect("log exists");
    assert_eq!(latest.header.seq_num, 2);
}

#[test]
fn sequence_gap_is_rejected() {
    let mut seeded = OperationStore::new();
    assert!(matches!(
        ingest_new(&mut seeded, &key_a(), None, 1),
        IngestResult::Complete(0)
    ));
    let lid = log_id();
    // An operation built on a one-entry log claims sequence number 1.
    let (header, body) = create_operation(&seeded, &lid, &key_a(), None, false, 2);
    let header_bytes = encode_header(&header);
    let mut fresh = OperationStore::new();
    let r = fresh.ingest(header, body, header_bytes, &lid, false);
    assert_eq!(r, IngestResult::Error(IngestError::SeqNumGap));
    assert_eq!(fresh.log_len(&derive_public_key(&key_a()), &lid), 0);
}

#[test]
fn duplicate_sequence_number_reports_duplicate() {
    let mut store = OperationStore::new();
    let lid = log_id();
    let (header, body) = create_operation(&store, &lid, &key_a(), None, false, 5);
    let header_bytes = encode_header(&header);
    let replay_header = decode_header(&header_bytes).unwrap();
    let r1 = store.ingest(header, body, header_bytes.clone(), &lid, false);
    assert_eq!(r1, IngestResult::Complete(0));
    let pk = derive_public_key(&key_a());
    assert_eq!(store.log_len(&pk, &lid), 1);
    let r2 = store.ingest(replay_header, None, header_bytes, &lid, false);
    assert_eq!(r2, IngestResult::Duplicate);
    assert_eq!(store.log_len(&pk, &lid), 1);
}

#[test]
fn missing_signature_is_rejected() {
    let store = OperationStore::new();
    let lid = log_id();
    let (mut header, body) = create_operation(&store, &lid, &key_a(), None, false, 5);
    header.signature = None;
    let header_bytes = encode_header(&header);
    let mut target = OperationStore::new();
    let r = target.ingest(header, body, header_bytes, &lid, false);
    assert_eq!(r, IngestResult::Error(IngestError::InvalidSignature));
}

#[test]
fn tampered_signature_is_rejected() {
    let store = OperationStore::new();
    let lid = log_id();
    let (mut header, body) = create_operation(&store, &lid, &key_a(), None, false, 5);
    let mut sig = header.signature.take().unwrap();
    sig[0] ^= 0xff;
    header.signature = Some(sig);
    let header_bytes = encode_header(&header);
    let mut target = OperationStore::new();
    let r = target.ingest(header, body, header_bytes, &lid, false);
    assert_eq!(r, IngestResult::Error(IngestError::InvalidSignature));
}

#[test]
fn payload_hash_mismatch_is_rejected() {
    let store = OperationStore::new();
    let lid = log_id();
    let body = b"x".to_vec();
    let (header, _) = create_operation(&store, &lid, &key_a(), Some(&body), false, 5);
    let header_bytes = encode_header(&header);
    let mut target = OperationStore::new();
    let r = target.ingest(header, Some(b"y".to_vec()), header_bytes, &lid, false);
    assert_eq!(r, IngestResult::Error(IngestError::PayloadMismatch));
}

#[test]
fn missing_body_for_declared_payload_is_rejected() {
    let store = OperationStore::new();
    let lid = log_id();
    let body = b"x".to_vec();
    let (header, _) = create_operation(&store, &lid, &key_a(), Some(&body), false, 5);
    let header_bytes = encode_header(&header);
    let mut target = OperationStore::new();
    let r = target.ingest(header, None, header_bytes, &lid, false);
    assert_eq!(r, IngestResult::Error(IngestError::PayloadMismatch));
}

#[test]
fn log_id_mismatch_is_rejected() {
    let store = OperationStore::new();
    let lid = log_id();
    let (header, body) = create_operation(&store, &lid, &key_a(), None, false, 5);
    let header_bytes = encode_header(&header);
    let other = Topic::from_str("another-topic").id_vec();
    let mut target = OperationStore::new();
    let r = target.ingest(header, body, header_bytes, &other, false);
    assert_eq!(r, IngestResult::Error(IngestError::LogIdMismatch));
}

#[test]
fn prune_flag_mismatch_is_rejected() {
    let store = OperationStore::new();
    let lid = log_id();
    let (header, body) = create_operation(&store, &lid, &key_a(), None, false, 5);
    let header_bytes = encode_header(&header);
    let mut target = OperationStore::new();
    let r = target.ingest(header, body, header_bytes, &lid, true);
    assert_eq!(r, IngestResult::Error(IngestError::PruneFlagMismatch));
}

#[test]
fn backlink_mismatch_is_rejected() {
    let lid = log_id();
    let mut store_x = OperationStore::new();
    assert!(matches!(
        ingest_new(&mut store_x, &key_a(), None, 1),
        IngestResult::Complete(0)
    ));
    let mut store_y = OperationStore::new();
    assert!(matches!(
        ingest_new(&mut store_y, &key_a(), None, 2),
        IngestResult::Complete(0)
    ));
    // Built against X's log, so its backlink hashes X's first header,
    // which differs from Y's.
    let (header, body) = create_operation(&store_x, &lid, &key_a(), None, false, 3);
    let header_bytes = encode_header(&header);
    let r = store_y.ingest(header, body, header_bytes, &lid, false);
    assert_eq!(r, IngestResult::Error(IngestError::BacklinkMismatch));
}

#[test]
fn author_index_insertion_is_idempotent() {
    let mut authors = AuthorStore::new();
    let t = topic();
    let pk = derive_public_key(&key_a());
    authors.add_author(t, pk.clone());
    authors.add_author(t, pk.clone());
    authors.add_author(t, pk.clone());
    let listed = authors.authors(&t).expect("topic recorded");
    assert_eq!(listed.len(), 1);
    assert_eq!(listed[0], pk);
}

#[test]
fn author_index_lists_one_log_per_author() {
    let mut authors = AuthorStore::new();
    let t = topic();
    let pk_a = derive_public_key(&key_a());
    let pk_b = derive_public_key(&key_b());
    authors.add_author(t, pk_a.clone());
    authors.add_author(t, pk_b.clone());
    let map = authors.get(&t).expect("topic recorded");
    assert_eq!(map.len(), 2);
    for (author, logs) in &map {
        assert!(*author == pk_a || *author == pk_b);
        assert_eq!(logs.len(), 1);
        assert_eq!(logs[0], t.id_vec());
    }
    let unknown = Topic::from_str("never-seen");
    assert!(authors.get(&unknown).is_none());
    assert!(authors.authors(&unknown).is_none());
}

#[test]
fn local_datagram_becomes_first_operation() {
    let mut store = OperationStore::new();
    let mut authors = AuthorStore::new();
    let t = topic();
    let key = key_a();
    let pk = derive_public_key(&key);
    let payload = b"hello".to_vec();
    let envelope = handle_local_datagram(&mut store, &mut authors, &t, &key, &payload, 123);
    assert_eq!(store.log_len(&pk, &t.id_vec()), 1);
    let op = store.latest_operation(&pk, &t.id_vec()).expect("appended");
    assert_eq!(op.header.seq_num, 0);
    assert!(op.header.backlink.is_none());
    let expected_hash = p2panda_core::Hash::new(b"hello").as_bytes().to_vec();
    assert_eq!(op.header.payload_hash, Some(expected_hash));
    assert_eq!(op.header.payload_size, 5);
    let (header_bytes, body) = decode_gossip_message(&envelope).expect("broadcast envelope");
    assert_eq!(header_bytes, encode_header(&op.header));
    assert_eq!(body, Some(payload));
    let listed = authors.authors(&t).expect("own author recorded");
    assert_eq!(listed, vec![pk]);
}

#[test]
fn two_local_datagrams_chain_backlinks() {
    let mut store = OperationStore::new();
    let mut authors = AuthorStore::new();
    let t = topic();
    let key = key_a();
    let pk = derive_public_key(&key);
    handle_local_datagram(&mut store, &mut authors, &t, &key, &b"first".to_vec(), 1);
    let first = store
        .latest_operation(&pk, &t.id_vec())
        .expect("first appended");
    let first_header_hash = p2panda_core::Hash::new(&first.header_bytes).as_bytes().to_vec();
    handle_local_datagram(&mut store, &mut authors, &t, &key, &b"second".to_vec(), 2);
    assert_eq!(store.log_len(&pk, &t.id_vec()), 2);
    let second = store
        .latest_operation(&pk, &t.id_vec())
        .expect("second appended");
    assert_eq!(second.header.seq_num, 1);
    assert_eq!(second.header.backlink, Some(first_header_hash));
}

#[test]
fn tampered_mesh_envelope_is_dropped() {
    let mut store = OperationStore::new();
    let mut authors = AuthorStore::new();
    let lid = log_id();
    let remote = OperationStore::new();
    let body = b"evil".to_vec();
    let (mut header, _) = create_operation(&remote, &lid, &key_b(), Some(&body), false, 7);
    let mut sig = header.signature.take().unwrap();
    sig[10] ^= 0x01;
    header.signature = Some(sig);
    let envelope = encode_gossip_message(&header, Some(&body));
    let fwd = handle_mesh_event(&mut store, &mut authors, MeshEvent::Gossip(envelope));
    assert_eq!(fwd, None);
    assert_eq!(store.log_len(&derive_public_key(&key_b()), &lid), 0);
    assert!(authors.authors(&topic()).is_none());
}

#[test]
fn valid_remote_operation_is_forwarded_and_indexed() {
    let mut store = OperationStore::new();
    let mut authors = AuthorStore::new();
    let lid = log_id();
    let remote = OperationStore::new();
    let body = b"ping".to_vec();
    let (header, stored_body) = create_operation(&remote, &lid, &key_b(), Some(&body), false, 7);
    let envelope = encode_gossip_message(&header, stored_body.as_ref());
    let fwd = handle_mesh_event(&mut store, &mut authors, MeshEvent::Gossip(envelope));
    assert_eq!(fwd, Some(b"ping".to_vec()));
    let pk_b = derive_public_key(&key_b());
    assert_eq!(store.log_len(&pk_b, &lid), 1);
    let listed = authors.authors(&topic()).expect("remote author recorded");
    assert_eq!(listed, vec![pk_b]);
}

#[test]
fn sync_delivered_operation_is_ingested() {
    let mut store = OperationStore::new();
    let mut authors = AuthorStore::new();
    let lid = log_id();
    let remote = OperationStore::new();
    let body = b"history".to_vec();
    let (header, stored_body) = create_operation(&remote, &lid, &key_b(), Some(&body), false, 7);
    let header_bytes = encode_header(&header);
    let fwd = handle_mesh_event(
        &mut store,
        &mut authors,
        MeshEvent::Sync(header_bytes, stored_body),
    );
    assert_eq!(fwd, Some(b"history".to_vec()));
    assert_eq!(store.log_len(&derive_public_key(&key_b()), &lid), 1);
}

#[test]
fn replayed_mesh_operation_is_not_forwarded_twice() {
    let mut store = OperationStore::new();
    let mut authors = AuthorStore::new();
    let lid = log_id();
    let remote = OperationStore::new();
    let body = b"once".to_vec();
    let (header, stored_body) = create_operation(&remote, &lid, &key_b(), Some(&body), false, 7);
    let envelope = encode_gossip_message(&header, stored_body.as_ref());
    let first = handle_mesh_event(
        &mut store,
        &mut authors,
        MeshEvent::Gossip(envelope.clone()),
    );
    assert_eq!(first, Some(b"once".to_vec()));
    let second = handle_mesh_event(&mut store, &mut authors, MeshEvent::Gossip(envelope));
    assert_eq!(second, None);
    assert_eq!(store.log_len(&derive_public_key(&key_b()), &lid), 1);
}

#[test]
fn undecodable_gossip_bytes_are_dropped() {
    let mut store = OperationStore::new();
    let mut authors = AuthorStore::new();
    let fwd = handle_mesh_event(
        &mut store,
        &mut authors,
        MeshEvent::Gossip(b"not an envelope".to_vec()),
    );
    assert_eq!(fwd, None);
}
