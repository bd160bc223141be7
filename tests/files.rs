use inventory_purge::compression::{choose_document, player_file_bytes, player_file_document};
use inventory_purge::region::{read_region, stored_chunk, write_region, RegionError};

#[test]
fn compressed_player_file_round_trips() {
    let doc = b"\x0a\x00\x06Player\x00".to_vec();
    let stored = player_file_bytes(&doc);
    assert_ne!(stored, doc);
    assert_eq!(&stored[..2], &[0x1f, 0x8b]);
    assert_eq!(player_file_document(stored), doc);
}

#[test]
fn uncompressed_player_file_is_taken_as_is() {
    let raw = b"\x0a\x00\x00\x00".to_vec();
    assert_eq!(player_file_document(raw.clone()), raw);
}

#[test]
fn document_choice() {
    assert_eq!(choose_document(vec![1, 2], Some(vec![3])), vec![3]);
    assert_eq!(choose_document(vec![1, 2], None), vec![1, 2]);
}

#[test]
fn region_round_trip_keeps_positions() {
    let bytes = write_region(vec![(0, 0, b"first".to_vec()), (3, 31, b"second".to_vec())], vec![])
        .expect("region written");
    let chunks = read_region(&bytes);
    assert_eq!(chunks.len(), 1024);
    assert_eq!(chunks[0], Ok(Some(b"first".to_vec())));
    assert_eq!(chunks[3 * 32 + 31], Ok(Some(b"second".to_vec())));
    assert!(chunks.iter().all(|c| c.is_ok()));
    assert_eq!(chunks.iter().filter(|c| matches!(c, Ok(Some(_)))).count(), 2);
}

#[test]
fn later_payload_replaces_earlier() {
    let bytes = write_region(vec![(5, 6, b"old".to_vec()), (5, 6, b"new".to_vec())], vec![]).expect("written");
    let chunks = read_region(&bytes);
    assert_eq!(chunks[5 * 32 + 6], Ok(Some(b"new".to_vec())));
}

#[test]
fn chunk_with_short_custom_compression_header_is_unreadable_alone() {
    let mut bytes = write_region(vec![(0, 0, b"kept".to_vec()), (0, 1, b"broken".to_vec())], vec![])
        .expect("written");
    // Header entry of (0, 1) is at byte 4 * 32; its data starts at the sector it names.
    let entry = 4 * 32;
    let sector = ((bytes[entry] as usize) << 16) | ((bytes[entry + 1] as usize) << 8) | bytes[entry + 2] as usize;
    let start = sector * 4096;
    bytes[start..start + 4].copy_from_slice(&2u32.to_be_bytes());
    bytes[start + 4] = 200;
    let chunks = read_region(&bytes);
    assert_eq!(chunks[1], Err(RegionError::Unreadable));
    assert_eq!(chunks[0], Ok(Some(b"kept".to_vec())));
}

#[test]
fn truncated_region_is_unreadable() {
    let chunks = read_region(&vec![0u8; 10]);
    assert_eq!(chunks.len(), 1024);
    assert!(chunks.iter().all(|c| *c == Err(RegionError::Unreadable)));
}

#[test]
fn undecodable_chunk_is_carried_over_as_stored() {
    let mut bytes = write_region(vec![(0, 0, b"kept".to_vec()), (0, 1, b"spoiled".to_vec())], vec![])
        .expect("written");
    let entry = 4 * 32;
    let sector = ((bytes[entry] as usize) << 16) | ((bytes[entry + 1] as usize) << 8) | bytes[entry + 2] as usize;
    let start = sector * 4096;
    // Keep the zlib compression byte, spoil the compressed stream.
    bytes[start + 5] ^= 0xff;
    bytes[start + 6] ^= 0xff;
    let chunks = read_region(&bytes);
    assert_eq!(chunks[1], Err(RegionError::Unreadable));
    let (compression, raw) = stored_chunk(&bytes, 0, 1).expect("stored bytes");
    assert_eq!(compression, 2);
    let rebuilt = write_region(vec![(0, 0, b"new".to_vec())], vec![(0, 1, compression, raw.clone())])
        .expect("rebuilt");
    assert_eq!(stored_chunk(&rebuilt, 0, 1), Some((2, raw)));
    let again = read_region(&rebuilt);
    assert_eq!(again[0], Ok(Some(b"new".to_vec())));
    assert_eq!(again[1], Err(RegionError::Unreadable));
    assert_eq!(again[2], Ok(None));
}

#[test]
fn payload_replaces_stored_chunk() {
    let rebuilt = write_region(vec![(2, 2, b"fresh".to_vec())], vec![(2, 2, 2, vec![1, 2, 3])])
        .expect("rebuilt");
    assert_eq!(read_region(&rebuilt)[2 * 32 + 2], Ok(Some(b"fresh".to_vec())));
}
