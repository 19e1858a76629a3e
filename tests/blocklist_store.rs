use fedbot::blocklist::{
    contains_hash, decode_blocklist, encode_blocklist, fresh_of, load_blocklist, merged_blob,
    StoreError,
};
use fedbot::hash::FixedHash;

fn h(n: u8) -> FixedHash {
    FixedHash { bytes: [n, n.wrapping_add(1), 0, 0, 0, 0, 0, n] }
}

#[test]
fn blob_is_concatenation_of_hashes() {
    let blob = encode_blocklist(&vec![h(1), h(2)]);
    assert_eq!(blob.len(), 16);
    assert_eq!(blob[..8].to_vec(), h(1).bytes.to_vec());
    assert_eq!(blob[8..].to_vec(), h(2).bytes.to_vec());
}

#[test]
fn decode_blocklist_reads_every_chunk() {
    let blob = encode_blocklist(&vec![h(1), h(2), h(3)]);
    assert_eq!(decode_blocklist(&blob).unwrap(), vec![h(1), h(2), h(3)]);
    assert_eq!(decode_blocklist(&[]).unwrap(), Vec::<FixedHash>::new());
}

#[test]
fn decode_blocklist_rejects_partial_chunk() {
    assert_eq!(decode_blocklist(&[0u8; 12]), Err(StoreError::Corrupt));
    assert_eq!(decode_blocklist(&[0u8; 7]), Err(StoreError::Corrupt));
}

#[test]
fn load_without_profile_row_is_not_found() {
    assert_eq!(load_blocklist(&None), Err(StoreError::NotFound));
}

#[test]
fn load_without_blob_is_empty() {
    assert_eq!(load_blocklist(&Some(None)).unwrap(), Vec::<FixedHash>::new());
}

#[test]
fn load_with_corrupt_blob_is_corrupt() {
    assert_eq!(load_blocklist(&Some(Some(vec![1, 2, 3]))), Err(StoreError::Corrupt));
}

#[test]
fn merge_puts_new_hashes_first() {
    let stored = vec![h(1), h(2)];
    let blob = merged_blob(&stored, &vec![h(3)]);
    assert_eq!(decode_blocklist(&blob).unwrap(), vec![h(3), h(1), h(2)]);
}

#[test]
fn merge_then_load_is_the_union() {
    for n in 0u8..5 {
        let stored = vec![h(100), h(101)];
        let added: Vec<FixedHash> = (0..n).map(h).collect();
        let blob = merged_blob(&stored, &added);
        let loaded = load_blocklist(&Some(Some(blob))).unwrap();
        for x in stored.iter().chain(added.iter()) {
            assert!(contains_hash(&loaded, x));
        }
        assert_eq!(loaded.len(), stored.len() + added.len());
        assert!(!contains_hash(&loaded, &h(50)));
    }
}

#[test]
fn merging_a_stored_hash_changes_nothing() {
    let stored = vec![h(1), h(2)];
    let before = encode_blocklist(&stored);
    let after = merged_blob(&stored, &vec![h(2), h(1), h(2)]);
    assert_eq!(after, before);
    assert!(fresh_of(&stored, &vec![h(2)]).is_empty());
}

#[test]
fn merge_adds_a_repeated_new_hash_once() {
    let stored = vec![h(1)];
    let fresh = fresh_of(&stored, &vec![h(5), h(1), h(5), h(6)]);
    assert_eq!(fresh, vec![h(5), h(6)]);
    let blob = merged_blob(&stored, &vec![h(5), h(5)]);
    assert_eq!(decode_blocklist(&blob).unwrap(), vec![h(5), h(1)]);
}
