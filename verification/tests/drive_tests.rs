use polygone::drive::erasure::gf256::{divide, multiply};
use polygone::drive::erasure::{can_recover, decode, encode, min_shards_needed};
use polygone::drive::storage::LocalStorage;
use polygone::drive::index::{FileIndex, FileIndexEntry};
use polygone::drive::DriveManager;

#[test]
fn test_encode_decode() {
    let data = vec![
        vec![1, 2, 3, 4],
        vec![5, 6, 7, 8],
        vec![9, 10, 11, 12],
        vec![13, 14, 15, 16],
    ];

    let encoded = encode(&data, 4, 2).unwrap();
    assert_eq!(encoded.len(), 6);

    let decoded = decode(&encoded, 4).unwrap();
    assert_eq!(decoded, data);
}

#[test]
fn test_can_recover() {
    assert!(can_recover(6, 0, 2));
    assert!(can_recover(6, 1, 2));
    assert!(can_recover(6, 2, 2));
    assert!(!can_recover(6, 3, 2));
}

#[test]
fn test_encode_single_chunk() {
    let data = vec![vec![1, 2, 3, 4]];
    let encoded = encode(&data, 4, 2).unwrap();
    assert_eq!(encoded.len(), 6);
}

#[test]
fn encode_parity_bytes() {
    // Row 1 coefficient is 2 * 3 = 6, row 2 is 4 * 3 = 12; bytes wrap at 256.
    let data = vec![vec![1, 2], vec![3, 4]];
    let encoded = encode(&data, 2, 2).unwrap();
    assert_eq!(encoded[2], vec![(1 * 6) ^ (3 * 6), (2 * 6) ^ (4 * 6)]);
    assert_eq!(encoded[3], vec![(1 * 12) ^ (3 * 12), (2 * 12) ^ (4 * 12)]);
    let single = encode(&[vec![100u8]], 1, 1).unwrap();
    assert_eq!(single[1], vec![(100u32 * 6 % 256) as u8]);
}

#[test]
fn encode_pads_with_zero_chunks() {
    let encoded = encode(&[vec![9, 9, 9]], 3, 0).unwrap();
    assert_eq!(encoded, vec![vec![9, 9, 9], vec![0, 0, 0], vec![0, 0, 0]]);
}

#[test]
fn encode_and_decode_errors() {
    assert_eq!(encode(&[], 4, 2).unwrap_err(), "No data to encode");
    assert_eq!(decode(&[vec![1], vec![2]], 3).unwrap_err(), "Not enough shards to recover data");
}

#[test]
fn min_shards() {
    assert_eq!(min_shards_needed(6, 2), 4);
}

#[test]
fn gf256_values() {
    assert_eq!(multiply(0x53, 0xCA), 0x01);
    assert_eq!(multiply(0x57, 0x83), 0xC1);
    assert_eq!(multiply(7, 1), 7);
    assert_eq!(multiply(0, 200), 0);
    assert_eq!(divide(6, 3), 2);
    assert_eq!(divide(0x80, 1), 0);
}

#[test]
fn test_store_and_retrieve() {
    let mut drive = DriveManager::default_config();

    let data = b"Hello, Polygone-Drive!".to_vec();
    let key = vec![0u8; 32];

    let metadata = drive.store_file("test.txt", "alice", data.clone(), key.clone()).unwrap();

    let retrieved = drive.retrieve_file(&metadata.id).unwrap();
    assert_eq!(&retrieved[..data.len()], &data[..]);

    drive.delete_file(&metadata.id).unwrap();
}

#[test]
fn test_list_files() {
    let mut drive = DriveManager::default_config();
    let key = vec![0u8; 32];

    drive.store_file("file1.txt", "alice", b"data1".to_vec(), key.clone()).unwrap();
    drive.store_file("file2.txt", "alice", b"data2".to_vec(), key.clone()).unwrap();
    drive.store_file("file3.txt", "bob", b"data3".to_vec(), key.clone()).unwrap();

    let alice_files = drive.list_files("alice");
    assert_eq!(alice_files.len(), 2);
}

#[test]
fn stored_file_metadata_and_padding() {
    let mut drive = DriveManager::default_config();
    let data = b"abc".to_vec();
    let md = drive.store_file("a.txt", "carol", data.clone(), vec![1, 2, 3]).unwrap();
    assert_eq!(md.size_bytes, 3);
    assert_eq!(md.chunks.len(), 6);
    assert_eq!(md.chunks[0].chunk_id, format!("{}-chunk-0", md.id));
    assert_eq!(md.chunks[5].chunk_id, format!("{}-chunk-5", md.id));
    assert_eq!(md.chunks[0].node_id, "local");
    assert_eq!(md.chunks[0].hash.len(), 16);
    assert!(md.encryption_key_id.starts_with("key-"));
    assert!(md.id.starts_with("file-"));
    // Four data shards of three bytes each come back: the data, then zeros.
    let back = drive.retrieve_file(&md.id).unwrap();
    assert_eq!(back, vec![b'a', b'b', b'c', 0, 0, 0, 0, 0, 0, 0, 0, 0]);
    assert_eq!(drive.get_storage_used(), 18);
    assert_eq!(drive.get_metadata(&md.id).unwrap().name, "a.txt");
}

#[test]
fn drive_errors() {
    let mut drive = DriveManager::default_config();
    assert_eq!(drive.store_file("e", "x", vec![], vec![]).unwrap_err(), "No data to encode");
    assert_eq!(drive.retrieve_file("nope").unwrap_err(), "File not found");
    assert_eq!(drive.delete_file("nope").unwrap_err(), "File not found");
    let md = drive.store_file("f", "x", vec![5], vec![]).unwrap();
    drive.delete_file(&md.id).unwrap();
    assert_eq!(drive.retrieve_file(&md.id).unwrap_err(), "File not found");
    assert!(drive.get_metadata(&md.id).is_none());
    assert_eq!(drive.get_storage_used(), 0);
}

#[test]
fn test_storage() {
    let mut storage = LocalStorage::new(100);

    storage.store("chunk1", vec![1, 2, 3], "node1").unwrap();

    assert_eq!(storage.retrieve("chunk1"), Some(vec![1, 2, 3]));
    assert_eq!(storage.get_total_size(), 3);

    storage.delete("chunk1");
    assert_eq!(storage.retrieve("chunk1"), None);
}

#[test]
fn storage_quota_and_gc() {
    let mut storage = LocalStorage::new(0);
    assert_eq!(storage.store_at("c", vec![1], "n", 10).unwrap_err(), "Storage quota exceeded");
    let mut storage = LocalStorage::new(1);
    storage.store_at("old", vec![1; 10], "n", 100).unwrap();
    storage.store_at("read", vec![2; 10], "n", 100).unwrap();
    storage.store_at("new", vec![3; 10], "n", 190).unwrap();
    assert_eq!(storage.retrieve("read"), Some(vec![2; 10]));
    assert_eq!(storage.list_chunks(), vec!["old".to_string(), "read".to_string(), "new".to_string()]);
    // At 200 with a 50 s limit: "old" is 100 s old and never read.
    assert_eq!(storage.gc_at(200, 50), 1);
    assert_eq!(storage.list_chunks(), vec!["read".to_string(), "new".to_string()]);
    assert_eq!(storage.get_total_size(), 20);
    // At the real clock, long after 190, "new" has never been read.
    assert_eq!(storage.gc(0), 1);
    assert_eq!(storage.list_chunks(), vec!["read".to_string()]);
}

#[test]
fn test_indexing() {
    let mut index = FileIndex::new();

    let entry = FileIndexEntry {
        file_id: "file1".to_string(),
        name: "document.pdf".to_string(),
        owner: "alice".to_string(),
        keywords: vec!["document".to_string(), "pdf".to_string()],
        size_bytes: 1024,
        created_at: 0,
    };

    index.index(entry);

    assert!(index.get("file1").is_some());
    assert_eq!(index.list_by_owner("alice").len(), 1);
    assert_eq!(index.search_by_name("document.pdf").len(), 1);

    let results = index.search("document");
    assert!(!results.is_empty());

    index.remove("file1");
    assert!(index.get("file1").is_none());
}

#[test]
fn index_search_counts_and_case() {
    let mut index = FileIndex::new();
    index.index(FileIndexEntry {
        file_id: "a".to_string(),
        name: "Report.TXT".to_string(),
        owner: "bob".to_string(),
        keywords: vec!["Budget".to_string(), "2024".to_string()],
        size_bytes: 1,
        created_at: 0,
    });
    index.index(FileIndexEntry {
        file_id: "b".to_string(),
        name: "notes".to_string(),
        owner: "bob".to_string(),
        keywords: vec!["budget".to_string()],
        size_bytes: 2,
        created_at: 0,
    });
    assert_eq!(index.search_by_name("report.txt").len(), 1);
    let hits = index.search("BUDGET  2024 budget");
    assert_eq!(hits.len(), 2);
    let a = hits.iter().find(|h| h.file_id == "a").unwrap();
    assert_eq!(a.hits, 3);
    assert_eq!(a.name, "Report.TXT");
    let b = hits.iter().find(|h| h.file_id == "b").unwrap();
    assert_eq!(b.hits, 2);
    assert_eq!(index.list_by_owner("bob").len(), 2);
    assert!(index.search("nothing").is_empty());
    index.remove("a");
    assert_eq!(index.list_by_owner("bob").len(), 1);
    assert_eq!(index.search("2024").len(), 0);
    index.remove("unknown");
    assert_eq!(index.list_by_owner("bob").len(), 1);
}

#[test]
fn index_lowercases_unicode_names_and_splits_queries() {
    let mut index = FileIndex::new();
    index.index(FileIndexEntry {
        file_id: "u".to_string(),
        name: "ÀbC".to_string(),
        owner: "o".to_string(),
        keywords: vec!["Été".to_string()],
        size_bytes: 0,
        created_at: 0,
    });
    assert_eq!(index.search_by_name("àbc").len(), 1);
    assert_eq!(index.search("\t ÉTÉ\n été ")[0].hits, 2);
}

#[test]
fn store_file_at_given_id_and_time() {
    let mut drive = DriveManager::default_config();
    let md = drive.store_file_at("file-abc".to_string(), 42, "n", "o", vec![1, 2], vec![]).unwrap();
    assert_eq!(md.id, "file-abc");
    assert_eq!(md.created_at, 42);
    assert_eq!(md.modified_at, 42);
    assert_eq!(md.chunks[1].chunk_id, "file-abc-chunk-1");
    assert_eq!(
        drive.store_file_at("file-x".to_string(), 1, "n", "o", vec![], vec![]).unwrap_err(),
        "No data to encode"
    );
    assert!(drive.get_metadata("file-x").is_none());
}

#[test]
fn storage_used_follows_store_and_delete() {
    let mut d = DriveManager::default_config();
    let m = d.store_file("test.txt", "alice", b"Hello, Polygone-Drive!".to_vec(), vec![0u8; 32]).unwrap();
    assert_eq!(m.chunks.len(), 6);
    assert_eq!(d.get_storage_used(), 132);
    assert_eq!(d.list_files("alice").len(), 1);
    assert_eq!(d.delete_file(&m.id), Ok(()));
    assert_eq!(d.get_storage_used(), 0);
    assert!(d.list_files("alice").is_empty());
    assert_eq!(d.delete_file(&m.id), Err("File not found".to_string()));
}

#[test]
fn refused_store_leaves_drive_unchanged() {
    let mut d = DriveManager::default_config();
    match d.store_file("a.txt", "alice", vec![], vec![0u8; 32]) {
        Err(e) => assert_eq!(e, "No data to encode"),
        Ok(_) => panic!("empty data must be refused"),
    }
    assert_eq!(d.get_storage_used(), 0);
    assert!(d.list_files("alice").is_empty());
}

#[test]
fn storage_total_after_replace_and_refusal() {
    let mut s = LocalStorage::new(1);
    s.store("a", vec![1, 2, 3], "n").unwrap();
    s.store("b", vec![4; 10], "n").unwrap();
    assert_eq!(s.get_total_size(), 13);
    s.store("a", vec![9; 5], "n").unwrap();
    assert_eq!(s.get_total_size(), 15);
    assert_eq!(s.list_chunks(), vec!["a".to_string(), "b".to_string()]);
    assert_eq!(s.store("c", vec![0; 1024 * 1024], "n"), Err("Storage quota exceeded".to_string()));
    assert_eq!(s.get_total_size(), 15);
    assert_eq!(s.list_chunks(), vec!["a".to_string(), "b".to_string()]);
    assert_eq!(s.delete("b"), Some(vec![4; 10]));
    assert_eq!(s.get_total_size(), 5);
}

#[test]
fn shards_without_positions_are_ambiguous() {
    let a = encode(&[vec![1u8]], 1, 1).unwrap();
    let b = encode(&[vec![6u8]], 1, 1).unwrap();
    assert_eq!(a, vec![vec![1u8], vec![6u8]]);
    assert_eq!(b, vec![vec![6u8], vec![36u8]]);
    assert_eq!(decode(&a[1..], 1), decode(&b[..1], 1));
}

#[test]
fn gf256_field_laws_on_samples() {
    let samples = [0u8, 1, 2, 3, 0x53, 0x80, 0xCA, 0xFF];
    for &a in samples.iter() {
        for &b in samples.iter() {
            assert_eq!(multiply(a, b), multiply(b, a));
            for &c in samples.iter() {
                assert_eq!(multiply(multiply(a, b), c), multiply(a, multiply(b, c)));
                assert_eq!(multiply(a, b ^ c), multiply(a, b) ^ multiply(a, c));
            }
        }
    }
    assert_eq!(multiply(0x53, 0xCA), 1);
}

#[test]
fn deleting_one_file_keeps_the_others() {
    let mut d = DriveManager::default_config();
    let k = vec![0u8; 32];
    let a = d.store_file_at("file-a".to_string(), 1, "a.txt", "alice", b"first file".to_vec(), k.clone()).unwrap();
    let b = d.store_file_at("file-b".to_string(), 2, "b.txt", "bob", b"second".to_vec(), k.clone()).unwrap();
    let used = d.get_storage_used();
    assert_eq!(d.delete_file(&a.id), Ok(()));
    let mut expected = b"second".to_vec();
    expected.extend_from_slice(&[0u8; 18]);
    assert_eq!(d.retrieve_file(&b.id), Ok(expected));
    assert_eq!(d.get_storage_used(), used - 6 * 10);
    assert!(d.get_metadata(&b.id).is_some());
}
