use std::collections::HashMap;

use nebula::address::ContentAddress;
use nebula::chunk::{Chunk, ChunkConfig};
use nebula::store::{ChunkInfo, ContentStore, ContentStoreConfig, ContentStoreError};

/// An object directory held in memory: path to bytes.
struct Objects {
    store: ContentStore,
    files: HashMap<String, Vec<u8>>,
}

impl Objects {
    fn new() -> Objects {
        let config = ContentStoreConfig {
            storage_path: "/tmp/store".to_string(),
            chunk_config: ChunkConfig::default(),
            verify_on_read: true,
        };
        Objects { store: ContentStore::new(config), files: HashMap::new() }
    }

    fn put_chunk(&mut self, data: &[u8]) -> ContentAddress {
        let address = ContentAddress::from_data(data);
        let path = self.store.chunk_path(&address);
        self.files.entry(path).or_insert_with(|| data.to_vec());
        address
    }

    fn read(&self, address: &ContentAddress) -> Option<Vec<u8>> {
        self.files.get(&self.store.chunk_path(address)).cloned()
    }

    fn get_chunk(&self, address: &ContentAddress) -> Result<Chunk, ContentStoreError> {
        let found = self.read(address);
        self.store.get_chunk(address, found.as_deref())
    }

    fn has_chunk(&self, address: &ContentAddress) -> bool {
        self.files.contains_key(&self.store.chunk_path(address))
    }

    fn put_data(&mut self, data: &[u8]) -> Vec<ContentAddress> {
        let chunks = self.store.put_data(data);
        chunks.iter().map(|c| self.put_chunk(c.data())).collect()
    }

    fn get_data(&self, addresses: &[ContentAddress]) -> Result<Vec<u8>, ContentStoreError> {
        let found: Vec<Option<Vec<u8>>> = addresses.iter().map(|a| self.read(a)).collect();
        self.store.get_data(addresses, &found)
    }

    fn total_chunks(&self) -> usize {
        self.files.len()
    }
}

#[test]
fn test_put_and_get_chunk() {
    let mut store = Objects::new();

    let data = b"Hello, Nebula!";
    let address = store.put_chunk(data);

    let retrieved_chunk = store.get_chunk(&address).unwrap();
    assert_eq!(retrieved_chunk.data(), data);
}

#[test]
fn test_has_chunk() {
    let mut store = Objects::new();

    let data = b"Hello, Nebula!";
    let address = store.put_chunk(data);

    assert!(store.has_chunk(&address));

    let fake_chunk = Chunk::new(b"fake data".to_vec());
    assert!(!store.has_chunk(fake_chunk.address()));
}

#[test]
fn test_deduplication() {
    let mut store = Objects::new();

    let data = b"Hello, Nebula!";
    let address1 = store.put_chunk(data);
    let address2 = store.put_chunk(data);

    assert_eq!(address1, address2);
    assert_eq!(store.total_chunks(), 1);
}

#[test]
fn test_put_and_get_data() {
    let mut store = Objects::new();

    let original_data = b"This is a longer piece of data that might be chunked into multiple pieces depending on the chunking configuration.";

    let addresses = store.put_data(original_data);
    assert!(!addresses.is_empty());

    let retrieved_data = store.get_data(&addresses).unwrap();
    assert_eq!(retrieved_data, original_data);
}

#[test]
fn test_corruption_detection() {
    let mut store = Objects::new();

    let data = b"Hello, Nebula!";
    let address = store.put_chunk(data);

    let chunk_path = store.store.chunk_path(&address);
    store.files.insert(chunk_path, b"corrupted data".to_vec());

    let result = store.get_chunk(&address);
    assert!(matches!(result, Err(ContentStoreError::Corruption { .. })));
}

#[test]
fn test_stats() {
    let mut store = Objects::new();

    assert_eq!(store.total_chunks(), 0);

    store.put_chunk(b"chunk1");
    store.put_chunk(b"chunk2");
    store.put_chunk(b"chunk1");

    assert_eq!(store.total_chunks(), 2);
}

#[test]
fn put_bytes_round_trip_is_one_chunk() {
    let mut store = Objects::new();
    let b = b"Hello, Nebula!";
    let addresses = store.put_data(b);
    assert_eq!(addresses.len(), 1);
    assert_eq!(store.get_data(&addresses).unwrap(), b.to_vec());
    assert_eq!(store.total_chunks(), 1);
}

#[test]
fn put_chunk_twice_keeps_one_object() {
    let mut store = Objects::new();
    let a = store.put_chunk(b"x");
    let b = store.put_chunk(b"x");
    assert_eq!(a, b);
    assert_eq!(store.total_chunks(), 1);
}

#[test]
fn corruption_names_expected_and_actual() {
    let mut store = Objects::new();
    let a = store.put_chunk(b"abc");
    let path = store.store.chunk_path(&a);
    store.files.insert(path, b"xyz".to_vec());
    match store.get_chunk(&a) {
        Err(ContentStoreError::Corruption { expected, actual }) => {
            assert_eq!(expected, a);
            assert_eq!(actual, ContentAddress::from_data(b"xyz"));
        }
        other => panic!("unexpected: {:?}", other),
    }
}

#[test]
fn missing_object_is_not_found() {
    let store = Objects::new();
    let a = ContentAddress::from_data(b"never stored");
    match store.get_chunk(&a) {
        Err(ContentStoreError::ContentNotFound { address }) => assert_eq!(address, a),
        other => panic!("unexpected: {:?}", other),
    }
}

#[test]
fn get_data_reports_the_first_missing_object() {
    let mut store = Objects::new();
    let a = store.put_chunk(b"one");
    let missing = ContentAddress::from_data(b"two");
    let c = store.put_chunk(b"three");
    match store.get_data(&[a, missing, c]) {
        Err(ContentStoreError::ContentNotFound { address }) => assert_eq!(address, missing),
        other => panic!("unexpected: {:?}", other),
    }
    assert_eq!(store.get_data(&[c, a]).unwrap(), b"threeone".to_vec());
    assert_eq!(store.get_data(&[]).unwrap(), Vec::<u8>::new());
}

#[test]
fn unverified_reads_accept_changed_bytes() {
    let config = ContentStoreConfig {
        storage_path: "/s".to_string(),
        chunk_config: ChunkConfig::default(),
        verify_on_read: false,
    };
    let store = ContentStore::new(config);
    let a = ContentAddress::from_data(b"abc");
    let chunk = store.get_chunk(&a, Some(&b"xyz"[..])).unwrap();
    assert_eq!(chunk.data(), b"xyz");
}

#[test]
fn chunk_path_shards_by_the_first_two_characters() {
    let store = Objects::new();
    let a = ContentAddress::from_data(b"abc");
    let text = a.to_string();
    assert_eq!(
        store.store.chunk_path(&a),
        format!("/tmp/store/objects/sh/{}", &text[2..])
    );
    assert_eq!(store.store.temp_path(42), "/tmp/store/temp/tmp_42");
}

#[test]
fn default_store_config_is_under_dot_nebula() {
    let c = ContentStoreConfig::under("/home/u");
    assert_eq!(c.storage_path, "/home/u/.nebula/store");
    assert!(c.verify_on_read);
    let d = ContentStoreConfig::under("/home/u/");
    assert_eq!(d.storage_path, "/home/u/.nebula/store");
}

#[test]
fn chunk_info_short_address_and_age() {
    let address = ContentAddress::from_data(b"abc");
    let info = ChunkInfo { address, size: 3, created_at: 1000, file_path: "p".to_string() };
    assert_eq!(info.short_address(), "sha256:b...f20015ad");
    assert_eq!(info.age_string(999), "just now");
    assert_eq!(info.age_string(1059), "59 seconds ago");
    assert_eq!(info.age_string(1000 + 125), "2 minutes ago");
    assert_eq!(info.age_string(1000 + 7200), "2 hours ago");
    assert_eq!(info.age_string(1000 + 3 * 86400), "3 days ago");
}

fn entry(text: &str, size: u64, created_at: u64) -> nebula::store::ObjectEntry {
    nebula::store::ObjectEntry {
        shard: text[..2].to_string(),
        name: text[2..].to_string(),
        size,
        created_at,
        file_path: format!("/o/{}", text),
    }
}

#[test]
fn listing_parses_names_and_orders_newest_first() {
    let store = Objects::new();
    let a = ContentAddress::from_data(b"a");
    let b = ContentAddress::from_data(b"b");
    let c = ContentAddress::from_data(b"c");
    let entries = vec![
        entry(&a.to_string(), 1, 100),
        entry("xxnot-an-address", 5, 500),
        entry(&b.to_string(), 2, 300),
        entry(&c.to_string(), 3, 100),
    ];
    let listing = store.store.list_content(&entries);
    assert_eq!(listing.stats.total_chunks, 4);
    assert_eq!(listing.stats.total_size, 11);
    assert_eq!(listing.stats.storage_path, "/tmp/store");
    let order: Vec<ContentAddress> = listing.chunks.iter().map(|i| i.address).collect();
    assert_eq!(order, vec![b, a, c]);
    assert_eq!(listing.chunks[0].size, 2);
    assert_eq!(listing.chunks[0].file_path, format!("/o/{}", b.to_string()));
}

#[test]
fn stats_count_every_file() {
    let store = Objects::new();
    let stats = store.store.stats(&[entry("abcdef", 10, 0), entry("ghijkl", 32, 0)]);
    assert_eq!(stats.total_chunks, 2);
    assert_eq!(stats.total_size, 42);
    let empty = store.store.stats(&[]);
    assert_eq!(empty.total_chunks, 0);
    assert_eq!(empty.total_size, 0);
}
