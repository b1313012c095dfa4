use nebula::address::ContentAddress;
use nebula::chunk::{Chunk, ChunkConfig, Chunker};

fn concat(chunks: &[Chunk]) -> Vec<u8> {
    let mut out = Vec::new();
    for c in chunks {
        out.extend_from_slice(c.data());
    }
    out
}

#[test]
fn test_chunk_creation() {
    let data = b"hello world".to_vec();
    let chunk = Chunk::new(data.clone());

    assert_eq!(chunk.data(), &data[..]);

    let chunk2 = Chunk::new(data.clone());
    assert_eq!(chunk.address(), chunk2.address());
    assert_eq!(*chunk.address(), ContentAddress::from_data(&data));
}

#[test]
fn test_chunker_default_config() {
    let chunker = Chunker::new();
    let config = ChunkConfig::default();

    assert_eq!(chunker.get_config().min_size, config.min_size);
    assert_eq!(chunker.get_config().target_size, config.target_size);
    assert_eq!(chunker.get_config().max_size, config.max_size);
}

#[test]
fn test_chunker_custom_config() {
    let config = ChunkConfig {
        min_size: 100,
        target_size: 200,
        max_size: 300,
        use_content_defined: false,
    };
    let chunker = Chunker::with_config(config.clone());

    assert_eq!(*chunker.get_config(), config);
}

#[test]
fn test_content_defined_chunking() {
    let chunker = Chunker::with_config(ChunkConfig {
        min_size: 4096,
        target_size: 8192,
        max_size: 16384,
        use_content_defined: true,
    });

    let data = vec![42u8; 32768];
    let chunks = chunker.chunk_data(&data);

    assert!(!chunks.is_empty());

    let mut reconstructed = Vec::new();
    for chunk in chunks {
        reconstructed.extend_from_slice(chunk.data());
    }
    assert_eq!(reconstructed, data);
}

#[test]
fn test_cdc_vs_fixed_chunking() {
    let data = b"This is test data that should be chunked differently with CDC vs fixed-size chunking. ".repeat(1000);

    let fixed_chunker = Chunker::with_config(ChunkConfig {
        min_size: 4096,
        target_size: 8192,
        max_size: 16384,
        use_content_defined: false,
    });

    let cdc_chunker = Chunker::with_config(ChunkConfig {
        min_size: 4096,
        target_size: 8192,
        max_size: 16384,
        use_content_defined: true,
    });

    let fixed_chunks = fixed_chunker.chunk_data(&data);
    let cdc_chunks = cdc_chunker.chunk_data(&data);

    println!("Fixed chunks: {}, CDC chunks: {}", fixed_chunks.len(), cdc_chunks.len());
}

#[test]
fn test_chunk_small_data() {
    let chunker = Chunker::new();
    let data = b"small data";
    let chunks = chunker.chunk_data(data);

    assert_eq!(chunks.len(), 1);
    assert_eq!(chunks[0].data(), data);
}

#[test]
fn test_chunk_empty_data() {
    let chunker = Chunker::new();
    let chunks = chunker.chunk_data(&[]);
    assert!(chunks.is_empty());
}

#[test]
fn test_chunk_large_data() {
    let chunker = Chunker::with_config(ChunkConfig {
        min_size: 10,
        target_size: 50,
        max_size: 100,
        use_content_defined: false,
    });

    let large_data = vec![42u8; 150];
    let chunks = chunker.chunk_data(&large_data);

    assert_eq!(chunks.len(), 3);
    assert_eq!(chunks[0].data().len(), 50);
    assert_eq!(chunks[1].data().len(), 50);
    assert_eq!(chunks[2].data().len(), 50);

    let mut reconstructed = Vec::new();
    for chunk in chunks {
        reconstructed.extend_from_slice(chunk.data());
    }
    assert_eq!(reconstructed, large_data);
}

#[test]
fn test_chunks_have_unique_addresses() {
    let chunker = Chunker::new();

    let data1 = b"first chunk data";
    let data2 = b"second chunk data";

    let chunks1 = chunker.chunk_data(data1);
    let chunks2 = chunker.chunk_data(data2);

    assert_ne!(chunks1[0].address(), chunks2[0].address());
}

#[test]
fn test_identical_data_same_address() {
    let chunker = Chunker::new();
    let data = b"identical data";

    let chunks1 = chunker.chunk_data(data);
    let chunks2 = chunker.chunk_data(data);

    assert_eq!(chunks1[0].address(), chunks2[0].address());
}

#[test]
fn fixed_mode_leaves_a_shorter_last_chunk() {
    let chunker = Chunker::with_config(ChunkConfig {
        min_size: 10,
        target_size: 50,
        max_size: 100,
        use_content_defined: false,
    });
    let data: Vec<u8> = (0..120u32).map(|i| i as u8).collect();
    let chunks = chunker.chunk_data(&data);
    let lens: Vec<usize> = chunks.iter().map(|c| c.data().len()).collect();
    assert_eq!(lens, vec![50, 50, 20]);
    assert_eq!(concat(&chunks), data);
    for c in &chunks {
        assert_eq!(*c.address(), ContentAddress::from_data(c.data()));
    }
}

fn repeated_block(len: usize) -> Vec<u8> {
    let block = pseudo_random(64 * 1024, 99);
    (0..len).map(|i| block[i % block.len()]).collect()
}

fn pseudo_random(len: usize, seed: u64) -> Vec<u8> {
    let mut x = seed;
    (0..len)
        .map(|_| {
            x = x.wrapping_mul(6364136223846793005).wrapping_add(1442695040888963407);
            (x >> 33) as u8
        })
        .collect()
}

#[test]
fn cdc_chunks_concatenate_to_input_and_keep_bounds() {
    let chunker = Chunker::new();
    let data = pseudo_random(300_000, 7);
    let chunks = chunker.chunk_data(&data);
    assert!(chunks.len() > 1);
    assert_eq!(concat(&chunks), data);
    for (i, c) in chunks.iter().enumerate() {
        assert!(c.data().len() <= 24 * 1024);
        if i + 1 < chunks.len() {
            assert!(c.data().len() >= 8 * 1024);
        }
    }
}

#[test]
fn cdc_boundaries_are_deterministic() {
    let chunker = Chunker::new();
    let data = pseudo_random(200_000, 11);
    let a: Vec<usize> = chunker.chunk_data(&data).iter().map(|c| c.data().len()).collect();
    let b: Vec<usize> = Chunker::new().chunk_data(&data).iter().map(|c| c.data().len()).collect();
    assert_eq!(a, b);
}

#[test]
fn input_no_longer_than_min_size_is_one_chunk() {
    let chunker = Chunker::new();
    let data = pseudo_random(8 * 1024, 3);
    let chunks = chunker.chunk_data(&data);
    assert_eq!(chunks.len(), 1);
    assert_eq!(chunks[0].data(), &data[..]);
}

#[test]
fn cdc_insertion_changes_few_chunks() {
    let chunker = Chunker::new();
    let x = repeated_block(1 << 20);
    let mut x2 = x.clone();
    let inserted: Vec<u8> = (0..64u8).collect();
    x2.splice(500_000..500_000, inserted);
    let a = chunker.chunk_data(&x);
    let b = chunker.chunk_data(&x2);
    let mut distinct: Vec<String> = Vec::new();
    for c in a.iter().chain(b.iter()) {
        let t = c.address().to_string();
        if !distinct.contains(&t) {
            distinct.push(t);
        }
    }
    assert!(distinct.len() <= a.len() + 3);
    assert_eq!(concat(&b), x2);
}

#[test]
fn cdc_insertion_in_random_data_changes_few_chunks() {
    let chunker = Chunker::new();
    let x = pseudo_random(1 << 20, 5);
    let mut x2 = x.clone();
    x2.splice(500_000..500_000, vec![0xAAu8; 64]);
    let a = chunker.chunk_data(&x);
    let b = chunker.chunk_data(&x2);
    let mut distinct: Vec<String> = Vec::new();
    for c in a.iter().chain(b.iter()) {
        let t = c.address().to_string();
        if !distinct.contains(&t) {
            distinct.push(t);
        }
    }
    assert!(distinct.len() <= a.len() + 3);
}
