//! The decisions of the content store: where an object lives, what storing a
//! buffer writes, and what reading objects back yields. The store's directory
//! itself is read and written by the caller, which hands the bytes it found
//! (or `None` for an absent object) to these functions.
use vstd::prelude::*;
use vstd::slice::slice_to_vec;
use crate::address::{address_text, alg_name, digest_of, parse_spec, ContentAddress, ContentAddressError, HashAlgorithm};
use vstd::utf8::encode_utf8;
use vstd::string::StringSliceAdditionalSpecFns;
use crate::chunk::{chunk_of, chunk_pieces, pieces_within, Chunk, ChunkConfig, Chunker};
use crate::text::{decimal, decimal_text, join, join_path};

verus! {

#[verifier::external_type_specification]
#[verifier::external_body]
pub struct ExIoError(std::io::Error);

/// Relies on dirs::home_dir: the current user's home directory, if one can
/// be found; nothing is known of its value.
#[verifier::external_body]
pub(crate) fn home_dir() -> (r: Option<String>) {
    dirs::home_dir().map(|p| p.to_string_lossy().into_owned())
}

/// Configuration for the content store.
#[derive(Debug, Clone)]
pub struct ContentStoreConfig {
    /// Root directory for storing content.
    pub storage_path: String,
    /// Configuration for chunking.
    pub chunk_config: ChunkConfig,
    /// Whether to verify content integrity on read.
    pub verify_on_read: bool,
}

impl ContentStoreConfig {
    /// A configuration rooted at `<base>/.nebula/store`, with the default
    /// chunking and verification on read.
    pub fn under(base: &str) -> (r: ContentStoreConfig)
        ensures
            r.storage_path@ == join_path(join_path(base@, ".nebula"@), "store"@),
            r.chunk_config == ChunkConfig::default_spec(),
            r.verify_on_read,
    {
        let nebula = join(base, ".nebula");
        let storage_path = join(nebula.as_str(), "store");
        ContentStoreConfig { storage_path, chunk_config: ChunkConfig::default(), verify_on_read: true }
    }
}

impl Default for ContentStoreConfig {
    /// Rooted under the home directory, or under the current directory where
    /// no home directory can be found.
    fn default() -> (r: Self)
        ensures
            r.chunk_config == ChunkConfig::default_spec(),
            r.verify_on_read,
    {
        match home_dir() {
            Some(h) => Self::under(h.as_str()),
            None => Self::under("."),
        }
    }
}

/// Configuration for storage behaviour.
#[derive(Debug, Clone)]
pub struct StorageConfig {
    /// Maximum storage size in bytes (`None`: unlimited).
    pub max_storage_size: Option<u64>,
    /// How many copies of data to maintain.
    pub replication_factor: u8,
    /// Whether to replicate to other nodes automatically.
    pub auto_replicate: bool,
    /// The primary content store's configuration.
    pub store_config: ContentStoreConfig,
}

impl Default for StorageConfig {
    fn default() -> (r: Self)
        ensures
            r.max_storage_size is None,
            r.replication_factor == 3,
            r.auto_replicate,
            r.store_config.verify_on_read,
    {
        StorageConfig {
            max_storage_size: None,
            replication_factor: 3,
            auto_replicate: true,
            store_config: ContentStoreConfig::default(),
        }
    }
}

/// Errors of content store operations.
#[derive(Debug)]
pub enum ContentStoreError {
    Io(std::io::Error),
    ContentNotFound { address: ContentAddress },
    InvalidAddress(String),
    Corruption { expected: ContentAddress, actual: ContentAddress },
}

/// Statistics about the content store.
#[derive(Debug, Clone)]
pub struct ContentStoreStats {
    pub total_chunks: usize,
    pub total_size: u64,
    pub storage_path: String,
}

/// Information about a stored chunk.
#[derive(Debug, Clone)]
pub struct ChunkInfo {
    pub address: ContentAddress,
    pub size: u64,
    /// Creation time, in seconds since the Unix epoch.
    pub created_at: u64,
    pub file_path: String,
}

/// An address text shortened for display: its first and last 8 characters
/// around `"..."`, where it is longer than 16.
pub open spec fn short_text(t: Seq<char>) -> Seq<char> {
    if t.len() > 16 {
        t.subrange(0, 8) + "..."@ + t.subrange(t.len() - 8, t.len() as int)
    } else {
        t
    }
}

/// How long ago `created` was, seen at `now`, in the largest whole unit.
pub open spec fn age_text(created: u64, now: u64) -> Seq<char> {
    if now < created {
        "just now"@
    } else {
        let secs = (now - created) as nat;
        if secs < 60 {
            decimal(secs) + " seconds ago"@
        } else if secs < 3600 {
            decimal(secs / 60) + " minutes ago"@
        } else if secs < 86400 {
            decimal(secs / 3600) + " hours ago"@
        } else {
            decimal(secs / 86400) + " days ago"@
        }
    }
}

impl ChunkInfo {
    /// The address, shortened for display.
    pub fn short_address(&self) -> (r: String)
        ensures
            r@ == short_text(address_text(self.address@)),
    {
        let text = self.address.to_string();
        let n = text.as_str().unicode_len();
        if n > 16 {
            let mut out = text.as_str().substring_char(0, 8).to_owned();
            out.append("...");
            out.append(text.as_str().substring_char(n - 8, n));
            out
        } else {
            text
        }
    }

    /// How long ago the chunk was created, seen now.
    pub fn created_time_string(&self) -> (r: String) {
        self.age_string(crate::registry::unix_now())
    }

    /// How long ago the chunk was created, seen at `now` (Unix seconds).
    pub fn age_string(&self, now: u64) -> (r: String)
        ensures
            r@ == age_text(self.created_at, now),
    {
        if now < self.created_at {
            return "just now".to_owned();
        }
        let secs = now - self.created_at;
        let (count, unit) = if secs < 60 {
            (secs, " seconds ago")
        } else if secs < 3600 {
            (secs / 60, " minutes ago")
        } else if secs < 86400 {
            (secs / 3600, " hours ago")
        } else {
            (secs / 86400, " days ago")
        };
        let mut out = decimal_text(count);
        out.append(unit);
        out
    }
}

/// What a chunk's information holds, as values.
pub open spec fn info_view(c: ChunkInfo) -> ((HashAlgorithm, Seq<u8>), u64, u64, Seq<char>) {
    (c.address@, c.size, c.created_at, c.file_path@)
}

/// A file found under the objects directory: the name of its shard
/// directory, its own name, size, creation time and path.
#[derive(Debug, Clone)]
pub struct ObjectEntry {
    pub shard: String,
    pub name: String,
    pub size: u64,
    /// Creation time, in seconds since the Unix epoch.
    pub created_at: u64,
    pub file_path: String,
}

/// The address that an entry's shard and file names spell, if they parse.
pub open spec fn entry_address(e: ObjectEntry) -> Result<(HashAlgorithm, Seq<u8>), ContentAddressError> {
    parse_spec(encode_utf8(e.shard@ + e.name@))
}

/// The chunk information of the entries whose names parse as addresses, in
/// order.
pub open spec fn parsed_entries(es: Seq<ObjectEntry>) -> Seq<((HashAlgorithm, Seq<u8>), u64, u64, Seq<char>)>
    decreases es.len(),
{
    if es.len() == 0 {
        Seq::empty()
    } else {
        let prev = parsed_entries(es.drop_last());
        match entry_address(es.last()) {
            Ok(a) => prev.push((a, es.last().size, es.last().created_at, es.last().file_path@)),
            Err(_) => prev,
        }
    }
}

/// The sum of the entries' sizes.
pub open spec fn entry_size_sum(es: Seq<ObjectEntry>) -> int
    decreases es.len(),
{
    if es.len() == 0 {
        0
    } else {
        entry_size_sum(es.drop_last()) + es.last().size
    }
}

/// Newest first: creation times never increase along the sequence.
pub open spec fn newest_first(cs: Seq<((HashAlgorithm, Seq<u8>), u64, u64, Seq<char>)>) -> bool {
    forall|a: int, b: int| 0 <= a < b < cs.len() ==> #[trigger] cs[a].2 >= #[trigger] cs[b].2
}

/// Detailed information about stored content.
#[derive(Debug, Clone)]
pub struct ContentListing {
    pub chunks: Vec<ChunkInfo>,
    pub stats: ContentStoreStats,
}

/// An object read back is accepted: it is present, and its digest matches
/// the address where verification is on.
pub open spec fn object_ok(a: (HashAlgorithm, Seq<u8>), stored: Option<Seq<u8>>, verify: bool) -> bool {
    match stored {
        None => false,
        Some(d) => !verify || (a.0, digest_of(a.0, d)) == a,
    }
}

/// `e` is the error for a rejected object at address `a`.
pub open spec fn failure_for(a: (HashAlgorithm, Seq<u8>), stored: Option<Seq<u8>>, e: ContentStoreError) -> bool {
    match stored {
        None => e matches ContentStoreError::ContentNotFound { address } && address@ == a,
        Some(d) => e matches ContentStoreError::Corruption { expected, actual } && expected@ == a
            && actual@ == (a.0, digest_of(a.0, d)),
    }
}

pub open spec fn opt_view(o: Option<&[u8]>) -> Option<Seq<u8>> {
    match o {
        None => None,
        Some(b) => Some(b@),
    }
}

pub open spec fn stored_view(s: Seq<Option<Vec<u8>>>) -> Seq<Option<Seq<u8>>> {
    Seq::new(
        s.len(),
        |i: int|
            match s[i] {
                None => None,
                Some(v) => Some(v@),
            },
    )
}

/// The bytes of objects that were all found.
pub open spec fn found_bytes(s: Seq<Option<Seq<u8>>>) -> Seq<Seq<u8>> {
    Seq::new(s.len(), |i: int| s[i]->Some_0)
}

/// The file name under which the object of `a` lives: the address text's
/// first two characters name a shard directory, the rest the file.
pub open spec fn object_path(objects_dir: Seq<char>, a: (HashAlgorithm, Seq<u8>)) -> Seq<char> {
    let t = address_text(a);
    join_path(join_path(objects_dir, t.subrange(0, 2)), t.subrange(2, t.len() as int))
}

fn append_bytes(out: &mut Vec<u8>, b: &[u8])
    ensures
        final(out)@ == old(out)@ + b@,
{
    let mut i: usize = 0;
    while i < b.len()
        invariant
            i <= b@.len(),
            out@ == old(out)@ + b@.subrange(0, i as int),
        decreases b@.len() - i,
    {
        out.push(b[i]);
        i = i + 1;
        assert(out@ =~= old(out)@ + b@.subrange(0, i as int));
    }
    assert(b@.subrange(0, b@.len() as int) =~= b@);
}

/// Content-addressable storage of chunks under `<storage_path>/objects`.
pub struct ContentStore {
    config: ContentStoreConfig,
    objects_dir: String,
    temp_dir: String,
}

impl ContentStore {
    pub closed spec fn spec_config(&self) -> ContentStoreConfig {
        self.config
    }

    pub closed spec fn spec_objects_dir(&self) -> Seq<char> {
        self.objects_dir@
    }

    pub closed spec fn spec_temp_dir(&self) -> Seq<char> {
        self.temp_dir@
    }

    /// A store over `config.storage_path`; the caller creates its `objects`
    /// and `temp` directories.
    pub fn new(config: ContentStoreConfig) -> (r: ContentStore)
        ensures
            r.spec_config() == config,
            r.spec_objects_dir() == join_path(config.storage_path@, "objects"@),
            r.spec_temp_dir() == join_path(config.storage_path@, "temp"@),
    {
        let objects_dir = join(config.storage_path.as_str(), "objects");
        let temp_dir = join(config.storage_path.as_str(), "temp");
        ContentStore { config, objects_dir, temp_dir }
    }

    /// The store's configuration.
    pub fn config(&self) -> (r: &ContentStoreConfig)
        ensures
            *r == self.spec_config(),
    {
        &self.config
    }

    /// The directory that holds the objects.
    pub fn objects_dir(&self) -> (r: &str)
        ensures
            r@ == self.spec_objects_dir(),
    {
        self.objects_dir.as_str()
    }

    /// The directory that holds writes in flight.
    pub fn temp_dir(&self) -> (r: &str)
        ensures
            r@ == self.spec_temp_dir(),
    {
        self.temp_dir.as_str()
    }

    /// The file system path of the object with `address`.
    pub fn chunk_path(&self, address: &ContentAddress) -> (r: String)
        ensures
            r@ == object_path(self.spec_objects_dir(), address@),
    {
        let text = address.to_string();
        proof {
            crate::address::lemma_text_len(address@);
        }
        let n = text.as_str().unicode_len();
        let shard = text.as_str().substring_char(0, 2);
        let rest = text.as_str().substring_char(2, n);
        let dir = join(self.objects_dir.as_str(), shard);
        join(dir.as_str(), rest)
    }

    /// The path of an in-flight write, `temp/tmp_<nonce>`.
    pub fn temp_path(&self, nonce: u64) -> (r: String)
        ensures
            r@ == join_path(self.spec_temp_dir(), "tmp_"@ + decimal(nonce as nat)),
    {
        let mut name = "tmp_".to_owned();
        let digits = decimal_text(nonce);
        name.append(digits.as_str());
        join(self.temp_dir.as_str(), name.as_str())
    }

    /// The chunks that storing `data` writes, in input order; their addresses,
    /// in that order, are what storing `data` returns.
    pub fn put_data(&self, data: &[u8]) -> (r: Vec<Chunk>)
        requires
            self.spec_config().chunk_config.wf(),
        ensures
            r@.len() == chunk_pieces(self.spec_config().chunk_config, data@).len(),
            forall|i: int|
                0 <= i < r@.len() ==> #[trigger] r@[i]@ == chunk_of(
                    chunk_pieces(self.spec_config().chunk_config, data@)[i],
                ),
            chunk_pieces(self.spec_config().chunk_config, data@).flatten() == data@,
            pieces_within(self.spec_config().chunk_config, chunk_pieces(self.spec_config().chunk_config, data@)),
    {
        let chunker = Chunker::with_config(self.config.chunk_config);
        chunker.chunk_data(data)
    }

    /// Check an object read back from `address`'s path (`None` where no file
    /// was there).
    pub fn get_chunk(&self, address: &ContentAddress, stored: Option<&[u8]>) -> (r: Result<Chunk, ContentStoreError>)
        ensures
            r is Ok <==> object_ok(address@, opt_view(stored), self.spec_config().verify_on_read),
            r matches Ok(c) ==> c@ == (stored->Some_0@, (address@.0, digest_of(address@.0, stored->Some_0@))),
            r matches Err(e) ==> failure_for(address@, opt_view(stored), e),
    {
        match stored {
            None => Err(ContentStoreError::ContentNotFound { address: *address }),
            Some(bytes) => {
                let chunk = Chunk::new_with_algorithm(slice_to_vec(bytes), address.algorithm());
                if self.config.verify_on_read && *chunk.address() != *address {
                    Err(ContentStoreError::Corruption { expected: *address, actual: *chunk.address() })
                } else {
                    Ok(chunk)
                }
            },
        }
    }

    /// Statistics over the files that a walk of the objects directory found.
    pub fn stats(&self, entries: &[ObjectEntry]) -> (r: ContentStoreStats)
        requires
            entry_size_sum(entries@) <= u64::MAX,
        ensures
            r.total_chunks == entries@.len(),
            r.total_size == entry_size_sum(entries@),
            r.storage_path@ == self.spec_config().storage_path@,
    {
        let mut total: u64 = 0;
        let mut i: usize = 0;
        while i < entries.len()
            invariant
                i <= entries@.len(),
                entry_size_sum(entries@) <= u64::MAX,
                total == entry_size_sum(entries@.take(i as int)),
            decreases entries@.len() - i,
        {
            proof {
                assert(entries@.take(i as int + 1).drop_last() =~= entries@.take(i as int));
                lemma_entry_sum_prefix(entries@, i as int + 1);
            }
            total = total + entries[i].size;
            i = i + 1;
        }
        assert(entries@.take(entries@.len() as int) =~= entries@);
        ContentStoreStats {
            total_chunks: entries.len(),
            total_size: total,
            storage_path: self.config.storage_path.clone(),
        }
    }

    /// The chunks among the files that a walk of the objects directory
    /// found: those whose shard and file names spell an address, newest
    /// first (ties keep the walk's order), with statistics over all files.
    pub fn list_content(&self, entries: &[ObjectEntry]) -> (r: ContentListing)
        requires
            entry_size_sum(entries@) <= u64::MAX,
        ensures
            r.stats.total_chunks == entries@.len(),
            r.stats.total_size == entry_size_sum(entries@),
            r.stats.storage_path@ == self.spec_config().storage_path@,
            newest_first(r.chunks@.map_values(|c: ChunkInfo| info_view(c))),
            r.chunks@.map_values(|c: ChunkInfo| info_view(c)).to_multiset() == parsed_entries(
                entries@,
            ).to_multiset(),
    {
        let stats = self.stats(entries);
        let mut chunks: Vec<ChunkInfo> = Vec::new();
        assert(entries@.take(0) =~= Seq::<ObjectEntry>::empty());
        assert(chunks@.map_values(|c: ChunkInfo| info_view(c)) =~= parsed_entries(entries@.take(0)));
        let mut i: usize = 0;
        while i < entries.len()
            invariant
                i <= entries@.len(),
                newest_first(chunks@.map_values(|c: ChunkInfo| info_view(c))),
                chunks@.map_values(|c: ChunkInfo| info_view(c)).to_multiset() == parsed_entries(
                    entries@.take(i as int),
                ).to_multiset(),
            decreases entries@.len() - i,
        {
            let e = &entries[i];
            assert(entries@.take(i as int + 1).drop_last() =~= entries@.take(i as int));
            assert(entries@.take(i as int + 1).last() == *e);
            let mut text = e.shard.clone();
            text.append(e.name.as_str());
            match ContentAddress::from_hex(text.as_str()) {
                Ok(address) => {
                    let info = ChunkInfo {
                        address,
                        size: e.size,
                        created_at: e.created_at,
                        file_path: e.file_path.clone(),
                    };
                    let ghost before = chunks@.map_values(|c: ChunkInfo| info_view(c));
                    let mut p: usize = 0;
                    while p < chunks.len() && chunks[p].created_at >= info.created_at
                        invariant
                            p <= chunks@.len(),
                            before == chunks@.map_values(|c: ChunkInfo| info_view(c)),
                            forall|q: int| 0 <= q < p ==> #[trigger] chunks@[q].created_at >= info.created_at,
                        decreases chunks@.len() - p,
                    {
                        p = p + 1;
                    }
                    chunks.insert(p, info);
                    proof {
                        let after = chunks@.map_values(|c: ChunkInfo| info_view(c));
                        assert(after =~= before.insert(p as int, info_view(info)));
                        vstd::seq_lib::to_multiset_insert(before, p as int, info_view(info));
                        vstd::seq_lib::to_multiset_build(
                            parsed_entries(entries@.take(i as int)),
                            info_view(info),
                        );
                        assert forall|a: int, b: int| 0 <= a < b < after.len() implies
                            #[trigger] after[a].2 >= #[trigger] after[b].2 by {
                            if b < p {
                                assert(after[a] == before[a] && after[b] == before[b]);
                            } else if b == p {
                                assert(after[a] == before[a]);
                            } else if a == p {
                                assert(after[b] == before[b - 1]);
                                if p < before.len() {
                                    assert(before[p as int].2 < info.created_at);
                                    assert(before[p as int].2 >= before[b - 1].2 || b - 1 == p);
                                }
                            } else if a < p {
                                assert(after[a] == before[a] && after[b] == before[b - 1]);
                            } else {
                                assert(after[a] == before[a - 1] && after[b] == before[b - 1]);
                            }
                        }
                    }
                },
                Err(_) => {},
            }
            i = i + 1;
        }
        assert(entries@.take(entries@.len() as int) =~= entries@);
        ContentListing { chunks, stats }
    }

    /// Reassemble data from the objects read back for `addresses`, in order:
    /// the first object that is absent or fails verification decides the
    /// error.
    pub fn get_data(&self, addresses: &[ContentAddress], stored: &[Option<Vec<u8>>]) -> (r: Result<Vec<u8>, ContentStoreError>)
        requires
            stored@.len() == addresses@.len(),
        ensures
            r is Ok <==> forall|i: int|
                0 <= i < addresses@.len() ==> object_ok(
                    #[trigger] addresses@[i]@,
                    stored_view(stored@)[i],
                    self.spec_config().verify_on_read,
                ),
            r matches Ok(v) ==> v@ == found_bytes(stored_view(stored@)).flatten(),
            r matches Err(e) ==> exists|k: int|
                0 <= k < addresses@.len() && (forall|i: int|
                    0 <= i < k ==> object_ok(
                        #[trigger] addresses@[i]@,
                        stored_view(stored@)[i],
                        self.spec_config().verify_on_read,
                    )) && !object_ok(addresses@[k]@, stored_view(stored@)[k], self.spec_config().verify_on_read)
                    && failure_for(addresses@[k]@, stored_view(stored@)[k], e),
    {
        let ghost sv = stored_view(stored@);
        let ghost verify = self.spec_config().verify_on_read;
        let n = addresses.len();
        let mut data: Vec<u8> = Vec::new();
        let mut i: usize = 0;
        while i < n
            invariant
                n == addresses@.len(),
                stored@.len() == n,
                sv == stored_view(stored@),
                verify == self.spec_config().verify_on_read,
                i <= n,
                forall|j: int| 0 <= j < i ==> object_ok(#[trigger] addresses@[j]@, sv[j], verify),
                data@ == found_bytes(sv).take(i as int).flatten(),
            decreases n - i,
        {
            let found: Option<&[u8]> = match &stored[i] {
                None => None,
                Some(v) => Some(v.as_slice()),
            };
            assert(opt_view(found) == sv[i as int]);
            match self.get_chunk(&addresses[i], found) {
                Err(e) => {
                    return Err(e);
                },
                Ok(chunk) => {
                    proof {
                        let fb = found_bytes(sv);
                        assert(fb.take(i as int + 1) =~= fb.take(i as int).push(fb[i as int]));
                        fb.take(i as int).lemma_flatten_push(fb[i as int]);
                    }
                    append_bytes(&mut data, chunk.data());
                },
            }
            i = i + 1;
        }
        assert(found_bytes(sv).take(n as int) =~= found_bytes(sv));
        Ok(data)
    }
}

} // verus!

verus! {

/// Storing `data` and reading it back from a store that returns, for each
/// chunk `put_data` gave, the bytes written under its address, yields `data`:
/// every object is accepted and their concatenation is `data`.
pub proof fn lemma_put_get_round_trip(
    data: Seq<u8>,
    pieces: Seq<Seq<u8>>,
    stored: Seq<Option<Seq<u8>>>,
    verify: bool,
)
    requires
        pieces.flatten() == data,
        stored.len() == pieces.len(),
        forall|i: int| 0 <= i < pieces.len() ==> #[trigger] stored[i] == Some(pieces[i]),
    ensures
        forall|i: int| 0 <= i < pieces.len() ==> object_ok(#[trigger] chunk_of(pieces[i]).1, stored[i], verify),
        found_bytes(stored).flatten() == data,
{
    assert(found_bytes(stored) =~= pieces);
}

proof fn lemma_entry_sum_prefix(es: Seq<ObjectEntry>, k: int)
    requires
        0 <= k <= es.len(),
    ensures
        entry_size_sum(es.take(k)) <= entry_size_sum(es),
    decreases es.len() - k,
{
    if k < es.len() {
        lemma_entry_sum_prefix(es, k + 1);
        assert(es.take(k + 1).drop_last() =~= es.take(k));
        assert(es.take(k + 1).last() == es[k]);
    } else {
        assert(es.take(k) =~= es);
    }
}

/// The same bytes get the same address and so the same object path: storing
/// them twice leaves one object.
pub proof fn lemma_same_bytes_one_object(objects_dir: Seq<char>, alg: HashAlgorithm, a: Seq<u8>, b: Seq<u8>)
    requires
        a == b,
    ensures
        object_path(objects_dir, (alg, digest_of(alg, a))) == object_path(objects_dir, (alg, digest_of(alg, b))),
{
}

/// Distinct addresses live at distinct paths: each address has at most one
/// stored object.
pub proof fn lemma_object_paths_distinct(
    objects_dir: Seq<char>,
    a: (HashAlgorithm, Seq<u8>),
    b: (HashAlgorithm, Seq<u8>),
)
    requires
        a.1.len() == 32,
        b.1.len() == 32,
        a != b,
    ensures
        object_path(objects_dir, a) != object_path(objects_dir, b),
{
    let ta = address_text(a);
    let tb = address_text(b);
    crate::address::lemma_text_len(a);
    crate::address::lemma_text_len(b);
    crate::address::lemma_text_round_trip(a.0, a.1);
    crate::address::lemma_text_round_trip(b.0, b.1);
    let sa = ta.subrange(0, 2);
    let sb = tb.subrange(0, 2);
    let ra = ta.subrange(2, 71);
    let rb = tb.subrange(2, 71);
    let ja = join_path(objects_dir, sa);
    let jb = join_path(objects_dir, sb);
    assert(ja.len() == jb.len());
    assert(ja.last() == ta[1] && ta[1] == alg_name(a.0)[1]);
    assert(jb.last() == tb[1] && tb[1] == alg_name(b.0)[1]);
    assert(ja.len() > 0 && ja.last() != '/');
    assert(jb.len() > 0 && jb.last() != '/');
    if object_path(objects_dir, a) == object_path(objects_dir, b) {
        let p = object_path(objects_dir, a);
        assert(p == ja + seq!['/'] + ra);
        assert(p == jb + seq!['/'] + rb);
        assert(ja =~= p.subrange(0, ja.len() as int));
        assert(jb =~= p.subrange(0, jb.len() as int));
        assert(ra =~= p.subrange(ja.len() as int + 1, p.len() as int));
        assert(rb =~= p.subrange(jb.len() as int + 1, p.len() as int));
        assert(sa =~= ja.subrange(ja.len() - 2, ja.len() as int));
        assert(sb =~= jb.subrange(jb.len() - 2, jb.len() as int));
        assert(ta =~= sa + ra);
        assert(tb =~= sb + rb);
        assert(ta == tb);
    }
}

/// With verification on, an object that is read back is accepted only if
/// its bytes hash to its address.
pub proof fn lemma_accepted_bytes_match(a: (HashAlgorithm, Seq<u8>), bytes: Seq<u8>)
    requires
        object_ok(a, Some(bytes), true),
    ensures
        (a.0, digest_of(a.0, bytes)) == a,
{
}

} // verus!
