//! The file registry: logical files, each a 128-bit identifier with its
//! original name, ordered chunk addresses, size and creation time. Reading
//! and writing the backing file is the caller's part.
use vstd::prelude::*;
use vstd::arithmetic::power::pow;
use vstd::string::StringSliceAdditionalSpecFns;
use vstd::utf8::encode_utf8;
use crate::address::{hex_char, ContentAddress, HashAlgorithm};
use crate::text::{decimal, decimal_text, join, join_path};

verus! {

/// A file identifier: the 128 bits of a version-4 UUID.
pub type FileId = u128;

/// Relies on uuid::Uuid::new_v4 (read back with as_u128): random bits with
/// the version nibble set to 4.
#[verifier::external_body]
fn new_file_id() -> (r: u128)
    ensures
        (r >> 76u128) & 0xfu128 == 4,
{
    uuid::Uuid::new_v4().as_u128()
}

/// Relies on std::time::SystemTime::now: seconds since the Unix epoch, or 0
/// where the clock stands before it.
#[verifier::external_body]
pub(crate) fn unix_now() -> (r: u64) {
    match std::time::SystemTime::now().duration_since(std::time::UNIX_EPOCH) {
        Ok(d) => d.as_secs(),
        Err(_) => 0,
    }
}

/// The `k`-th hexadecimal digit of `id`, most significant first.
pub open spec fn nibble(id: u128, k: int) -> int {
    (id as int / pow(16, (31 - k) as nat)) % 16
}

/// Digits `from..to` of `id` in lowercase hexadecimal.
pub open spec fn id_digits(id: u128, from: int, to: int) -> Seq<char> {
    Seq::new((to - from) as nat, |k: int| hex_char(nibble(id, from + k)))
}

/// The hyphenated lowercase form of a UUID: 8-4-4-4-12 digits.
pub open spec fn uuid_text(id: u128) -> Seq<char> {
    id_digits(id, 0, 8) + seq!['-'] + id_digits(id, 8, 12) + seq!['-'] + id_digits(id, 12, 16)
        + seq!['-'] + id_digits(id, 16, 20) + seq!['-'] + id_digits(id, 20, 32)
}

/// The short id of a file: the first 8 hexadecimal digits of its identifier.
pub open spec fn short_id_of(id: u128) -> Seq<char> {
    id_digits(id, 0, 8)
}

/// Relies on uuid::Uuid::from_u128 and its `Display`: the hyphenated
/// lowercase form, most significant digit first.
#[verifier::external_body]
pub(crate) fn uuid_string(id: u128) -> (r: String)
    ensures
        r@ == uuid_text(id),
{
    uuid::Uuid::from_u128(id).to_string()
}

/// What a file's metadata holds, as values.
pub struct FileRecord {
    pub id: FileId,
    pub original_name: Seq<char>,
    pub chunk_addresses: Seq<(HashAlgorithm, Seq<u8>)>,
    pub total_size: u64,
    pub created_at: u64,
    pub chunk_count: usize,
}

/// Metadata of a registered file.
#[derive(Debug)]
pub struct FileMetadata {
    pub id: FileId,
    pub original_name: String,
    pub chunk_addresses: Vec<ContentAddress>,
    pub total_size: u64,
    /// Unix timestamp, in seconds.
    pub created_at: u64,
    pub chunk_count: usize,
}

impl View for FileMetadata {
    type V = FileRecord;

    open spec fn view(&self) -> FileRecord {
        FileRecord {
            id: self.id,
            original_name: self.original_name@,
            chunk_addresses: self.chunk_addresses@.map_values(|a: ContentAddress| a@),
            total_size: self.total_size,
            created_at: self.created_at,
            chunk_count: self.chunk_count,
        }
    }
}

impl FileMetadata {
    /// A copy with the same values.
    pub fn duplicate(&self) -> (r: FileMetadata)
        ensures
            r@ == self@,
    {
        let mut addrs: Vec<ContentAddress> = Vec::new();
        let mut i: usize = 0;
        while i < self.chunk_addresses.len()
            invariant
                i <= self.chunk_addresses@.len(),
                addrs@.len() == i,
                forall|j: int| 0 <= j < i ==> #[trigger] addrs@[j]@ == self.chunk_addresses@[j]@,
            decreases self.chunk_addresses@.len() - i,
        {
            addrs.push(self.chunk_addresses[i]);
            i = i + 1;
        }
        let r = FileMetadata {
            id: self.id,
            original_name: self.original_name.clone(),
            chunk_addresses: addrs,
            total_size: self.total_size,
            created_at: self.created_at,
            chunk_count: self.chunk_count,
        };
        assert(r@.chunk_addresses =~= self@.chunk_addresses);
        r
    }

    /// `chunk_count` is the number of chunk addresses.
    pub open spec fn wf(&self) -> bool {
        self.chunk_count == self.chunk_addresses@.len()
    }

    /// Metadata with a given identifier and creation time.
    pub fn with_id(
        id: FileId,
        original_name: String,
        chunk_addresses: Vec<ContentAddress>,
        total_size: u64,
        created_at: u64,
    ) -> (r: FileMetadata)
        ensures
            r.wf(),
            r.id == id,
            r.original_name@ == original_name@,
            r.chunk_addresses@ == chunk_addresses@,
            r.total_size == total_size,
            r.created_at == created_at,
            r@.chunk_count == chunk_addresses@.len(),
    {
        let chunk_count = chunk_addresses.len();
        FileMetadata { id, original_name, chunk_addresses, total_size, created_at, chunk_count }
    }

    /// Metadata with a fresh random identifier, created now.
    pub fn new(original_name: String, chunk_addresses: Vec<ContentAddress>, total_size: u64) -> (r: FileMetadata)
        ensures
            r.wf(),
            r.original_name@ == original_name@,
            r.chunk_addresses@ == chunk_addresses@,
            r.total_size == total_size,
    {
        let id = new_file_id();
        let created_at = unix_now();
        Self::with_id(id, original_name, chunk_addresses, total_size, created_at)
    }

    /// The creation time, as `"<secs> seconds since epoch"`.
    pub fn created_time_string(&self) -> (r: String)
        ensures
            r@ == decimal(self.created_at as nat) + " seconds since epoch"@,
    {
        let mut s = decimal_text(self.created_at);
        s.append(" seconds since epoch");
        s
    }

    /// The first 8 hexadecimal digits of the identifier.
    pub fn short_id(&self) -> (r: String)
        ensures
            r@ == short_id_of(self.id),
    {
        let text = uuid_string(self.id);
        assert(uuid_text(self.id).subrange(0, 8) =~= id_digits(self.id, 0, 8));
        text.as_str().substring_char(0, 8).to_owned()
    }
}

/// `p` occurs in `s` at some position.
pub open spec fn bytes_contain(s: Seq<u8>, p: Seq<u8>) -> bool {
    exists|i: int| 0 <= i <= s.len() - p.len() && #[trigger] s.subrange(i, i + p.len()) == p
}

/// Whether `p` occurs in `s`.
fn contains_bytes(s: &[u8], p: &[u8]) -> (r: bool)
    ensures
        r == bytes_contain(s@, p@),
{
    let n = s.len();
    let m = p.len();
    if m > n {
        return false;
    }
    let mut i: usize = 0;
    while i <= n - m
        invariant
            m <= n,
            n == s@.len(),
            m == p@.len(),
            forall|k: int| 0 <= k < i ==> #[trigger] s@.subrange(k, k + m) != p@,
        decreases n - m + 1 - i,
    {
        let mut j: usize = 0;
        let mut same = true;
        while j < m
            invariant
                i <= n - m,
                m <= n,
                n == s@.len(),
                m == p@.len(),
                j <= m,
                same == forall|t: int| 0 <= t < j ==> s@[i + t] == p@[t],
            decreases m - j,
        {
            if s[i + j] != p[j] {
                same = false;
            }
            j = j + 1;
        }
        if same {
            assert(s@.subrange(i as int, i + m) =~= p@);
            return true;
        }
        assert(s@.subrange(i as int, i + m) != p@) by {
            let k = choose|t: int| 0 <= t < m && s@[i + t] != p@[t];
            assert(s@.subrange(i as int, i + m)[k] == s@[i + k]);
        }
        i = i + 1;
    }
    false
}

/// The files whose original name holds `p`, in order.
pub open spec fn named_like(files: Seq<FileRecord>, p: Seq<u8>) -> Seq<FileRecord>
    decreases files.len(),
{
    if files.len() == 0 {
        Seq::empty()
    } else {
        let prev = named_like(files.drop_last(), p);
        if bytes_contain(encode_utf8(files.last().original_name), p) {
            prev.push(files.last())
        } else {
            prev
        }
    }
}

/// The sum of the files' sizes.
pub open spec fn size_sum(files: Seq<FileRecord>) -> int
    decreases files.len(),
{
    if files.len() == 0 {
        0
    } else {
        size_sum(files.drop_last()) + files.last().total_size
    }
}

/// No identifier appears twice.
pub open spec fn unique_ids(files: Seq<FileRecord>) -> bool {
    forall|i: int, j: int| 0 <= i < j < files.len() ==> #[trigger] files[i].id != #[trigger] files[j].id
}

/// The files after registering `m`: it replaces an entry with its
/// identifier, or is appended.
pub open spec fn registered(files: Seq<FileRecord>, m: FileRecord) -> Seq<FileRecord> {
    match FileRegistry::index_of(files, m.id) {
        Some(i) => files.update(i, m),
        None => files.push(m),
    }
}

/// Whether `id` stands in `files`.
pub open spec fn has_id(files: Seq<FileRecord>, id: FileId) -> bool {
    exists|i: int| 0 <= i < files.len() && #[trigger] files[i].id == id
}

/// Registry of file-level metadata. Its iteration order is the order in
/// which files were first registered.
#[derive(Debug)]
pub struct FileRegistry {
    registry_path: String,
    files: Vec<FileMetadata>,
}

impl FileRegistry {
    pub closed spec fn files(&self) -> Seq<FileRecord> {
        self.files@.map_values(|m: FileMetadata| m@)
    }

    pub closed spec fn spec_registry_path(&self) -> Seq<char> {
        self.registry_path@
    }

    /// No identifier appears twice.
    pub open spec fn wf(&self) -> bool {
        unique_ids(self.files())
    }

    /// An empty registry whose backing file is `<storage_dir>/file_registry.json`.
    pub fn new(storage_dir: &str) -> (r: FileRegistry)
        ensures
            r.wf(),
            r.files().len() == 0,
            r.spec_registry_path() == join_path(storage_dir@, "file_registry.json"@),
    {
        let registry_path = join(storage_dir, "file_registry.json");
        FileRegistry { registry_path, files: Vec::new() }
    }

    /// A registry holding `files` as loaded from its backing file; of two
    /// entries with one identifier the later one stands.
    pub fn from_files(storage_dir: &str, files: Vec<FileMetadata>) -> (r: FileRegistry)
        ensures
            r.wf(),
            r.spec_registry_path() == join_path(storage_dir@, "file_registry.json"@),
            forall|id: FileId| has_id(r.files(), id) <==> has_id(files@.map_values(|m: FileMetadata| m@), id),
            unique_ids(files@.map_values(|m: FileMetadata| m@)) ==> r.files() == files@.map_values(
                |m: FileMetadata| m@,
            ),
    {
        let mut reg = Self::new(storage_dir);
        let ghost all = files@.map_values(|m: FileMetadata| m@);
        let ghost orig = files@;
        let mut rest = files;
        let n = rest.len();
        let mut k: usize = 0;
        while k < n
            invariant
                reg.wf(),
                reg.spec_registry_path() == join_path(storage_dir@, "file_registry.json"@),
                n == all.len(),
                k <= n,
                all == orig.map_values(|m: FileMetadata| m@),
                rest@ == orig.subrange(k as int, n as int),
                forall|id: FileId| has_id(reg.files(), id) <==> has_id(all.take(k as int), id),
                unique_ids(all) ==> reg.files() == all.take(k as int),
            decreases n - k,
        {
            let m = rest.remove(0);
            assert(m@ == all[k as int]);
            assert(rest@ =~= orig.subrange(k + 1, n as int));
            let ghost before = reg.files();
            reg.insert(m);
            proof {
                if unique_ids(all) {
                    if has_id(before, m@.id) {
                        let j = choose|j: int| 0 <= j < before.len() && #[trigger] before[j].id == m@.id;
                        assert(all[j].id == all[k as int].id);
                    }
                    assert(reg.files() =~= all.take(k as int + 1));
                }
                assert(all.take(k as int + 1) =~= all.take(k as int).push(all[k as int]));
                assert forall|id: FileId| has_id(reg.files(), id) <==> has_id(all.take(k as int + 1), id) by {
                    let t = all.take(k as int + 1);
                    if id == m.id {
                        assert(t[k as int].id == id);
                    }
                    if has_id(t, id) {
                        let i = choose|i: int| 0 <= i < t.len() && t[i].id == id;
                        if i < k {
                            assert(all.take(k as int)[i].id == id);
                        }
                    }
                    if has_id(all.take(k as int), id) {
                        let i = choose|i: int| 0 <= i < k && all.take(k as int)[i].id == id;
                        assert(t[i].id == id);
                    }
                }
            }
            k = k + 1;
        }
        assert(all.take(n as int) =~= all);
        reg
    }

    /// Put `m` in: it replaces an entry with its identifier, or is appended.
    fn insert(&mut self, m: FileMetadata)
        requires
            old(self).wf(),
        ensures
            final(self).wf(),
            final(self).spec_registry_path() == old(self).spec_registry_path(),
            match Self::index_of(old(self).files(), m.id) {
                Some(i) => final(self).files() == old(self).files().update(i, m@),
                None => final(self).files() == old(self).files().push(m@),
            },
            forall|id: FileId| has_id(final(self).files(), id) <==> (has_id(old(self).files(), id) || id == m.id),
    {
        let ghost old_files = self.files();
        let ghost mv = m@;
        match self.position(m.id) {
            Some(i) => {
                self.files.set(i, m);
                proof {
                    assert(self.files() =~= old_files.update(i as int, mv));
                    assert forall|id: FileId| has_id(self.files(), id) <==> (has_id(old_files, id) || id == mv.id) by {
                        if has_id(old_files, id) {
                            let j = choose|j: int| 0 <= j < old_files.len() && #[trigger] old_files[j].id == id;
                            assert(self.files()[j].id == id);
                        }
                        if id == mv.id {
                            assert(self.files()[i as int].id == id);
                        }
                        if has_id(self.files(), id) {
                            let j = choose|j: int| 0 <= j < self.files().len() && #[trigger] self.files()[j].id == id;
                            if j != i {
                                assert(old_files[j].id == id);
                            }
                        }
                    }
                }
            },
            None => {
                self.files.push(m);
                proof {
                    assert(self.files() =~= old_files.push(mv));
                    assert forall|id: FileId| has_id(self.files(), id) <==> (has_id(old_files, id) || id == mv.id) by {
                        if has_id(old_files, id) {
                            let j = choose|j: int| 0 <= j < old_files.len() && #[trigger] old_files[j].id == id;
                            assert(self.files()[j].id == id);
                        }
                        if id == mv.id {
                            assert(self.files()[old_files.len() as int].id == id);
                        }
                        if has_id(self.files(), id) {
                            let j = choose|j: int| 0 <= j < self.files().len() && #[trigger] self.files()[j].id == id;
                            if j < old_files.len() {
                                assert(old_files[j].id == id);
                            }
                        }
                    }
                    assert forall|a: int, b: int| 0 <= a < b < self.files().len() implies
                        #[trigger] self.files()[a].id != #[trigger] self.files()[b].id by {
                        if b == old_files.len() {
                            assert(old_files[a].id == self.files()[a].id);
                            assert(!has_id(old_files, mv.id));
                        }
                    }
                }
            },
        }
    }

    /// The position of the entry with `id`.
    pub open spec fn index_of(files: Seq<FileRecord>, id: FileId) -> Option<int> {
        if has_id(files, id) {
            Some(choose|i: int| 0 <= i < files.len() && #[trigger] files[i].id == id)
        } else {
            None
        }
    }

    fn position(&self, id: FileId) -> (r: Option<usize>)
        requires
            self.wf(),
        ensures
            match r {
                Some(i) => Self::index_of(self.files(), id) == Some(i as int) && self.files()[i as int].id == id,
                None => Self::index_of(self.files(), id) is None,
            },
    {
        let ghost fs = self.files();
        let mut i: usize = 0;
        while i < self.files.len()
            invariant
                self.wf(),
                fs == self.files(),
                fs.len() == self.files@.len(),
                i <= self.files@.len(),
                forall|j: int| 0 <= j < i ==> #[trigger] fs[j].id != id,
            decreases self.files@.len() - i,
        {
            assert(fs[i as int].id == self.files@[i as int].id);
            if self.files[i].id == id {
                let ghost c = choose|j: int| 0 <= j < fs.len() && #[trigger] fs[j].id == id;
                assert(c == i) by {
                    if c > i {
                        assert(fs[i as int].id != fs[c].id);
                    }
                }
                return Some(i);
            }
            i = i + 1;
        }
        None
    }

    /// The backing file's path.
    pub fn registry_path(&self) -> (r: &str)
        ensures
            r@ == self.spec_registry_path(),
    {
        self.registry_path.as_str()
    }

    /// Register a new file under a fresh identifier, created now, and return
    /// its metadata; the caller then persists the registry.
    pub fn register_file(
        &mut self,
        original_name: String,
        chunk_addresses: Vec<ContentAddress>,
        total_size: u64,
    ) -> (r: FileMetadata)
        requires
            old(self).wf(),
        ensures
            final(self).wf(),
            r.wf(),
            r.original_name@ == original_name@,
            r.chunk_addresses@ == chunk_addresses@,
            r.total_size == total_size,
            final(self).spec_registry_path() == old(self).spec_registry_path(),
            final(self).files() == registered(old(self).files(), r@),
    {
        let metadata = FileMetadata::new(original_name, chunk_addresses, total_size);
        self.insert(metadata.duplicate());
        metadata
    }

    /// The metadata of the file with `file_id`.
    pub fn get_file(&self, file_id: &FileId) -> (r: Option<&FileMetadata>)
        requires
            self.wf(),
        ensures
            match Self::index_of(self.files(), *file_id) {
                Some(i) => r matches Some(m) && m@ == self.files()[i],
                None => r is None,
            },
    {
        match self.position(*file_id) {
            Some(i) => Some(&self.files[i]),
            None => None,
        }
    }

    /// The first file, in iteration order, whose short id is `short_id`.
    /// Distinct files may share a short id: it holds 32 bits only.
    pub fn get_file_by_short_id(&self, short_id: &str) -> (r: Option<&FileMetadata>)
        ensures
            match r {
                Some(m) => exists|i: int|
                    0 <= i < self.files().len() && self.files()[i] == m@ && short_id_of(m.id) == short_id@
                        && forall|j: int| 0 <= j < i ==> short_id_of(#[trigger] self.files()[j].id) != short_id@,
                None => forall|j: int|
                    0 <= j < self.files().len() ==> short_id_of(#[trigger] self.files()[j].id) != short_id@,
            },
    {
        let ghost fs = self.files();
        let mut i: usize = 0;
        while i < self.files.len()
            invariant
                fs == self.files(),
                fs.len() == self.files@.len(),
                i <= self.files@.len(),
                forall|j: int| 0 <= j < i ==> short_id_of(#[trigger] fs[j].id) != short_id@,
            decreases self.files@.len() - i,
        {
            let s = self.files[i].short_id();
            assert(fs[i as int] == self.files@[i as int]@);
            if crate::text::str_eq(s.as_str(), short_id) {
                return Some(&self.files[i]);
            }
            i = i + 1;
        }
        None
    }

    /// Remove the file with `file_id`, returning its metadata; the caller
    /// persists the registry where something was removed.
    pub fn remove_file(&mut self, file_id: &FileId) -> (r: Option<FileMetadata>)
        requires
            old(self).wf(),
        ensures
            final(self).wf(),
            final(self).spec_registry_path() == old(self).spec_registry_path(),
            match Self::index_of(old(self).files(), *file_id) {
                Some(i) => r matches Some(m) && m@ == old(self).files()[i]
                    && final(self).files() == old(self).files().remove(i),
                None => r is None && final(self).files() == old(self).files(),
            },
    {
        let ghost old_files = self.files();
        match self.position(*file_id) {
            Some(i) => {
                let m = self.files.remove(i);
                proof {
                    assert(self.files() =~= old_files.remove(i as int));
                    assert forall|a: int, b: int| 0 <= a < b < self.files().len() implies
                        #[trigger] self.files()[a].id != #[trigger] self.files()[b].id by {
                        let a2 = if a < i { a } else { a + 1 };
                        let b2 = if b < i { b } else { b + 1 };
                        assert(self.files()[a] == old_files[a2]);
                        assert(self.files()[b] == old_files[b2]);
                    }
                }
                Some(m)
            },
            None => None,
        }
    }

    /// All registered files, in iteration order.
    pub fn list_files(&self) -> (r: Vec<&FileMetadata>)
        ensures
            r@.len() == self.files().len(),
            forall|i: int| 0 <= i < r@.len() ==> (#[trigger] r@[i])@ == self.files()[i],
    {
        let mut out: Vec<&FileMetadata> = Vec::new();
        let mut i: usize = 0;
        while i < self.files.len()
            invariant
                i <= self.files@.len(),
                out@.len() == i,
                forall|j: int| 0 <= j < i ==> (#[trigger] out@[j])@ == self.files()[j],
            decreases self.files@.len() - i,
        {
            out.push(&self.files[i]);
            i = i + 1;
        }
        out
    }

    /// The number of registered files.
    pub fn file_count(&self) -> (r: usize)
        ensures
            r == self.files().len(),
    {
        self.files.len()
    }

    /// The files whose original name holds `name_pattern`, in iteration order.
    pub fn find_files_by_name(&self, name_pattern: &str) -> (r: Vec<&FileMetadata>)
        ensures
            r@.len() == named_like(self.files(), name_pattern.spec_bytes()).len(),
            forall|i: int|
                0 <= i < r@.len() ==> (#[trigger] r@[i])@ == named_like(self.files(), name_pattern.spec_bytes())[i],
    {
        let ghost fs = self.files();
        let ghost p = name_pattern.spec_bytes();
        let pat = name_pattern.as_bytes();
        let mut out: Vec<&FileMetadata> = Vec::new();
        let mut i: usize = 0;
        while i < self.files.len()
            invariant
                fs == self.files(),
                fs.len() == self.files@.len(),
                pat@ == p,
                i <= self.files@.len(),
                out@.len() == named_like(fs.take(i as int), p).len(),
                forall|j: int| 0 <= j < out@.len() ==> (#[trigger] out@[j])@ == named_like(fs.take(i as int), p)[j],
            decreases self.files@.len() - i,
        {
            let m = &self.files[i];
            assert(fs.take(i as int + 1).drop_last() =~= fs.take(i as int));
            assert(fs[i as int] == m@);
            if contains_bytes(m.original_name.as_str().as_bytes(), pat) {
                out.push(m);
            }
            i = i + 1;
        }
        assert(fs.take(fs.len() as int) =~= fs);
        out
    }

    /// The sum of the registered files' sizes.
    pub fn total_size(&self) -> (r: u64)
        requires
            size_sum(self.files()) <= u64::MAX,
        ensures
            r == size_sum(self.files()),
    {
        let ghost fs = self.files();
        let mut sum: u64 = 0;
        let mut i: usize = 0;
        while i < self.files.len()
            invariant
                fs == self.files(),
                fs.len() == self.files@.len(),
                size_sum(fs) <= u64::MAX,
                i <= self.files@.len(),
                sum == size_sum(fs.take(i as int)),
            decreases self.files@.len() - i,
        {
            assert(fs.take(i as int + 1).drop_last() =~= fs.take(i as int));
            assert(fs[i as int] == self.files@[i as int]@);
            proof {
                lemma_size_sum_prefix(fs, i as int + 1);
            }
            sum = sum + self.files[i].total_size;
            i = i + 1;
        }
        assert(fs.take(fs.len() as int) =~= fs);
        sum
    }
}

/// After `register_file` returns `m`, `get_file(m.id)` finds `m`, and
/// `get_file_by_short_id(m.short_id())` finds `m` where no other file's
/// identifier shares its first 32 bits; a registry rebuilt from the listed
/// files, as after a restart, holds the same files.
pub proof fn lemma_register_then_lookup(files: Seq<FileRecord>, m: FileRecord)
    requires
        unique_ids(files),
    ensures
        unique_ids(registered(files, m)),
        FileRegistry::index_of(registered(files, m), m.id) matches Some(j) && registered(files, m)[j] == m,
        (forall|i: int|
            0 <= i < files.len() && #[trigger] short_id_of(files[i].id) == short_id_of(m.id) ==> files[i].id
                == m.id) ==> exists|i: int|
            0 <= i < registered(files, m).len() && registered(files, m)[i] == m && forall|j: int|
                0 <= j < i ==> short_id_of(#[trigger] registered(files, m)[j].id) != short_id_of(m.id),
{
    let r = registered(files, m);
    let pos = if has_id(files, m.id) {
        let i = choose|i: int| 0 <= i < files.len() && #[trigger] files[i].id == m.id;
        i
    } else {
        files.len() as int
    };
    assert(r[pos] == m);
    assert(has_id(r, m.id));
    assert forall|a: int, b: int| 0 <= a < b < r.len() implies #[trigger] r[a].id != #[trigger] r[b].id by {
        if b == pos && !has_id(files, m.id) {
            assert(files[a].id == r[a].id);
        }
        if has_id(files, m.id) && (a == pos || b == pos) {
            let o = if a == pos { b } else { a };
            assert(files[o].id != files[pos].id);
        }
    }
    let j = choose|j: int| 0 <= j < r.len() && #[trigger] r[j].id == m.id;
    assert(j == pos);
    if forall|i: int|
        0 <= i < files.len() && #[trigger] short_id_of(files[i].id) == short_id_of(m.id) ==> files[i].id == m.id {
        assert forall|t: int| 0 <= t < pos implies short_id_of(#[trigger] r[t].id) != short_id_of(m.id) by {
            assert(r[t] == files[t]);
            assert(files[t].id != files[pos].id || !has_id(files, m.id));
            if short_id_of(files[t].id) == short_id_of(m.id) {
                assert(files[t].id == m.id);
                assert(has_id(files, m.id));
            }
        }
    }
}

/// A prefix's sizes sum to no more than the whole.
proof fn lemma_size_sum_prefix(fs: Seq<FileRecord>, k: int)
    requires
        0 <= k <= fs.len(),
    ensures
        size_sum(fs.take(k)) <= size_sum(fs),
    decreases fs.len() - k,
{
    if k < fs.len() {
        lemma_size_sum_prefix(fs, k + 1);
        assert(fs.take(k + 1).drop_last() =~= fs.take(k));
        assert(fs.take(k + 1).last() == fs[k]);
        assert(size_sum(fs.take(k + 1)) == size_sum(fs.take(k)) + fs[k].total_size);
    } else {
        assert(fs.take(k) =~= fs);
    }
}

} // verus!
