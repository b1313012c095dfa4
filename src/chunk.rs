//! Splitting a byte buffer into chunks, by content-defined boundaries or by
//! a fixed size.
use vstd::prelude::*;
use vstd::slice::{slice_subrange, slice_to_vec};
use crate::address::{digest_of, sha256_of, ContentAddress, HashAlgorithm};

verus! {

/// Where FastCDC (v2020, normalization level 1) cuts `data`: (offset, length)
/// pairs in order.
pub uninterp spec fn fastcdc_cuts(data: Seq<u8>, min: u32, avg: u32, max: u32) -> Seq<(usize, usize)>;

/// `cuts` splits `0..len` into consecutive non-empty pieces.
pub open spec fn is_partition(cuts: Seq<(usize, usize)>, len: int) -> bool {
    &&& (cuts.len() == 0 <==> len == 0)
    &&& cuts.len() > 0 ==> cuts[0].0 == 0 && cuts.last().0 + cuts.last().1 == len
    &&& forall|i: int| 0 <= i < cuts.len() ==> #[trigger] cuts[i].1 > 0 && cuts[i].0 + cuts[i].1 <= len
    &&& forall|i: int| 0 <= i < cuts.len() - 1 ==> #[trigger] cuts[i + 1].0 == cuts[i].0 + cuts[i].1
}

/// The bounds that FastCDC accepts.
pub open spec fn cdc_bounds(min: int, avg: int, max: int) -> bool {
    &&& 64 <= min <= 1_048_576
    &&& 256 <= avg <= 4_194_304
    &&& 1024 <= max <= 16_777_216
    &&& min <= avg <= max
}

/// Relies on fastcdc::v2020::FastCDC::new and its iterator: the cut points
/// depend on the bytes and the three sizes alone; consecutive non-empty chunks
/// cover the input; no chunk is longer than `max`; a chunk starts a cut only
/// while more than `min` bytes remain, and is then at least `min` rounded
/// down to even long.
#[verifier::external_body]
fn fastcdc_cut(data: &[u8], min: u32, avg: u32, max: u32) -> (r: Vec<(usize, usize)>)
    requires
        cdc_bounds(min as int, avg as int, max as int),
    ensures
        r@ == fastcdc_cuts(data@, min, avg, max),
        is_partition(r@, data@.len() as int),
        forall|i: int| 0 <= i < r@.len() ==> #[trigger] r@[i].1 <= max,
        forall|i: int|
            0 <= i < r@.len() - 1 ==> #[trigger] r@[i].1 >= min - min % 2 && r@[i].0 + min < data@.len(),
        0 < data@.len() <= min ==> r@.len() == 1,
{
    fastcdc::v2020::FastCDC::new(data, min, avg, max).map(|c| (c.offset, c.length)).collect()
}

/// Errors that can occur during chunking.
#[derive(Debug)]
pub enum ChunkerError {
    IoError(std::io::Error),
}

/// Chunking parameters.
#[derive(Debug, Clone, Copy, PartialEq, Eq, Structural)]
pub struct ChunkConfig {
    pub target_size: usize,
    pub min_size: usize,
    pub max_size: usize,
    pub use_content_defined: bool,
}

impl ChunkConfig {
    /// `0 < min_size <= target_size <= max_size`; in content-defined mode the
    /// sizes also lie within the bounds that the boundary detector accepts.
    pub open spec fn wf(&self) -> bool {
        &&& 0 < self.min_size <= self.target_size <= self.max_size
        &&& self.use_content_defined ==> cdc_bounds(
            self.min_size as int,
            self.target_size as int,
            self.max_size as int,
        )
    }
}

impl ChunkConfig {
    /// The default: 8 KiB minimum, 16 KiB target, 24 KiB maximum, content-defined.
    pub open spec fn default_spec() -> ChunkConfig {
        ChunkConfig { min_size: 8192, target_size: 16384, max_size: 24576, use_content_defined: true }
    }
}

impl Default for ChunkConfig {
    fn default() -> (r: Self)
        ensures
            r == ChunkConfig::default_spec(),
    {
        ChunkConfig {
            min_size: 8 * 1024,
            target_size: 16 * 1024,
            max_size: 24 * 1024,
            use_content_defined: true,
        }
    }
}

/// The pieces that `cuts` cut out of `data`.
pub open spec fn pieces_of_cuts(data: Seq<u8>, cuts: Seq<(usize, usize)>) -> Seq<Seq<u8>> {
    Seq::new(cuts.len(), |i: int| data.subrange(cuts[i].0 as int, cuts[i].0 + cuts[i].1))
}

/// Consecutive pieces of `t` bytes, the last one possibly shorter.
pub open spec fn fixed_pieces(data: Seq<u8>, t: nat) -> Seq<Seq<u8>>
    decreases data.len(),
{
    if data.len() == 0 || t == 0 {
        Seq::empty()
    } else if data.len() <= t {
        seq![data]
    } else {
        seq![data.subrange(0, t as int)] + fixed_pieces(data.subrange(t as int, data.len() as int), t)
    }
}

/// The pieces that a chunker with `config` makes of `data`.
pub open spec fn chunk_pieces(config: ChunkConfig, data: Seq<u8>) -> Seq<Seq<u8>> {
    if data.len() == 0 {
        Seq::empty()
    } else if config.use_content_defined {
        pieces_of_cuts(
            data,
            fastcdc_cuts(data, config.min_size as u32, config.target_size as u32, config.max_size as u32),
        )
    } else {
        fixed_pieces(data, config.target_size as nat)
    }
}

/// The size bounds that the pieces keep: in content-defined mode none is
/// longer than `max_size` and all but the last are at least `min_size`
/// rounded down to even; in fixed mode all but the last are `target_size`
/// long and the last is no longer.
pub open spec fn pieces_within(config: ChunkConfig, pieces: Seq<Seq<u8>>) -> bool {
    &&& forall|i: int| 0 <= i < pieces.len() ==> #[trigger] pieces[i].len() > 0
    &&& config.use_content_defined ==> {
        &&& forall|i: int| 0 <= i < pieces.len() ==> #[trigger] pieces[i].len() <= config.max_size
        &&& forall|i: int|
            0 <= i < pieces.len() - 1 ==> #[trigger] pieces[i].len() >= config.min_size - config.min_size % 2
    }
    &&& !config.use_content_defined ==> {
        &&& forall|i: int| 0 <= i < pieces.len() ==> #[trigger] pieces[i].len() <= config.target_size
        &&& forall|i: int| 0 <= i < pieces.len() - 1 ==> #[trigger] pieces[i].len() == config.target_size
    }
}

/// A chunk: bytes and their address.
#[derive(Debug, Clone)]
pub struct Chunk {
    data: Vec<u8>,
    address: ContentAddress,
}

impl View for Chunk {
    type V = (Seq<u8>, (HashAlgorithm, Seq<u8>));

    closed spec fn view(&self) -> (Seq<u8>, (HashAlgorithm, Seq<u8>)) {
        (self.data@, self.address@)
    }
}

/// The chunk that holds `piece`, addressed by its SHA-256 digest.
pub open spec fn chunk_of(piece: Seq<u8>) -> (Seq<u8>, (HashAlgorithm, Seq<u8>)) {
    (piece, (HashAlgorithm::Sha256, sha256_of(piece)))
}

impl Chunk {
    /// Create a chunk from data.
    pub fn new(data: Vec<u8>) -> (r: Chunk)
        ensures
            r@ == chunk_of(data@),
    {
        let address = ContentAddress::from_data(data.as_slice());
        Chunk { data, address }
    }

    /// A chunk whose address is computed with `algorithm`.
    pub fn new_with_algorithm(data: Vec<u8>, algorithm: HashAlgorithm) -> (r: Chunk)
        ensures
            r@ == (data@, (algorithm, digest_of(algorithm, data@))),
    {
        let address = ContentAddress::from_data_with_algorithm(data.as_slice(), algorithm);
        Chunk { data, address }
    }

    /// The chunk's data.
    pub fn data(&self) -> (r: &[u8])
        ensures
            r@ == self@.0,
    {
        self.data.as_slice()
    }

    /// The chunk's address.
    pub fn address(&self) -> (r: &ContentAddress)
        ensures
            r@ == self@.1,
    {
        &self.address
    }
}

/// Splits buffers into chunks.
#[derive(Debug, Clone)]
pub struct Chunker {
    config: ChunkConfig,
}

impl Chunker {
    /// A chunker with the default configuration.
    pub fn new() -> (r: Chunker)
        ensures
            r.config() == ChunkConfig::default_spec(),
    {
        Self::with_config(ChunkConfig::default())
    }

    /// A chunker with the given configuration.
    pub fn with_config(config: ChunkConfig) -> (r: Chunker)
        ensures
            r.config() == config,
    {
        Chunker { config }
    }

    pub closed spec fn config(&self) -> ChunkConfig {
        self.config
    }

    /// The configuration in use.
    pub fn get_config(&self) -> (r: &ChunkConfig)
        ensures
            *r == self.config(),
    {
        &self.config
    }

    /// The chunks that `cuts` cut out of `data`, in order.
    pub fn chunks_from_cuts(data: &[u8], cuts: &Vec<(usize, usize)>) -> (r: Vec<Chunk>)
        requires
            is_partition(cuts@, data@.len() as int),
        ensures
            r@.len() == cuts@.len(),
            forall|i: int| 0 <= i < r@.len() ==> #[trigger] r@[i]@ == chunk_of(pieces_of_cuts(data@, cuts@)[i]),
            pieces_of_cuts(data@, cuts@).flatten() == data@,
    {
        let ghost pieces = pieces_of_cuts(data@, cuts@);
        let ghost len = data@.len() as int;
        let n = cuts.len();
        let dlen = data.len();
        let mut out: Vec<Chunk> = Vec::new();
        let mut i: usize = 0;
        let ghost mut pos: int = 0;
        while i < n
            invariant
                n == cuts@.len(),
                pieces == pieces_of_cuts(data@, cuts@),
                len == data@.len(),
                dlen == len,
                is_partition(cuts@, len),
                i <= n,
                out@.len() == i,
                i < n ==> cuts@[i as int].0 == pos,
                i == n ==> pos == len,
                0 <= pos <= len,
                pieces.take(i as int).flatten() == data@.subrange(0, pos),
                forall|j: int| 0 <= j < i ==> #[trigger] out@[j]@ == chunk_of(pieces[j]),
            decreases n - i,
        {
            let (off, l) = cuts[i];
            assert(cuts@[i as int].1 > 0 && cuts@[i as int].0 + cuts@[i as int].1 <= len);
            assert(off + l <= len);
            let piece = slice_to_vec(slice_subrange(data, off, off + l));
            assert(piece@ == pieces[i as int]);
            proof {
                assert(pieces.take(i as int + 1) =~= pieces.take(i as int).push(pieces[i as int]));
                pieces.take(i as int).lemma_flatten_push(pieces[i as int]);
                assert(data@.subrange(0, pos) + data@.subrange(pos, pos + l) =~= data@.subrange(0, pos + l));
                pos = pos + l;
            }
            out.push(Chunk::new(piece));
            i = i + 1;
        }
        assert(pieces.take(n as int) =~= pieces);
        assert(data@.subrange(0, len) =~= data@);
        out
    }

    fn chunk_data_fastcdc(&self, data: &[u8]) -> (r: Vec<Chunk>)
        requires
            self.config.wf(),
            self.config.use_content_defined,
            data@.len() > 0,
        ensures
            r@.len() == chunk_pieces(self.config, data@).len(),
            forall|i: int|
                0 <= i < r@.len() ==> #[trigger] r@[i]@ == chunk_of(chunk_pieces(self.config, data@)[i]),
            chunk_pieces(self.config, data@).flatten() == data@,
            pieces_within(self.config, chunk_pieces(self.config, data@)),
            data@.len() <= self.config.min_size ==> r@.len() == 1,
    {
        let cuts = fastcdc_cut(
            data,
            self.config.min_size as u32,
            self.config.target_size as u32,
            self.config.max_size as u32,
        );
        let ghost pieces = pieces_of_cuts(data@, cuts@);
        assert forall|i: int| 0 <= i < pieces.len() implies #[trigger] pieces[i].len() == cuts@[i].1 by {
            assert(cuts@[i].1 > 0 && cuts@[i].0 + cuts@[i].1 <= data@.len());
        }
        Self::chunks_from_cuts(data, &cuts)
    }

    fn chunk_data_fixed_size(&self, data: &[u8]) -> (r: Vec<Chunk>)
        requires
            self.config.wf(),
            !self.config.use_content_defined,
            data@.len() > 0,
        ensures
            r@.len() == chunk_pieces(self.config, data@).len(),
            forall|i: int|
                0 <= i < r@.len() ==> #[trigger] r@[i]@ == chunk_of(chunk_pieces(self.config, data@)[i]),
            chunk_pieces(self.config, data@).flatten() == data@,
            pieces_within(self.config, chunk_pieces(self.config, data@)),
            data@.len() <= self.config.min_size ==> r@.len() == 1,
    {
        let t = self.config.target_size;
        let n = data.len();
        let ghost all = fixed_pieces(data@, t as nat);
        proof {
            lemma_fixed_pieces(data@, t as nat);
            assert(data@.subrange(0, n as int) =~= data@);
        }
        let mut out: Vec<Chunk> = Vec::new();
        let mut off: usize = 0;
        while off < n
            invariant
                0 < t,
                n == data@.len(),
                all == fixed_pieces(data@, t as nat),
                off <= n,
                out@.len() + fixed_pieces(data@.subrange(off as int, n as int), t as nat).len() == all.len(),
                forall|j: int| 0 <= j < out@.len() ==> #[trigger] out@[j]@ == chunk_of(all[j]),
                forall|j: int|
                    0 <= j < fixed_pieces(data@.subrange(off as int, n as int), t as nat).len()
                        ==> #[trigger] fixed_pieces(data@.subrange(off as int, n as int), t as nat)[j]
                        == all[out@.len() + j],
            decreases n - off,
        {
            let ghost rest = data@.subrange(off as int, n as int);
            let end = if n - off <= t { n } else { off + t };
            let piece = slice_to_vec(slice_subrange(data, off, end));
            proof {
                if n - off <= t {
                    assert(fixed_pieces(rest, t as nat) == seq![rest]);
                    assert(piece@ =~= rest);
                    assert(data@.subrange(n as int, n as int).len() == 0);
                    assert(fixed_pieces(data@.subrange(n as int, n as int), t as nat).len() == 0);
                } else {
                    let next = data@.subrange((off + t) as int, n as int);
                    assert(rest.subrange(t as int, rest.len() as int) =~= next);
                    assert(rest.subrange(0, t as int) =~= piece@);
                    assert(fixed_pieces(rest, t as nat) == seq![piece@] + fixed_pieces(next, t as nat));
                    assert forall|j: int| 0 <= j < fixed_pieces(next, t as nat).len() implies
                        #[trigger] fixed_pieces(next, t as nat)[j] == all[out@.len() + 1 + j] by {
                        assert(fixed_pieces(rest, t as nat)[j + 1] == fixed_pieces(next, t as nat)[j]);
                    }
                }
                assert(fixed_pieces(rest, t as nat)[0] == piece@);
            }
            out.push(Chunk::new(piece));
            off = end;
        }
        out
    }

    /// Split `data` into chunks, in input order.
    pub fn chunk_data(&self, data: &[u8]) -> (r: Vec<Chunk>)
        requires
            self.config().wf(),
        ensures
            r@.len() == chunk_pieces(self.config(), data@).len(),
            forall|i: int|
                0 <= i < r@.len() ==> #[trigger] r@[i]@ == chunk_of(chunk_pieces(self.config(), data@)[i]),
            chunk_pieces(self.config(), data@).flatten() == data@,
            pieces_within(self.config(), chunk_pieces(self.config(), data@)),
            data@.len() == 0 ==> r@.len() == 0,
            0 < data@.len() <= self.config().min_size ==> r@.len() == 1,
    {
        if data.len() == 0 {
            assert(chunk_pieces(self.config, data@) =~= Seq::<Seq<u8>>::empty());
            assert(data@ =~= Seq::<u8>::empty());
            return Vec::new();
        }
        if self.config.use_content_defined {
            self.chunk_data_fastcdc(data)
        } else {
            self.chunk_data_fixed_size(data)
        }
    }
}

/// Chunking is deterministic: the same configuration and the same bytes
/// give the same pieces, in every run and on every machine.
pub proof fn lemma_chunking_deterministic(config: ChunkConfig, a: Seq<u8>, b: Seq<u8>)
    requires
        a == b,
    ensures
        chunk_pieces(config, a) == chunk_pieces(config, b),
{
}

proof fn lemma_fixed_pieces(data: Seq<u8>, t: nat)
    requires
        t > 0,
    ensures
        fixed_pieces(data, t).flatten() == data,
        forall|i: int| 0 <= i < fixed_pieces(data, t).len() ==> #[trigger] fixed_pieces(data, t)[i].len() > 0
            && fixed_pieces(data, t)[i].len() <= t,
        forall|i: int| 0 <= i < fixed_pieces(data, t).len() - 1 ==> #[trigger] fixed_pieces(data, t)[i].len() == t,
        0 < data.len() <= t ==> fixed_pieces(data, t).len() == 1,
        data.len() == 0 ==> fixed_pieces(data, t).len() == 0,
    decreases data.len(),
{
    let p = fixed_pieces(data, t);
    if data.len() == 0 {
    } else if data.len() <= t {
        p.lemma_flatten_singleton();
    } else {
        let head = data.subrange(0, t as int);
        let tail = data.subrange(t as int, data.len() as int);
        lemma_fixed_pieces(tail, t);
        let q = fixed_pieces(tail, t);
        assert(p == seq![head] + q);
        assert(p.drop_first() =~= q);
        assert(p.flatten() == head + q.flatten());
        assert(head + tail =~= data);
        assert forall|i: int| 0 <= i < p.len() implies #[trigger] p[i].len() > 0 && p[i].len() <= t by {
            if i > 0 {
                assert(p[i] == q[i - 1]);
            }
        }
        assert forall|i: int| 0 <= i < p.len() - 1 implies #[trigger] p[i].len() == t by {
            if i > 0 {
                assert(p[i] == q[i - 1]);
            }
        }
    }
}

} // verus!
