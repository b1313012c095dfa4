//! Content addresses: an algorithm tag and a 32-byte digest, with the textual
//! form `"<alg>:<hex>"`.
use vstd::prelude::*;
use sha2::Digest;
use vstd::string::StringSliceAdditionalSpecFns;
use vstd::utf8::{encode_utf8, is_ascii_chars, is_ascii_chars_encode_utf8};

verus! {

/// The digest of SHA-256 over the bytes.
pub uninterp spec fn sha256_of(data: Seq<u8>) -> Seq<u8>;

/// The digest of BLAKE3 over the bytes.
pub uninterp spec fn blake3_of(data: Seq<u8>) -> Seq<u8>;

/// Relies on sha2::Sha256 (update, then finalize): a 32-byte digest that depends on the bytes alone.
#[verifier::external_body]
fn sha256_digest(data: &[u8]) -> (r: [u8; 32])
    ensures
        r@ == sha256_of(data@),
{
    let mut hasher = sha2::Sha256::new();
    hasher.update(data);
    hasher.finalize().into()
}

/// Relies on blake3::hash: a 32-byte digest that depends on the bytes alone.
#[verifier::external_body]
fn blake3_digest(data: &[u8]) -> (r: [u8; 32])
    ensures
        r@ == blake3_of(data@),
{
    *blake3::hash(data).as_bytes()
}

/// Hash algorithm used for content addressing.
#[derive(Debug, Clone, Copy, PartialEq, Eq, Hash, Structural)]
pub enum HashAlgorithm {
    Sha256,
    Blake3,
}

impl Default for HashAlgorithm {
    fn default() -> (r: Self)
        ensures
            r == HashAlgorithm::Sha256,
    {
        HashAlgorithm::Sha256
    }
}

impl HashAlgorithm {
    /// The lowercase name: `"sha256"` or `"blake3"`.
    pub fn as_str(&self) -> (r: &'static str)
        ensures
            r@ == alg_name(*self),
    {
        proof {
            reveal_strlit("sha256");
            reveal_strlit("blake3");
        }
        match self {
            HashAlgorithm::Sha256 => "sha256",
            HashAlgorithm::Blake3 => "blake3",
        }
    }
}

/// The digest that `alg` computes over `data`.
pub open spec fn digest_of(alg: HashAlgorithm, data: Seq<u8>) -> Seq<u8> {
    match alg {
        HashAlgorithm::Sha256 => sha256_of(data),
        HashAlgorithm::Blake3 => blake3_of(data),
    }
}

/// The lowercase name of an algorithm, as it stands in the textual form.
pub open spec fn alg_name(alg: HashAlgorithm) -> Seq<char> {
    match alg {
        HashAlgorithm::Sha256 => seq!['s', 'h', 'a', '2', '5', '6'],
        HashAlgorithm::Blake3 => seq!['b', 'l', 'a', 'k', 'e', '3'],
    }
}

/// The lowercase hexadecimal digit of `d` (below 16).
pub open spec fn hex_char(d: int) -> char {
    if d == 0 { '0' } else if d == 1 { '1' } else if d == 2 { '2' } else if d == 3 { '3' }
    else if d == 4 { '4' } else if d == 5 { '5' } else if d == 6 { '6' } else if d == 7 { '7' }
    else if d == 8 { '8' } else if d == 9 { '9' } else if d == 10 { 'a' } else if d == 11 { 'b' }
    else if d == 12 { 'c' } else if d == 13 { 'd' } else if d == 14 { 'e' } else { 'f' }
}

/// Two lowercase hexadecimal digits for each byte, high nibble first.
pub open spec fn hex_text(b: Seq<u8>) -> Seq<char> {
    Seq::new(
        2 * b.len(),
        |k: int|
            if k % 2 == 0 {
                hex_char(b[k / 2] as int / 16)
            } else {
                hex_char(b[k / 2] as int % 16)
            },
    )
}

/// Whether a byte is a hexadecimal digit of either case.
pub open spec fn is_hex_byte(c: u8) -> bool {
    (48 <= c <= 57) || (65 <= c <= 70) || (97 <= c <= 102)
}

/// The value of a hexadecimal digit byte.
pub open spec fn hex_val(c: u8) -> int {
    if 48 <= c <= 57 {
        c - 48
    } else if 65 <= c <= 70 {
        c - 55
    } else {
        c - 87
    }
}

pub open spec fn all_hex(b: Seq<u8>) -> bool {
    forall|i: int| 0 <= i < b.len() ==> is_hex_byte(#[trigger] b[i])
}

/// The bytes that an even-length run of hexadecimal digits stands for.
pub open spec fn hex_decoded(b: Seq<u8>) -> Seq<u8> {
    Seq::new(b.len() / 2, |i: int| (hex_val(b[2 * i]) * 16 + hex_val(b[2 * i + 1])) as u8)
}

/// Relies on hex::encode: two lowercase digits per byte, high nibble first.
#[verifier::external_body]
fn hex_encode(b: &[u8; 32]) -> (r: String)
    ensures
        r@ == hex_text(b@),
{
    hex::encode(b)
}

/// Relies on hex::decode: it succeeds exactly on an even number of digits of
/// either case, and reads each pair high nibble first.
#[verifier::external_body]
fn hex_decode(b: &[u8]) -> (r: Result<Vec<u8>, hex::FromHexError>)
    ensures
        r is Ok <==> (b@.len() % 2 == 0 && all_hex(b@)),
        r matches Ok(v) ==> v@ == hex_decoded(b@),
{
    hex::decode(b)
}

#[verifier::external_type_specification]
#[verifier::external_body]
pub struct ExFromHexError(hex::FromHexError);

/// Content address based on a cryptographic hash.
#[derive(Debug, Clone, Copy, Hash)]
pub struct ContentAddress {
    hash: [u8; 32],
    algorithm: HashAlgorithm,
}

impl View for ContentAddress {
    type V = (HashAlgorithm, Seq<u8>);

    closed spec fn view(&self) -> (HashAlgorithm, Seq<u8>) {
        (self.algorithm, self.hash@)
    }
}

impl PartialEq for ContentAddress {
    fn eq(&self, o: &ContentAddress) -> (r: bool)
        ensures
            r == (self@ == o@),
    {
        if self.algorithm != o.algorithm {
            return false;
        }
        let mut i: usize = 0;
        while i < 32
            invariant
                i <= 32,
                forall|j: int| 0 <= j < i ==> self.hash@[j] == o.hash@[j],
            decreases 32 - i,
        {
            if self.hash[i] != o.hash[i] {
                return false;
            }
            i = i + 1;
        }
        assert(self.hash@ =~= o.hash@);
        true
    }
}

impl vstd::std_specs::cmp::PartialEqSpecImpl for ContentAddress {
    open spec fn obeys_eq_spec() -> bool {
        true
    }

    open spec fn eq_spec(&self, o: &ContentAddress) -> bool {
        self@ == o@
    }
}

impl Eq for ContentAddress {
}

/// The textual form of an address: `"<alg>:<hex>"`.
pub open spec fn address_text(a: (HashAlgorithm, Seq<u8>)) -> Seq<char> {
    alg_name(a.0) + seq![':'] + hex_text(a.1)
}

/// Errors that can occur when working with content addresses.
#[derive(Debug, Clone, Copy, PartialEq, Eq, Structural)]
pub enum ContentAddressError {
    InvalidFormat,
    UnsupportedAlgorithm,
    InvalidHex,
    InvalidHashLength,
}

impl ContentAddressError {
    /// A description of the error.
    pub fn message(&self) -> (r: &'static str)
        ensures
            r@ == match self {
                ContentAddressError::InvalidFormat => "Invalid content address format"@,
                ContentAddressError::UnsupportedAlgorithm => "Unsupported hash algorithm"@,
                ContentAddressError::InvalidHex => "Invalid hexadecimal encoding"@,
                ContentAddressError::InvalidHashLength => "Invalid hash length"@,
            },
    {
        match self {
            ContentAddressError::InvalidFormat => "Invalid content address format",
            ContentAddressError::UnsupportedAlgorithm => "Unsupported hash algorithm",
            ContentAddressError::InvalidHex => "Invalid hexadecimal encoding",
            ContentAddressError::InvalidHashLength => "Invalid hash length",
        }
    }
}

pub open spec fn is_colon_at(b: Seq<u8>, i: int) -> bool {
    0 <= i < b.len() && b[i] == 58
}

/// `i` is the position of the one and only `':'` in `b`.
pub open spec fn sole_colon(b: Seq<u8>, i: int) -> bool {
    is_colon_at(b, i) && forall|j: int| 0 <= j < b.len() && j != i ==> b[j] != 58
}

pub open spec fn alg_name_bytes(alg: HashAlgorithm) -> Seq<u8> {
    match alg {
        HashAlgorithm::Sha256 => seq![115u8, 104, 97, 50, 53, 54],
        HashAlgorithm::Blake3 => seq![98u8, 108, 97, 107, 101, 51],
    }
}

/// What the algorithm tag `p` names, if anything.
pub open spec fn alg_of_tag(p: Seq<u8>) -> Option<HashAlgorithm> {
    if p == alg_name_bytes(HashAlgorithm::Sha256) {
        Some(HashAlgorithm::Sha256)
    } else if p == alg_name_bytes(HashAlgorithm::Blake3) {
        Some(HashAlgorithm::Blake3)
    } else {
        None
    }
}

/// Parsing the UTF-8 bytes of an address text: exactly one `':'`, a known
/// algorithm tag before it, and 64 hexadecimal digits after it.
pub open spec fn parse_spec(b: Seq<u8>) -> Result<(HashAlgorithm, Seq<u8>), ContentAddressError> {
    if !(exists|i: int| sole_colon(b, i)) {
        Err(ContentAddressError::InvalidFormat)
    } else {
        let i = choose|i: int| sole_colon(b, i);
        let tag = b.subrange(0, i);
        let digits = b.subrange(i + 1, b.len() as int);
        match alg_of_tag(tag) {
            None => Err(ContentAddressError::UnsupportedAlgorithm),
            Some(alg) => if !all_hex(digits) {
                Err(ContentAddressError::InvalidHex)
            } else if digits.len() != 64 {
                Err(ContentAddressError::InvalidHashLength)
            } else {
                Ok((alg, hex_decoded(digits)))
            },
        }
    }
}

/// The algorithm that the bytes before position `p` name.
fn tag_algorithm(b: &[u8], p: usize) -> (r: Option<HashAlgorithm>)
    requires
        p <= b@.len(),
    ensures
        r == alg_of_tag(b@.subrange(0, p as int)),
{
    let ghost tag = b@.subrange(0, p as int);
    if p != 6 {
        assert(tag.len() != alg_name_bytes(HashAlgorithm::Sha256).len());
        assert(tag.len() != alg_name_bytes(HashAlgorithm::Blake3).len());
        return None;
    }
    if b[0] == 115 && b[1] == 104 && b[2] == 97 && b[3] == 50 && b[4] == 53 && b[5] == 54 {
        assert(tag =~= alg_name_bytes(HashAlgorithm::Sha256));
        return Some(HashAlgorithm::Sha256);
    }
    assert(tag != alg_name_bytes(HashAlgorithm::Sha256)) by {
        if tag == alg_name_bytes(HashAlgorithm::Sha256) {
            assert(tag[0] == 115 && tag[1] == 104 && tag[2] == 97 && tag[3] == 50 && tag[4] == 53 && tag[5] == 54);
        }
    }
    if b[0] == 98 && b[1] == 108 && b[2] == 97 && b[3] == 107 && b[4] == 101 && b[5] == 51 {
        assert(tag =~= alg_name_bytes(HashAlgorithm::Blake3));
        return Some(HashAlgorithm::Blake3);
    }
    assert(tag != alg_name_bytes(HashAlgorithm::Blake3)) by {
        if tag == alg_name_bytes(HashAlgorithm::Blake3) {
            assert(tag[0] == 98 && tag[1] == 108 && tag[2] == 97 && tag[3] == 107 && tag[4] == 101 && tag[5] == 51);
        }
    }
    None
}

impl ContentAddress {
    /// Create a content address from raw data, with the default algorithm.
    pub fn from_data(data: &[u8]) -> (r: ContentAddress)
        ensures
            r@ == (HashAlgorithm::Sha256, sha256_of(data@)),
    {
        Self::from_data_with_algorithm(data, HashAlgorithm::Sha256)
    }

    /// Create a content address with a specific algorithm.
    pub fn from_data_with_algorithm(data: &[u8], algorithm: HashAlgorithm) -> (r: ContentAddress)
        ensures
            r@ == (algorithm, digest_of(algorithm, data@)),
    {
        let hash = match algorithm {
            HashAlgorithm::Sha256 => sha256_digest(data),
            HashAlgorithm::Blake3 => blake3_digest(data),
        };
        ContentAddress { hash, algorithm }
    }

    /// The textual form `"<alg>:<hex>"`, with 64 lowercase hexadecimal digits.
    pub fn to_hex(&self) -> (r: String)
        ensures
            r@ == address_text(self@),
    {
        proof {
            reveal_strlit("sha256:");
            reveal_strlit("blake3:");
        }
        let mut text = match self.algorithm {
            HashAlgorithm::Sha256 => "sha256:".to_owned(),
            HashAlgorithm::Blake3 => "blake3:".to_owned(),
        };
        let digits = hex_encode(&self.hash);
        text.append(digits.as_str());
        assert(text@ =~= address_text(self@));
        text
    }

    /// The textual form, as `to_hex` gives it.
    pub fn to_string(&self) -> (r: String)
        ensures
            r@ == address_text(self@),
    {
        self.to_hex()
    }

    /// Parse the textual form `"<alg>:<hex>"`.
    pub fn from_hex(hex_str: &str) -> (r: Result<ContentAddress, ContentAddressError>)
        ensures
            match r {
                Ok(a) => parse_spec(hex_str.spec_bytes()) == Ok::<_, ContentAddressError>(a@),
                Err(e) => parse_spec(hex_str.spec_bytes()) == Err::<(HashAlgorithm, Seq<u8>), _>(e),
            },
    {
        let b = hex_str.as_bytes();
        let ghost bs = b@;
        let n = b.len();
        let mut colon: Option<usize> = None;
        let mut several = false;
        let mut i: usize = 0;
        while i < n
            invariant_except_break
                i <= n,
                !several,
                colon is None ==> forall|j: int| 0 <= j < i ==> bs[j] != 58,
                colon matches Some(p) ==> p < i && bs[p as int] == 58 && forall|j: int|
                    0 <= j < i && j != p ==> bs[j] != 58,
            invariant
                n == bs.len(),
                b@ == bs,
            ensures
                several ==> exists|p: int, q: int| is_colon_at(bs, p) && is_colon_at(bs, q) && p != q,
                !several ==> (colon is None ==> forall|j: int| 0 <= j < n ==> bs[j] != 58),
                !several ==> (colon matches Some(p) ==> sole_colon(bs, p as int)),
            decreases n - i,
        {
            if b[i] == 58 {
                match colon {
                    None => {
                        colon = Some(i);
                    },
                    Some(p) => {
                        assert(is_colon_at(bs, p as int) && is_colon_at(bs, i as int));
                        several = true;
                        break;
                    },
                }
            }
            i = i + 1;
        }
        if several {
            assert(!exists|i: int| sole_colon(bs, i));
            return Err(ContentAddressError::InvalidFormat);
        }
        let p = match colon {
            None => {
                assert(!exists|i: int| sole_colon(bs, i));
                return Err(ContentAddressError::InvalidFormat);
            },
            Some(p) => p,
        };
        assert(sole_colon(bs, p as int));
        let ghost chosen = choose|i: int| sole_colon(bs, i);
        assert(chosen == p);
        let algorithm = match tag_algorithm(b, p) {
            None => {
                return Err(ContentAddressError::UnsupportedAlgorithm);
            },
            Some(alg) => alg,
        };
        let ghost digits_spec = bs.subrange(p + 1, n as int);
        let mut digits: Vec<u8> = Vec::new();
        let mut k: usize = p + 1;
        while k < n
            invariant
                p < k <= n,
                n == bs.len(),
                b@ == bs,
                digits_spec == bs.subrange(p + 1, n as int),
                bs == hex_str.spec_bytes(),
                chosen == p,
                sole_colon(bs, p as int),
                alg_of_tag(bs.subrange(0, p as int)) == Some(algorithm),
                digits@ == bs.subrange(p + 1, k as int),
                all_hex(digits@),
            decreases n - k,
        {
            let c = b[k];
            if !((48 <= c && c <= 57) || (65 <= c && c <= 70) || (97 <= c && c <= 102)) {
                assert(digits_spec[k - p - 1] == c);
                assert(!is_hex_byte(digits_spec[k - p - 1]));
                assert(!all_hex(digits_spec));
                return Err(ContentAddressError::InvalidHex);
            }
            digits.push(c);
            k = k + 1;
            assert(digits@ =~= bs.subrange(p + 1, k as int));
        }
        assert(digits@ =~= digits_spec);
        if digits.len() != 64 {
            return Err(ContentAddressError::InvalidHashLength);
        }
        match hex_decode(digits.as_slice()) {
            Err(_) => Err(ContentAddressError::InvalidHex),
            Ok(bytes) => {
                let mut hash = [0u8; 32];
                let mut j: usize = 0;
                while j < 32
                    invariant
                        j <= 32,
                        bytes@.len() == 32,
                        forall|t: int| 0 <= t < j ==> hash@[t] == bytes@[t],
                    decreases 32 - j,
                {
                    hash[j] = bytes[j];
                    j = j + 1;
                }
                assert(hash@ =~= bytes@);
                Ok(ContentAddress { hash, algorithm })
            },
        }
    }

    /// Get the raw hash bytes.
    pub fn hash_bytes(&self) -> (r: &[u8; 32])
        ensures
            r@ == self@.1,
    {
        &self.hash
    }

    /// Get the hash algorithm.
    pub fn algorithm(&self) -> (r: HashAlgorithm)
        ensures
            r == self@.0,
    {
        self.algorithm
    }
}

} // verus!

verus! {

proof fn lemma_hex_char(x: int)
    requires
        0 <= x < 16,
    ensures
        '\0' <= hex_char(x) <= '\u{7f}',
        is_hex_byte(hex_char(x) as u8),
        hex_char(x) as u8 != 58,
        hex_val(hex_char(x) as u8) == x,
{
}

proof fn lemma_text_is_ascii(a: (HashAlgorithm, Seq<u8>))
    ensures
        is_ascii_chars(address_text(a)),
        address_text(a).len() == 7 + 2 * a.1.len(),
{
    let t = address_text(a);
    assert forall|i: int| 0 <= i < t.len() implies '\0' <= #[trigger] t[i] <= '\u{7f}' by {
        if i >= 7 {
            let k = i - 7;
            assert(t[i] == hex_text(a.1)[k]);
            if k % 2 == 0 {
                lemma_hex_char(a.1[k / 2] as int / 16);
            } else {
                lemma_hex_char(a.1[k / 2] as int % 16);
            }
        }
    }
}

/// Addressing is deterministic: the same bytes get the same address.
pub proof fn lemma_address_deterministic(alg: HashAlgorithm, a: Seq<u8>, b: Seq<u8>)
    requires
        a == b,
    ensures
        (alg, digest_of(alg, a)) == (alg, digest_of(alg, b)),
{
}

/// Parsing the textual form of an address gives the address back:
/// `from_hex(a.to_string()) == Ok(a)`.
pub proof fn lemma_text_round_trip(alg: HashAlgorithm, digest: Seq<u8>)
    requires
        digest.len() == 32,
    ensures
        parse_spec(encode_utf8(address_text((alg, digest)))) == Ok::<_, ContentAddressError>((alg, digest)),
{
    let a = (alg, digest);
    let t = address_text(a);
    lemma_text_is_ascii(a);
    is_ascii_chars_encode_utf8(t);
    let e = encode_utf8(t);
    assert(e.len() == 71);
    assert forall|i: int| 7 <= i < 71 implies is_hex_byte(#[trigger] e[i]) && e[i] != 58 && e[i]
        == hex_text(digest)[i - 7] as u8 by {
        let k = i - 7;
        assert(t[i] == hex_text(digest)[k]);
        assert(e[i] == t[i] as u8);
        if k % 2 == 0 {
            lemma_hex_char(digest[k / 2] as int / 16);
        } else {
            lemma_hex_char(digest[k / 2] as int % 16);
        }
    }
    assert(e[6] == t[6] as u8);
    assert(t[6] == ':');
    assert forall|i: int| 0 <= i < 6 implies #[trigger] e[i] == alg_name_bytes(alg)[i] by {
        assert(e[i] == t[i] as u8);
        assert(t[i] == alg_name(alg)[i]);
    }
    assert(sole_colon(e, 6));
    let chosen = choose|i: int| sole_colon(e, i);
    assert(chosen == 6);
    assert(e.subrange(0, 6) =~= alg_name_bytes(alg));
    let digits = e.subrange(7, 71);
    assert(all_hex(digits));
    assert forall|i: int| 0 <= i < 32 implies #[trigger] hex_decoded(digits)[i] == digest[i] by {
        assert(digits[2 * i] == e[7 + 2 * i]);
        assert(digits[2 * i + 1] == e[7 + 2 * i + 1]);
        lemma_hex_char(digest[i] as int / 16);
        lemma_hex_char(digest[i] as int % 16);
        assert(hex_text(digest)[2 * i] == hex_char(digest[i] as int / 16));
        assert(hex_text(digest)[2 * i + 1] == hex_char(digest[i] as int % 16));
    }
    assert(hex_decoded(digits) =~= digest);
}

} // verus!

verus! {

/// The textual form of an address with a 32-byte digest is 71 characters long.
pub proof fn lemma_text_len(a: (HashAlgorithm, Seq<u8>))
    ensures
        address_text(a).len() == 7 + 2 * a.1.len(),
{
    lemma_text_is_ascii(a);
}

} // verus!
