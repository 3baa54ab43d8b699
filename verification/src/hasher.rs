//! Content digests.
//!
//! A [`ContentHasher`] takes the content of a file chunk by chunk and turns
//! it into the key under which the file is grouped: the digest of all the
//! bytes, in lowercase hexadecimal. The digests themselves are computed by
//! the `md-5`, `sha1` and `sha2` crates and written out by `hex`; what they
//! compute is named here, not defined.

use vstd::prelude::*;
use vstd::slice::slice_subrange;
use digest::Digest;
use crate::text::{contains_text, has_text, lowercase, lowercase_of, to_chars};

verus! {

/// The number of bytes that are read from a file at a time.
pub const CHUNK_SIZE: usize = 8192;

/// The digest algorithms on offer.
#[derive(Clone, Copy, Debug, PartialEq, Eq, Structural)]
pub enum HashAlgorithm {
    Md5,
    Sha1,
    Sha256,
}

/// The MD5 digest of `data`, as `md5::Md5` computes it.
pub uninterp spec fn md5_digest(data: Seq<u8>) -> Seq<u8>;

/// The SHA-1 digest of `data`, as `sha1::Sha1` computes it.
pub uninterp spec fn sha1_digest(data: Seq<u8>) -> Seq<u8>;

/// The SHA-256 digest of `data`, as `sha2::Sha256` computes it.
pub uninterp spec fn sha256_digest(data: Seq<u8>) -> Seq<u8>;

/// An MD5 computation in progress. The hasher of the `md-5` crate is generic
/// over types that cannot be declared one by one, so it is kept out of sight
/// here and known only by the bytes it has taken.
#[verifier::external_body]
pub struct Md5State {
    inner: md5::Md5,
}

/// A SHA-1 computation in progress (see [`Md5State`]).
#[verifier::external_body]
pub struct Sha1State {
    inner: sha1::Sha1,
}

/// A SHA-256 computation in progress (see [`Md5State`]).
#[verifier::external_body]
pub struct Sha256State {
    inner: sha2::Sha256,
}

/// The bytes that an MD5 computation has taken so far.
pub uninterp spec fn md5_absorbed(state: Md5State) -> Seq<u8>;

/// The bytes that a SHA-1 computation has taken so far.
pub uninterp spec fn sha1_absorbed(state: Sha1State) -> Seq<u8>;

/// The bytes that a SHA-256 computation has taken so far.
pub uninterp spec fn sha256_absorbed(state: Sha256State) -> Seq<u8>;

/// `Digest::new` for `md5::Md5`: a fresh hasher has taken no bytes.
#[verifier::external_body]
fn md5_new() -> (state: Md5State)
    ensures
        md5_absorbed(state) == Seq::<u8>::empty(),
{
    Md5State { inner: md5::Md5::new() }
}

/// `Digest::update` for `md5::Md5`: the hasher takes `data` after what it
/// has taken before.
#[verifier::external_body]
fn md5_update(state: &mut Md5State, data: &[u8])
    ensures
        md5_absorbed(*final(state)) == md5_absorbed(*old(state)) + data@,
{
    state.inner.update(data)
}

/// `Digest::finalize` for `md5::Md5`: the digest of all the bytes taken.
#[verifier::external_body]
fn md5_finalize(state: Md5State) -> (digest: Vec<u8>)
    ensures
        digest@ == md5_digest(md5_absorbed(state)),
{
    state.inner.finalize().to_vec()
}

/// `Digest::new` for `sha1::Sha1`: a fresh hasher has taken no bytes.
#[verifier::external_body]
fn sha1_new() -> (state: Sha1State)
    ensures
        sha1_absorbed(state) == Seq::<u8>::empty(),
{
    Sha1State { inner: sha1::Sha1::new() }
}

/// `Digest::update` for `sha1::Sha1`: the hasher takes `data` after what it
/// has taken before.
#[verifier::external_body]
fn sha1_update(state: &mut Sha1State, data: &[u8])
    ensures
        sha1_absorbed(*final(state)) == sha1_absorbed(*old(state)) + data@,
{
    state.inner.update(data)
}

/// `Digest::finalize` for `sha1::Sha1`: the digest of all the bytes taken.
#[verifier::external_body]
fn sha1_finalize(state: Sha1State) -> (digest: Vec<u8>)
    ensures
        digest@ == sha1_digest(sha1_absorbed(state)),
{
    state.inner.finalize().to_vec()
}

/// `Digest::new` for `sha2::Sha256`: a fresh hasher has taken no bytes.
#[verifier::external_body]
fn sha256_new() -> (state: Sha256State)
    ensures
        sha256_absorbed(state) == Seq::<u8>::empty(),
{
    Sha256State { inner: sha2::Sha256::new() }
}

/// `Digest::update` for `sha2::Sha256`: the hasher takes `data` after what
/// it has taken before.
#[verifier::external_body]
fn sha256_update(state: &mut Sha256State, data: &[u8])
    ensures
        sha256_absorbed(*final(state)) == sha256_absorbed(*old(state)) + data@,
{
    state.inner.update(data)
}

/// `Digest::finalize` for `sha2::Sha256`: the digest of all the bytes taken.
#[verifier::external_body]
fn sha256_finalize(state: Sha256State) -> (digest: Vec<u8>)
    ensures
        digest@ == sha256_digest(sha256_absorbed(state)),
{
    state.inner.finalize().to_vec()
}

/// The lowercase hexadecimal digit for a value below 16.
pub open spec fn hex_digit(value: int) -> char {
    if value < 10 {
        ('0' as int + value) as char
    } else {
        ('a' as int + value - 10) as char
    }
}

/// `data` in lowercase hexadecimal: two digits for each byte, the high half
/// first.
pub open spec fn hex_lower(data: Seq<u8>) -> Seq<char> {
    Seq::new(
        2 * data.len(),
        |i: int|
            if i % 2 == 0 {
                hex_digit(data[i / 2] as int / 16)
            } else {
                hex_digit(data[i / 2] as int % 16)
            },
    )
}

/// `hex::encode`: each byte becomes two lowercase hexadecimal digits.
#[verifier::external_body]
fn hex_encode(data: &[u8]) -> (text: String)
    ensures
        text@ == hex_lower(data@),
{
    hex::encode(data)
}

/// The digest of `data` under `algorithm`.
pub open spec fn digest_of(algorithm: HashAlgorithm, data: Seq<u8>) -> Seq<u8> {
    match algorithm {
        HashAlgorithm::Md5 => md5_digest(data),
        HashAlgorithm::Sha1 => sha1_digest(data),
        HashAlgorithm::Sha256 => sha256_digest(data),
    }
}

/// The key under which content `data` is grouped: its digest in lowercase
/// hexadecimal.
pub open spec fn content_key(algorithm: HashAlgorithm, data: Seq<u8>) -> Seq<char> {
    hex_lower(digest_of(algorithm, data))
}

/// The algorithm that a lowercase name selects: SHA-256 if the name holds
/// `sha256`, else SHA-1 if it holds `sha1`, else MD5.
pub open spec fn algorithm_named(lower: Seq<char>) -> HashAlgorithm {
    if contains_text(lower, "sha256"@) {
        HashAlgorithm::Sha256
    } else if contains_text(lower, "sha1"@) {
        HashAlgorithm::Sha1
    } else {
        HashAlgorithm::Md5
    }
}

/// The algorithm that the lowercase name `lower` selects.
pub fn algorithm_from_lowercase(lower: &str) -> (r: HashAlgorithm)
    ensures
        r == algorithm_named(lower@),
{
    let chars = to_chars(lower);
    if has_text(&chars, &to_chars("sha256")) {
        HashAlgorithm::Sha256
    } else if has_text(&chars, &to_chars("sha1")) {
        HashAlgorithm::Sha1
    } else {
        HashAlgorithm::Md5
    }
}

/// The algorithm that `name` selects, whatever its case.
pub fn select_algorithm(name: &str) -> (r: HashAlgorithm)
    ensures
        r == algorithm_named(lowercase_of(name@)),
{
    let lower = lowercase(name);
    algorithm_from_lowercase(lower.as_str())
}

/// A digest computation in progress.
pub enum ContentHasher {
    Md5(Md5State),
    Sha1(Sha1State),
    Sha256(Sha256State),
}

/// What became of one attempt to read from a file.
#[derive(Clone, Copy, Debug, PartialEq, Eq, Structural)]
pub enum ReadStep {
    /// Bytes were read and taken; read again.
    Continue,
    /// The end of the file was reached.
    Finished,
    /// The read failed; the file has no digest.
    Failed,
}

impl ContentHasher {
    /// The algorithm of this computation.
    pub open spec fn algorithm(&self) -> HashAlgorithm {
        match self {
            ContentHasher::Md5(_) => HashAlgorithm::Md5,
            ContentHasher::Sha1(_) => HashAlgorithm::Sha1,
            ContentHasher::Sha256(_) => HashAlgorithm::Sha256,
        }
    }

    /// The bytes taken so far.
    pub open spec fn absorbed(&self) -> Seq<u8> {
        match self {
            ContentHasher::Md5(state) => md5_absorbed(*state),
            ContentHasher::Sha1(state) => sha1_absorbed(*state),
            ContentHasher::Sha256(state) => sha256_absorbed(*state),
        }
    }

    /// A computation that has taken no bytes yet.
    pub fn new(algorithm: HashAlgorithm) -> (r: ContentHasher)
        ensures
            r.algorithm() == algorithm,
            r.absorbed() == Seq::<u8>::empty(),
    {
        match algorithm {
            HashAlgorithm::Md5 => ContentHasher::Md5(md5_new()),
            HashAlgorithm::Sha1 => ContentHasher::Sha1(sha1_new()),
            HashAlgorithm::Sha256 => ContentHasher::Sha256(sha256_new()),
        }
    }

    /// Takes the bytes of `chunk`.
    pub fn update(&mut self, chunk: &[u8])
        ensures
            final(self).algorithm() == old(self).algorithm(),
            final(self).absorbed() == old(self).absorbed() + chunk@,
    {
        match self {
            ContentHasher::Md5(state) => md5_update(state, chunk),
            ContentHasher::Sha1(state) => sha1_update(state, chunk),
            ContentHasher::Sha256(state) => sha256_update(state, chunk),
        }
    }

    /// Ends the computation: the key of the bytes taken.
    pub fn finish(self) -> (key: String)
        ensures
            key@ == content_key(self.algorithm(), self.absorbed()),
    {
        let digest = match self {
            ContentHasher::Md5(state) => md5_finalize(state),
            ContentHasher::Sha1(state) => sha1_finalize(state),
            ContentHasher::Sha256(state) => sha256_finalize(state),
        };
        hex_encode(digest.as_slice())
    }

    /// Deals with the outcome of one read into `buffer`: `Some(n)` if `n`
    /// bytes were read, `None` if the read failed. Bytes that were read are
    /// taken. A count of zero is the end of the file; a count beyond the
    /// buffer is treated as a failed read.
    pub fn absorb_read(&mut self, buffer: &[u8], count: Option<usize>) -> (step: ReadStep)
        ensures
            final(self).algorithm() == old(self).algorithm(),
            match count {
                Some(n) => if n == 0 {
                    step == ReadStep::Finished && final(self).absorbed() == old(self).absorbed()
                } else if n <= buffer@.len() {
                    step == ReadStep::Continue && final(self).absorbed() == old(self).absorbed()
                        + buffer@.take(n as int)
                } else {
                    step == ReadStep::Failed && final(self).absorbed() == old(self).absorbed()
                },
                None => step == ReadStep::Failed && final(self).absorbed() == old(
                    self,
                ).absorbed(),
            },
    {
        match count {
            Some(n) => {
                if n == 0 {
                    ReadStep::Finished
                } else if n <= buffer.len() {
                    let chunk = slice_subrange(buffer, 0, n);
                    assert(chunk@ == buffer@.take(n as int));
                    self.update(chunk);
                    ReadStep::Continue
                } else {
                    ReadStep::Failed
                }
            },
            None => ReadStep::Failed,
        }
    }
}

/// The key of `data` under `algorithm`, computed in one go.
pub fn hash_bytes(algorithm: HashAlgorithm, data: &[u8]) -> (key: String)
    ensures
        key@ == content_key(algorithm, data@),
{
    let mut hasher = ContentHasher::new(algorithm);
    hasher.update(data);
    assert(Seq::<u8>::empty() + data@ == data@);
    hasher.finish()
}

} // verus!
