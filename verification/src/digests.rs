//! Content digests: MD5 (the default) and SHA-256, computed incrementally
//! over the chunks of a file by the `md-5` and `sha2` crates.

use vstd::prelude::*;
use md5::Digest as Md5Digest;
use sha2::Digest as Sha2Digest;
use crate::models::HashValue;
use crate::text::{push_str, chars_of};

verus! {

/// The MD5 digest of `data`, as the `md-5` crate computes it.
pub uninterp spec fn md5_of(data: Seq<u8>) -> Seq<u8>;

/// The SHA-256 digest of `data`, as the `sha2` crate computes it.
pub uninterp spec fn sha256_of(data: Seq<u8>) -> Seq<u8>;

/// A running MD5 computation (`md5::Md5`, whose type Verus cannot declare).
#[verifier::external_body]
pub struct Md5State {
    inner: md5::Md5,
}

/// A running SHA-256 computation (`sha2::Sha256`).
#[verifier::external_body]
pub struct Sha256State {
    inner: sha2::Sha256,
}

/// The bytes fed so far to a running MD5 computation.
pub uninterp spec fn md5_absorbed(s: Md5State) -> Seq<u8>;

/// The bytes fed so far to a running SHA-256 computation.
pub uninterp spec fn sha256_absorbed(s: Sha256State) -> Seq<u8>;

/// `md5::Md5::new` (`Digest::new`): a computation that has absorbed nothing.
#[verifier::external_body]
fn md5_new() -> (r: Md5State)
    ensures
        md5_absorbed(r) == Seq::<u8>::empty(),
{
    Md5State { inner: md5::Md5::new() }
}

/// `Digest::update` on `md5::Md5`: appends `data` to what was absorbed.
#[verifier::external_body]
fn md5_update(s: &mut Md5State, data: &[u8])
    ensures
        md5_absorbed(*final(s)) == md5_absorbed(*old(s)) + data@,
{
    s.inner.update(data)
}

/// `Digest::finalize` on `md5::Md5`: the 16-byte MD5 digest of all the
/// bytes absorbed.
#[verifier::external_body]
fn md5_finalize(s: Md5State) -> (r: Vec<u8>)
    ensures
        r@ == md5_of(md5_absorbed(s)),
        r@.len() == 16,
{
    s.inner.finalize().to_vec()
}

/// `sha2::Sha256::new` (`Digest::new`): a computation that has absorbed
/// nothing.
#[verifier::external_body]
fn sha256_new() -> (r: Sha256State)
    ensures
        sha256_absorbed(r) == Seq::<u8>::empty(),
{
    Sha256State { inner: sha2::Sha256::new() }
}

/// `Digest::update` on `sha2::Sha256`: appends `data` to what was absorbed.
#[verifier::external_body]
fn sha256_update(s: &mut Sha256State, data: &[u8])
    ensures
        sha256_absorbed(*final(s)) == sha256_absorbed(*old(s)) + data@,
{
    s.inner.update(data)
}

/// `Digest::finalize` on `sha2::Sha256`: the 32-byte SHA-256 digest of all
/// the bytes absorbed.
#[verifier::external_body]
fn sha256_finalize(s: Sha256State) -> (r: Vec<u8>)
    ensures
        r@ == sha256_of(sha256_absorbed(s)),
        r@.len() == 32,
{
    s.inner.finalize().to_vec()
}

/// MD5 content digests.
pub struct Md5Hasher;

/// SHA-256 content digests.
pub struct Sha256Hasher;

impl Md5Hasher {
    pub fn algorithm(&self) -> (r: &'static str)
        ensures
            r@ == "md5"@,
    {
        "md5"
    }

    /// A computation over nothing yet.
    pub fn begin(&self) -> (r: Md5State)
        ensures
            md5_absorbed(r) == Seq::<u8>::empty(),
    {
        md5_new()
    }

    /// Feeds the next chunk of the content.
    pub fn absorb(&self, s: &mut Md5State, chunk: &[u8])
        ensures
            md5_absorbed(*final(s)) == md5_absorbed(*old(s)) + chunk@,
    {
        md5_update(s, chunk)
    }

    /// The digest of everything fed.
    pub fn finish(&self, s: Md5State) -> (r: HashValue)
        ensures
            r@ == md5_of(md5_absorbed(s)),
            r@.len() == 16,
    {
        HashValue(md5_finalize(s))
    }

    /// The digest of `data`, in one piece.
    pub fn digest(&self, data: &[u8]) -> (r: HashValue)
        ensures
            r@ == md5_of(data@),
    {
        let mut s = self.begin();
        self.absorb(&mut s, data);
        assert(Seq::<u8>::empty() + data@ =~= data@);
        self.finish(s)
    }
}

impl Sha256Hasher {
    pub fn algorithm(&self) -> (r: &'static str)
        ensures
            r@ == "sha256"@,
    {
        "sha256"
    }

    /// A computation over nothing yet.
    pub fn begin(&self) -> (r: Sha256State)
        ensures
            sha256_absorbed(r) == Seq::<u8>::empty(),
    {
        sha256_new()
    }

    /// Feeds the next chunk of the content.
    pub fn absorb(&self, s: &mut Sha256State, chunk: &[u8])
        ensures
            sha256_absorbed(*final(s)) == sha256_absorbed(*old(s)) + chunk@,
    {
        sha256_update(s, chunk)
    }

    /// The digest of everything fed.
    pub fn finish(&self, s: Sha256State) -> (r: HashValue)
        ensures
            r@ == sha256_of(sha256_absorbed(s)),
            r@.len() == 32,
    {
        HashValue(sha256_finalize(s))
    }

    /// The digest of `data`, in one piece.
    pub fn digest(&self, data: &[u8]) -> (r: HashValue)
        ensures
            r@ == sha256_of(data@),
    {
        let mut s = self.begin();
        self.absorb(&mut s, data);
        assert(Seq::<u8>::empty() + data@ =~= data@);
        self.finish(s)
    }
}

/// The digest algorithms a run can use.
#[derive(Debug, PartialEq, Eq, Clone, Copy)]
pub enum HashAlgorithm {
    Md5,
    Sha256,
}

/// The name of an algorithm, as options and reports give it.
pub open spec fn algorithm_name(a: HashAlgorithm) -> Seq<char> {
    match a {
        HashAlgorithm::Md5 => "md5"@,
        HashAlgorithm::Sha256 => "sha256"@,
    }
}

/// The message for an algorithm name that is not known.
pub open spec fn unknown_algorithm_message(name: Seq<char>) -> Seq<char> {
    "未知哈希算法: "@ + name + "(可选:md5 / sha256)"@
}

fn same_text(a: &str, b: &str) -> (r: bool)
    ensures
        r == (a@ == b@),
{
    let ca = chars_of(a);
    let cb = chars_of(b);
    if ca.len() != cb.len() {
        return false;
    }
    let mut i: usize = 0;
    while i < ca.len()
        invariant
            ca@ == a@,
            cb@ == b@,
            ca.len() == cb.len(),
            i <= ca.len(),
            forall|k: int| 0 <= k < i ==> ca@[k] == cb@[k],
        decreases ca.len() - i,
    {
        if ca[i] != cb[i] {
            return false;
        }
        i += 1;
    }
    assert(a@ =~= b@);
    true
}

impl HashAlgorithm {
    /// The algorithm named `name` ("md5" or "sha256"); otherwise the message
    /// that names the unknown algorithm.
    pub fn parse(name: &str) -> (r: Result<HashAlgorithm, String>)
        ensures
            r matches Ok(a) ==> algorithm_name(a) == name@,
            r is Err <==> (name@ != "md5"@ && name@ != "sha256"@),
            r matches Err(m) ==> m@ == unknown_algorithm_message(name@),
            r == Ok::<HashAlgorithm, String>(HashAlgorithm::Md5) <==> name@ == "md5"@,
            r == Ok::<HashAlgorithm, String>(HashAlgorithm::Sha256) <==> name@ == "sha256"@,
    {
        proof {
            reveal_strlit("md5");
            reveal_strlit("sha256");
            assert("md5"@.len() != "sha256"@.len());
        }
        if same_text(name, "md5") {
            Ok(HashAlgorithm::Md5)
        } else if same_text(name, "sha256") {
            Ok(HashAlgorithm::Sha256)
        } else {
            let mut m = String::new();
            push_str(&mut m, "未知哈希算法: ");
            push_str(&mut m, name);
            push_str(&mut m, "(可选:md5 / sha256)");
            Err(m)
        }
    }

    pub fn as_str(&self) -> (r: &'static str)
        ensures
            r@ == algorithm_name(*self),
    {
        match self {
            HashAlgorithm::Md5 => "md5",
            HashAlgorithm::Sha256 => "sha256",
        }
    }
}

impl Default for HashAlgorithm {
    /// MD5 unless asked otherwise.
    fn default() -> (r: Self)
        ensures
            r == HashAlgorithm::Md5,
    {
        HashAlgorithm::Md5
    }
}

} // verus!
