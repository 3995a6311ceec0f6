//! The digest of the content of a file, computed as the content is read.

use vstd::prelude::*;

verus! {

/// How many bytes of a file are read at a time.
pub const CHUNK: usize = 8192;

#[verifier::external_type_specification]
#[verifier::external_body]
pub struct ExHasher(blake3::Hasher);

/// The bytes that a hasher has taken in.
pub uninterp spec fn absorbed(hasher: blake3::Hasher) -> Seq<u8>;

/// The BLAKE3 hash of the given bytes.
pub uninterp spec fn blake3_digest(bytes: Seq<u8>) -> Seq<u8>;

/// Calls `blake3::Hasher::new`: a hasher that has taken in nothing.
#[verifier::external_body]
fn hasher_new() -> (r: blake3::Hasher)
    ensures
        absorbed(r) == Seq::<u8>::empty(),
{
    blake3::Hasher::new()
}

/// Calls `blake3::Hasher::update`: the hasher takes in the bytes after those it has. The
/// hash is defined for inputs whose length fits in 64 bits.
#[verifier::external_body]
fn hasher_update(hasher: &mut blake3::Hasher, bytes: &[u8])
    requires
        absorbed(*old(hasher)).len() + bytes@.len() <= u64::MAX,
    ensures
        absorbed(*final(hasher)) == absorbed(*old(hasher)) + bytes@,
{
    hasher.update(bytes);
}

/// Calls `blake3::Hasher::finalize`: the hash of all that the hasher has taken in, which
/// depends on those bytes alone, as `blake3::Hash::as_bytes` gives it.
#[verifier::external_body]
fn hasher_finalize(hasher: &blake3::Hasher) -> (r: Vec<u8>)
    ensures
        r@ == blake3_digest(absorbed(*hasher)),
        r@.len() == 32,
{
    hasher.finalize().as_bytes().to_vec()
}

/// A file whose content is being hashed. Its view is the content read so far.
pub struct FileHash {
    hasher: blake3::Hasher,
    fed: u64,
}

impl View for FileHash {
    type V = Seq<u8>;

    closed spec fn view(&self) -> Seq<u8> {
        absorbed(self.hasher)
    }
}

impl FileHash {
    /// The length of the content read so far is kept beside it.
    pub closed spec fn wf(&self) -> bool {
        self.fed == self@.len()
    }

    /// Nothing read yet.
    pub fn new() -> (r: FileHash)
        ensures
            r.wf(),
            r@ == Seq::<u8>::empty(),
    {
        FileHash { hasher: hasher_new(), fed: 0 }
    }

    /// The length of the content read so far.
    pub fn fed(&self) -> (r: u64)
        requires
            self.wf(),
        ensures
            r == self@.len(),
    {
        self.fed
    }

    /// Takes in what was read; says whether to read on, which the end of the file, an
    /// empty read, denies.
    pub fn feed(&mut self, bytes: &[u8]) -> (more: bool)
        requires
            old(self).wf(),
            old(self)@.len() + bytes@.len() <= u64::MAX,
        ensures
            final(self).wf(),
            final(self)@ == old(self)@ + bytes@,
            more == (bytes@.len() > 0),
    {
        if bytes.len() == 0 {
            assert(self@ =~= old(self)@ + bytes@);
            return false;
        }
        hasher_update(&mut self.hasher, bytes);
        self.fed = self.fed + bytes.len() as u64;
        true
    }

    /// The digest of the content.
    pub fn finish(&self) -> (r: Vec<u8>)
        ensures
            r@ == blake3_digest(self@),
            r@.len() == 32,
    {
        hasher_finalize(&self.hasher)
    }
}

/// The content that a run of reads amounts to.
pub open spec fn content(reads: Seq<Seq<u8>>) -> Seq<u8>
    decreases reads.len(),
{
    if reads.len() == 0 {
        Seq::empty()
    } else {
        content(reads.drop_last()) + reads.last()
    }
}

/// The digest does not depend on how the content was divided among the reads.
pub proof fn law_reads_do_not_matter(a: Seq<Seq<u8>>, b: Seq<u8>, c: Seq<u8>)
    ensures
        blake3_digest(content(a.push(b).push(c))) == blake3_digest(content(a.push(b + c))),
{
    assert(a.push(b).push(c).drop_last() =~= a.push(b));
    assert(a.push(b).drop_last() =~= a);
    assert(a.push(b + c).drop_last() =~= a);
    assert(content(a.push(b)) == content(a) + b);
    assert((content(a) + b) + c =~= content(a) + (b + c));
    assert(content(a.push(b).push(c)) =~= content(a.push(b + c)));
}

} // verus!
