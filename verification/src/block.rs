//! Content addressing: identifiers derived from a cryptographic digest of a
//! blob's bytes, and the immutable `Block` value pairing the two.

use vstd::prelude::*;
use crate::SHA2_256;
use sha2::Digest;
use vstd::std_specs::cmp::PartialEqSpec;

verus! {

/// The SHA-256 digest of a byte sequence, as the `sha2` crate computes it.
/// It depends on the input bytes alone, so it is left abstract here and only
/// named; `sha256` below ties it to the executable digest.
pub uninterp spec fn sha256_of(data: Seq<u8>) -> Seq<u8>;

/// The canonical text rendering of a version-1 content identifier built from
/// a codec, a hash-function code and a digest, as the `cid` crate renders it
/// (multibase base32, lower case, no padding). It depends on the three
/// components alone; `render_id` below ties it to the executable rendering.
pub uninterp spec fn cid_text_of(codec: u64, hash_code: u64, digest: Seq<u8>) -> Seq<char>;

/// The characters the canonical rendering is drawn from: the multibase
/// base32-lower alphabet (`a`..`z`, `2`..`7`), which is safe inside a
/// filesystem path component.
pub open spec fn is_path_char(c: char) -> bool {
    ('a' <= c && c <= 'z') || ('2' <= c && c <= '7')
}

/// Relies on `sha2::Sha256::digest`: the SHA-256 digest of any byte sequence
/// is exactly 32 bytes and is a function of the input bytes alone.
#[verifier::external_body]
fn sha256(data: &[u8]) -> (r: Vec<u8>)
    ensures
        r@ == sha256_of(data@),
        r@.len() == 32,
{
    sha2::Sha256::digest(data).to_vec()
}

/// A content identifier: a versioned value made of a content-type codec, a
/// hash-function code and the digest bytes. Two identifiers are equal iff
/// all three components are equal. This is the data the store's logic reads;
/// the `cid` crate supplies the canonical text rendering through `render_id`.
#[derive(Debug)]
pub struct ContentId {
    pub codec: u64,
    pub hash_code: u64,
    pub digest: Vec<u8>,
}

/// The mathematical value of a `ContentId`.
pub struct ContentIdView {
    pub codec: u64,
    pub hash_code: u64,
    pub digest: Seq<u8>,
}

impl View for ContentId {
    type V = ContentIdView;

    open spec fn view(&self) -> ContentIdView {
        ContentIdView { codec: self.codec, hash_code: self.hash_code, digest: self.digest@ }
    }
}

/// Relies on the `Display` rendering of `cid::Cid` for version-1 identifiers:
/// `multibase::encode(Base32Lower, bytes)`, a deterministic function of the
/// identifier's codec, hash code and digest, never empty (a base prefix
/// character always leads) and drawn from the base32-lower alphabet.
/// `multihash::Multihash::wrap` and `cid::Cid::new_v1` only assemble the
/// identifier value from those components; `wrap` succeeds whenever the
/// digest is at most 64 bytes.
#[verifier::external_body]
fn render_id(id: &ContentId) -> (r: String)
    requires
        id.digest@.len() <= 64,
    ensures
        r@ == cid_text_of(id.codec, id.hash_code, id.digest@),
        r@.len() > 0,
        r.is_ascii(),
        forall|i: int| 0 <= i < r@.len() ==> is_path_char(r@[i]),
{
    let mh = multihash::Multihash::<64>::wrap(id.hash_code, &id.digest).unwrap();
    let cid = cid::Cid::new_v1(id.codec, mh);
    cid.to_string()
}

/// The identifier the content addresser derives from a byte sequence: the
/// SHA-256 digest wrapped with its hash-function code, combined with the
/// same code as the content-type codec (the store deliberately reuses the
/// hash code there).
pub open spec fn address_of(data: Seq<u8>) -> ContentIdView {
    ContentIdView { codec: SHA2_256, hash_code: SHA2_256, digest: sha256_of(data) }
}

impl ContentId {
    /// An identifier the addresser can produce: a 32-byte digest.
    pub open spec fn wf(&self) -> bool {
        self@.digest.len() == 32
    }

    /// The canonical text rendering of this identifier.
    pub fn render(&self) -> (r: String)
        requires
            self@.digest.len() <= 64,
        ensures
            r@ == cid_text_of(self@.codec, self@.hash_code, self@.digest),
            r@.len() > 0,
            r.is_ascii(),
            forall|i: int| 0 <= i < r@.len() ==> is_path_char(r@[i]),
    {
        render_id(self)
    }
}

/// Copies a byte vector.
pub fn clone_bytes(v: &Vec<u8>) -> (r: Vec<u8>)
    ensures
        r@ == v@,
{
    let r = v.clone();
    proof {
        assert forall|i: int| 0 <= i < v@.len() implies r@[i] == v@[i] by {
            assert(vstd::pervasive::cloned::<u8>(v@[i], r@[i]));
        }
        assert(r@ =~= v@);
    }
    r
}

impl Clone for ContentId {
    fn clone(&self) -> (r: ContentId)
        ensures
            r@ == self@,
    {
        ContentId {
            codec: self.codec,
            hash_code: self.hash_code,
            digest: clone_bytes(&self.digest),
        }
    }
}

impl PartialEq for ContentId {
    fn eq(&self, other: &ContentId) -> (r: bool) {
        let deq = self.digest == other.digest;
        proof {
            if deq {
                assert(self.digest@ =~= other.digest@);
            }
            if self.digest@ == other.digest@ {
                assert(deq);
            }
        }
        self.codec == other.codec && self.hash_code == other.hash_code && deq
    }
}

impl vstd::std_specs::cmp::PartialEqSpecImpl for ContentId {
    open spec fn obeys_eq_spec() -> bool {
        true
    }

    open spec fn eq_spec(&self, other: &ContentId) -> bool {
        self@ == other@
    }
}

/// An immutable value pairing a content identifier with the raw bytes it was
/// derived from.
#[derive(Debug)]
pub struct Block {
    pub cid: ContentId,
    pub data: Vec<u8>,
}

/// The mathematical value of a `Block`.
pub struct BlockView {
    pub cid: ContentIdView,
    pub data: Seq<u8>,
}

impl View for Block {
    type V = BlockView;

    open spec fn view(&self) -> BlockView {
        BlockView { cid: self.cid@, data: self.data@ }
    }
}

impl Block {
    /// The addressing invariant: the identifier is derived from the bytes.
    pub open spec fn wf(&self) -> bool {
        self@.cid == address_of(self@.data)
    }

    /// Builds a block by addressing `data`: its identifier wraps the SHA-256
    /// digest of `data`. Deterministic: the result is a function of `data`
    /// alone.
    pub fn new(data: Vec<u8>) -> (r: Block)
        ensures
            r@.cid == address_of(data@),
            r@.data == data@,
            r.wf(),
            r.cid.wf(),
    {
        let digest = sha256(data.as_slice());
        Block { cid: ContentId { codec: SHA2_256, hash_code: SHA2_256, digest }, data }
    }
}

impl PartialEq for Block {
    fn eq(&self, other: &Block) -> (r: bool) {
        self.cid == other.cid
    }
}

impl vstd::std_specs::cmp::PartialEqSpecImpl for Block {
    open spec fn obeys_eq_spec() -> bool {
        true
    }

    open spec fn eq_spec(&self, other: &Block) -> bool {
        self@.cid == other@.cid
    }
}

/// Law: addressing is deterministic. Two blocks derived from equal byte
/// sequences carry equal identifiers, and each identifier wraps exactly the
/// SHA-256 digest of its data, with the SHA-256 code as both hash-function
/// id and codec.
pub proof fn lemma_addressing_deterministic(b1: Block, b2: Block)
    requires
        b1.wf(),
        b2.wf(),
        b1@.data == b2@.data,
    ensures
        b1@.cid == b2@.cid,
        b1@.cid.digest == sha256_of(b1@.data),
        b1@.cid.codec == SHA2_256,
        b1@.cid.hash_code == SHA2_256,
{
}

/// Law: block equality is identifier equality. Blocks derived from equal
/// byte sequences compare equal, and blocks that compare unequal were
/// derived from unequal byte sequences (the converse would require the
/// digest to be collision-free, which is only cryptographically likely).
pub proof fn lemma_block_equality(b1: Block, b2: Block)
    requires
        b1.wf(),
        b2.wf(),
    ensures
        b1@.data == b2@.data ==> b1.eq_spec(&b2),
        !b1.eq_spec(&b2) ==> b1@.data != b2@.data,
{
}

} // verus!
