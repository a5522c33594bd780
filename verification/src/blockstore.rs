//! The store's path mapping and its error model: an identifier's canonical
//! text is split into fixed-width chunks, each chunk one directory level
//! under the store's root, the last chunk the file name.

use vstd::prelude::*;
use vstd::arithmetic::div_mod::{lemma_basic_div, lemma_div_plus_one};
use vstd::string::{StrSliceExecFns, StringExecFnsIsAscii};
use crate::block::{Block, ContentId, ContentIdView, address_of, cid_text_of};

verus! {

/// The kinds of failure a store operation reports.
#[derive(Debug, Clone, Copy, PartialEq, Eq, Structural)]
pub enum StoreError {
    /// No block lies at the derived path.
    NotFound,
    /// The filesystem refused access.
    PermissionDenied,
    /// Bytes read back could not be re-wrapped into an identifier.
    Encoding,
    /// Any other filesystem failure.
    Other,
}

/// The views of a sequence of path components.
pub open spec fn views_of(parts: Seq<String>) -> Seq<Seq<char>> {
    parts.map_values(|p: String| p@)
}

/// Splits `text` into consecutive chunks of `width` characters; the last
/// chunk may be shorter, none is empty.
pub open spec fn shard(text: Seq<char>, width: int) -> Seq<Seq<char>>
    decreases text.len(),
{
    if width < 1 || text.len() == 0 {
        Seq::empty()
    } else if text.len() <= width {
        seq![text]
    } else {
        seq![text.take(width)] + shard(text.skip(width), width)
    }
}

/// The concatenation of a sequence of chunks.
pub open spec fn concat_of(parts: Seq<Seq<char>>) -> Seq<char>
    decreases parts.len(),
{
    if parts.len() == 0 {
        Seq::empty()
    } else {
        parts[0] + concat_of(parts.skip(1))
    }
}

/// Law: sharding reconstructs. Concatenating the chunks of `shard(text,
/// width)` in order gives back `text` exactly; every chunk but the last has
/// exactly `width` characters; no chunk is empty; and there are
/// `ceil(len / width)` chunks.
pub proof fn lemma_shard_reconstruction(text: Seq<char>, width: int)
    requires
        width >= 1,
    ensures
        concat_of(shard(text, width)) == text,
        forall|j: int| 0 <= j < shard(text, width).len() ==> (#[trigger] shard(text, width)[j]).len() > 0,
        forall|j: int| 0 <= j < shard(text, width).len() - 1 ==> (#[trigger] shard(text, width)[j]).len() == width,
        shard(text, width).len() == (text.len() + width - 1) / width,
    decreases text.len(),
{
    let parts = shard(text, width);
    if text.len() == 0 {
        assert(concat_of(parts) =~= text);
        lemma_basic_div(width - 1, width);
    } else if text.len() <= width {
        assert(parts == seq![text]);
        assert(parts.skip(1) =~= Seq::<Seq<char>>::empty());
        assert(concat_of(parts.skip(1)) == Seq::<char>::empty());
        assert(concat_of(parts) == text + concat_of(parts.skip(1)));
        assert(text + Seq::<char>::empty() =~= text);
        lemma_div_plus_one(text.len() - 1, width);
        lemma_basic_div(text.len() - 1, width);
        assert((text.len() + width - 1) / width == 1);
    } else {
        let head = text.take(width);
        let tail = text.skip(width);
        lemma_shard_reconstruction(tail, width);
        assert(parts[0] == head);
        assert(parts.skip(1) =~= shard(tail, width));
        assert(concat_of(parts) == head + concat_of(shard(tail, width)));
        assert(head + tail =~= text);
        assert forall|j: int| 0 <= j < parts.len() implies (#[trigger] parts[j]).len() > 0 by {
            if j > 0 {
                assert(parts[j] == shard(tail, width)[j - 1]);
            }
        }
        assert forall|j: int| 0 <= j < parts.len() - 1 implies (#[trigger] parts[j]).len() == width by {
            if j > 0 {
                assert(parts[j] == shard(tail, width)[j - 1]);
            }
        }
        lemma_div_plus_one(tail.len() + width - 1, width);
        assert(parts.len() == 1 + shard(tail, width).len());
        assert((text.len() + width - 1) / width == 1 + (tail.len() + width - 1) / width);
    }
}

/// A store configuration: a root directory and the number of characters per
/// directory level. Fixed at construction; the mapping from identifier to
/// path is a pure function of this configuration and the identifier.
pub struct FSStore {
    pub root: String,
    pub chars_per_level: usize,
}

/// The shard width a store is created with.
pub const DEFAULT_CHARS_PER_LEVEL: usize = 15;

impl FSStore {
    /// A usable configuration: at least one character per level.
    pub open spec fn wf(&self) -> bool {
        self.chars_per_level >= 1
    }

    /// The path a store resolves an identifier to: the root, then one
    /// component per fixed-width chunk of the identifier's canonical text.
    pub open spec fn spec_path(&self, cid: ContentIdView) -> Seq<Seq<char>> {
        seq![self.root@] + shard(
            cid_text_of(cid.codec, cid.hash_code, cid.digest),
            self.chars_per_level as int,
        )
    }

    /// Opens a store over `root` with the default shard width. Ensuring the
    /// root directory exists on disk is the caller's side of the work; the
    /// configuration itself needs no scan of existing contents, because the
    /// path mapping is a pure function of it.
    pub fn create(root: String) -> (r: FSStore)
        ensures
            r.root@ == root@,
            r.chars_per_level == DEFAULT_CHARS_PER_LEVEL,
            r.wf(),
    {
        FSStore { root, chars_per_level: DEFAULT_CHARS_PER_LEVEL }
    }

    /// The relative path of an identifier: its canonical text split into
    /// chunks of `chars_per_level` characters, in order.
    pub fn block_path_raw(chars_per_level: usize, cid: &ContentId) -> (parts: Vec<String>)
        requires
            chars_per_level >= 1,
            cid@.digest.len() <= 64,
        ensures
            views_of(parts@) == shard(
                cid_text_of(cid@.codec, cid@.hash_code, cid@.digest),
                chars_per_level as int,
            ),
            parts@.len() >= 1,
    {
        let s = cid.render();
        let ghost text = s@;
        let ghost w = chars_per_level as int;
        let len = s.as_str().unicode_len();
        let mut parts: Vec<String> = Vec::new();
        let mut i: usize = 0;
        proof {
            assert(text.skip(0) =~= text);
            assert(views_of(parts@) + shard(text, w) =~= shard(text, w));
        }
        while i < len
            invariant
                w == chars_per_level as int,
                1 <= w,
                i <= len,
                len == text.len(),
                s@ == text,
                s.is_ascii(),
                views_of(parts@) + shard(text.skip(i as int), w) == shard(text, w),
            decreases len - i,
        {
            let end = if len - i < chars_per_level {
                len
            } else {
                i + chars_per_level
            };
            let chunk = s.as_str().substring_ascii(i, end);
            let piece = chunk.to_owned();
            proof {
                let rest = text.skip(i as int);
                if rest.len() <= w {
                    assert(piece@ =~= rest);
                    assert(text.skip(end as int) =~= Seq::<char>::empty());
                    assert(shard(rest, w) == seq![rest]);
                } else {
                    assert(piece@ =~= rest.take(w));
                    assert(text.skip(end as int) =~= rest.skip(w));
                    assert(shard(rest, w) == seq![rest.take(w)] + shard(rest.skip(w), w));
                }
                assert(views_of(parts@.push(piece)) =~= views_of(parts@).push(piece@));
                assert(views_of(parts@.push(piece)) + shard(text.skip(end as int), w)
                    =~= views_of(parts@) + shard(rest, w));
            }
            parts.push(piece);
            i = end;
        }
        proof {
            assert(text.skip(len as int) =~= Seq::<char>::empty());
            assert(shard(text.skip(len as int), w) == Seq::<Seq<char>>::empty());
            assert(views_of(parts@) =~= views_of(parts@) + shard(text.skip(len as int), w));
            assert(shard(text, w).len() >= 1);
            assert(parts@.len() == views_of(parts@).len());
        }
        parts
    }

    /// The full path of an identifier under this store: the root directory
    /// followed by the chunks of the identifier's canonical text.
    pub fn block_path(&self, cid: &ContentId) -> (r: Vec<String>)
        requires
            self.wf(),
            cid@.digest.len() <= 64,
        ensures
            views_of(r@) == self.spec_path(cid@),
            r@.len() >= 2,
    {
        let mut raw = Self::block_path_raw(self.chars_per_level, cid);
        let ghost raw_snap = raw@;
        let mut r: Vec<String> = Vec::new();
        r.push(self.root.clone());
        r.append(&mut raw);
        proof {
            assert(r@ =~= seq![self.root] + raw_snap);
            assert(views_of(r@) =~= seq![self.root@] + views_of(raw_snap));
        }
        r
    }

    /// The one error-translation point of `get`: a missing file is a
    /// successful `None`, any other failure propagates unchanged, and bytes
    /// that were read are re-addressed into a block (the identifier is
    /// recomputed from the bytes, not trusted from the path).
    pub fn interpret_read(outcome: Result<Vec<u8>, StoreError>) -> (r: Result<Option<Block>, StoreError>)
        ensures
            match outcome {
                Ok(bytes) => {
                    &&& r matches Ok(ob)
                    &&& ob matches Some(b)
                    &&& b@.data == bytes@
                    &&& b@.cid == address_of(bytes@)
                },
                Err(e) => {
                    if e == StoreError::NotFound {
                        r == Ok::<Option<Block>, StoreError>(None)
                    } else {
                        r == Err::<Option<Block>, StoreError>(e)
                    }
                },
            },
    {
        match outcome {
            Ok(bytes) => Ok(Some(Block::new(bytes))),
            Err(e) => {
                if e == StoreError::NotFound {
                    Ok(None)
                } else {
                    Err(e)
                }
            },
        }
    }
}

impl Drop for FSStore {
    /// Teardown is deliberately a no-op: every operation completes its
    /// filesystem effect before returning, so there is nothing to flush.
    fn drop(&mut self)
        opens_invariants none
        no_unwind
    {
    }
}

/// Law: reopening changes nothing. Two store handles over the same root and
/// shard width resolve every identifier to the same path, so blocks written
/// through one handle are visible to another (or to a later session) with no
/// re-indexing step.
pub proof fn lemma_reopen_same_paths(s1: FSStore, s2: FSStore, cid: ContentIdView)
    requires
        s1.root@ == s2.root@,
        s1.chars_per_level == s2.chars_per_level,
    ensures
        s1.spec_path(cid) == s2.spec_path(cid),
{
    assert(s1.spec_path(cid) =~= s2.spec_path(cid));
}

} // verus!
