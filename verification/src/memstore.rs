//! The abstract blockstore capability and a verified in-memory backend.
//!
//! The capability set {put, has, get, delete} is stated over an abstract
//! `contents` map from identifier to bytes, so that alternative backends can
//! satisfy it; `MemStore` is the backend verified here.

use vstd::prelude::*;
use crate::block::{address_of, clone_bytes, Block, ContentId, ContentIdView};
use crate::blockstore::StoreError;

verus! {

/// The blockstore capability set. `contents` is the abstract state: which
/// bytes lie under which identifier.
pub trait Blockstore: Sized {
    /// The blocks the store holds, identifier to bytes.
    spec fn contents(&self) -> Map<ContentIdView, Seq<u8>>;

    /// Persists `block.data` under `block.cid`. On success the block is
    /// stored; writing the same block twice is idempotent in content. A
    /// failing put may leave the store partially mutated: there is no
    /// rollback, and retrying the whole put is safe because the content
    /// addressing makes the retried write idempotent.
    fn put_block(&mut self, block: &Block) -> (r: Result<(), StoreError>)
        ensures
            r matches Ok(_) ==> final(self).contents() == old(self).contents().insert(
                block@.cid,
                block@.data,
            ),
    ;

    /// True iff a block lies under `cid`; never fails.
    fn has_block(&self, cid: &ContentId) -> (r: bool)
        ensures
            r == self.contents().contains_key(cid@),
    ;

    /// Reads the block under `cid`, re-deriving it from the stored bytes
    /// (the identifier is recomputed, not trusted). An absent block is a
    /// successful `None`, never an error.
    fn get_block(&self, cid: &ContentId) -> (r: Result<Option<Block>, StoreError>)
        ensures
            !self.contents().contains_key(cid@) ==> r == Ok::<Option<Block>, StoreError>(None),
            r matches Ok(None) ==> !self.contents().contains_key(cid@),
            r matches Ok(Some(b)) ==> {
                &&& self.contents().contains_key(cid@)
                &&& b@.data == self.contents()[cid@]
                &&& b@.cid == address_of(b@.data)
            },
    ;

    /// Removes the block under `cid`. Deleting an absent block is a
    /// reported error, not a no-op.
    fn del_block(&mut self, cid: &ContentId) -> (r: Result<(), StoreError>)
        ensures
            r matches Ok(_) ==> {
                &&& old(self).contents().contains_key(cid@)
                &&& final(self).contents() == old(self).contents().remove(cid@)
            },
            r matches Err(_) ==> final(self).contents() == old(self).contents(),
            !old(self).contents().contains_key(cid@) ==> r == Err::<(), StoreError>(
                StoreError::NotFound,
            ),
    ;
}

/// Pairwise-distinct identifiers in an entry list.
spec fn distinct_keys(entries: Seq<(ContentId, Vec<u8>)>) -> bool {
    forall|i: int, j: int|
        0 <= i < j < entries.len() ==> (#[trigger] entries[i]).0@ != (#[trigger] entries[j]).0@
}

/// The map an entry list denotes; a later entry would override an earlier
/// one, but the store keeps keys distinct.
spec fn map_of(entries: Seq<(ContentId, Vec<u8>)>) -> Map<ContentIdView, Seq<u8>>
    decreases entries.len(),
{
    if entries.len() == 0 {
        Map::empty()
    } else {
        map_of(entries.drop_last()).insert(entries.last().0@, entries.last().1@)
    }
}

proof fn lemma_distinct_drop_last(entries: Seq<(ContentId, Vec<u8>)>)
    requires
        distinct_keys(entries),
        entries.len() > 0,
    ensures
        distinct_keys(entries.drop_last()),
{
    assert forall|i: int, j: int| 0 <= i < j < entries.drop_last().len() implies (#[trigger] entries
        .drop_last()[i]).0@ != (#[trigger] entries.drop_last()[j]).0@ by {
        assert(entries.drop_last()[i] == entries[i]);
        assert(entries.drop_last()[j] == entries[j]);
    }
}

proof fn lemma_map_of_domain(entries: Seq<(ContentId, Vec<u8>)>, k: ContentIdView)
    ensures
        map_of(entries).contains_key(k) <==> exists|i: int|
            0 <= i < entries.len() && (#[trigger] entries[i]).0@ == k,
    decreases entries.len(),
{
    if entries.len() > 0 {
        lemma_map_of_domain(entries.drop_last(), k);
        if entries.last().0@ == k {
            assert(entries[entries.len() - 1].0@ == k);
        } else {
            if exists|i: int| 0 <= i < entries.len() && (#[trigger] entries[i]).0@ == k {
                let i = choose|i: int| 0 <= i < entries.len() && (#[trigger] entries[i]).0@ == k;
                assert(i < entries.len() - 1);
                assert(entries.drop_last()[i].0@ == k);
            }
            if map_of(entries).contains_key(k) {
                let i = choose|i: int|
                    0 <= i < entries.drop_last().len() && (#[trigger] entries.drop_last()[i]).0@
                        == k;
                assert(entries[i].0@ == k);
            }
        }
    }
}

proof fn lemma_map_of_lookup(entries: Seq<(ContentId, Vec<u8>)>, i: int)
    requires
        distinct_keys(entries),
        0 <= i < entries.len(),
    ensures
        map_of(entries).contains_key(entries[i].0@),
        map_of(entries)[entries[i].0@] == entries[i].1@,
    decreases entries.len(),
{
    if i < entries.len() - 1 {
        lemma_distinct_drop_last(entries);
        assert(entries.drop_last()[i] == entries[i]);
        lemma_map_of_lookup(entries.drop_last(), i);
        assert(entries[i].0@ != entries.last().0@);
    }
}

proof fn lemma_map_of_update(entries: Seq<(ContentId, Vec<u8>)>, i: int, e: (ContentId, Vec<u8>))
    requires
        distinct_keys(entries),
        0 <= i < entries.len(),
        entries[i].0@ == e.0@,
    ensures
        map_of(entries.update(i, e)) == map_of(entries).insert(e.0@, e.1@),
        distinct_keys(entries.update(i, e)),
    decreases entries.len(),
{
    let updated = entries.update(i, e);
    assert forall|p: int, q: int| 0 <= p < q < updated.len() implies (#[trigger] updated[p]).0@
        != (#[trigger] updated[q]).0@ by {
        assert(updated[p].0@ == entries[p].0@);
        assert(updated[q].0@ == entries[q].0@);
    }
    if i == entries.len() - 1 {
        assert(updated.drop_last() =~= entries.drop_last());
        assert(updated.last() == e);
        assert(map_of(updated) =~= map_of(entries).insert(e.0@, e.1@));
    } else {
        lemma_distinct_drop_last(entries);
        assert(entries.drop_last()[i] == entries[i]);
        lemma_map_of_update(entries.drop_last(), i, e);
        assert(updated.drop_last() =~= entries.drop_last().update(i, e));
        assert(updated.last() == entries.last());
        assert(entries[i].0@ != entries.last().0@);
        assert(map_of(updated) =~= map_of(entries).insert(e.0@, e.1@));
    }
}

proof fn lemma_map_of_push(entries: Seq<(ContentId, Vec<u8>)>, e: (ContentId, Vec<u8>))
    requires
        distinct_keys(entries),
        forall|i: int| 0 <= i < entries.len() ==> (#[trigger] entries[i]).0@ != e.0@,
    ensures
        map_of(entries.push(e)) == map_of(entries).insert(e.0@, e.1@),
        distinct_keys(entries.push(e)),
{
    let pushed = entries.push(e);
    assert(pushed.drop_last() =~= entries);
    assert(pushed.last() == e);
    assert forall|p: int, q: int| 0 <= p < q < pushed.len() implies (#[trigger] pushed[p]).0@
        != (#[trigger] pushed[q]).0@ by {
        if q < entries.len() {
            assert(pushed[p] == entries[p]);
            assert(pushed[q] == entries[q]);
        } else {
            assert(pushed[p] == entries[p]);
            assert(pushed[q] == e);
        }
    }
}

proof fn lemma_map_of_remove(entries: Seq<(ContentId, Vec<u8>)>, i: int)
    requires
        distinct_keys(entries),
        0 <= i < entries.len(),
    ensures
        map_of(entries.remove(i)) == map_of(entries).remove(entries[i].0@),
        distinct_keys(entries.remove(i)),
    decreases entries.len(),
{
    let removed = entries.remove(i);
    assert forall|p: int, q: int| 0 <= p < q < removed.len() implies (#[trigger] removed[p]).0@
        != (#[trigger] removed[q]).0@ by {
        assert(removed[p] == (if p < i { entries[p] } else { entries[p + 1] }));
        assert(removed[q] == (if q < i { entries[q] } else { entries[q + 1] }));
    }
    lemma_distinct_drop_last(entries);
    if i == entries.len() - 1 {
        assert(removed =~= entries.drop_last());
        lemma_map_of_domain(entries.drop_last(), entries[i].0@);
        assert(!map_of(entries.drop_last()).contains_key(entries[i].0@));
        assert(map_of(removed) =~= map_of(entries).remove(entries[i].0@));
    } else {
        assert(entries.drop_last()[i] == entries[i]);
        lemma_map_of_remove(entries.drop_last(), i);
        assert(removed.drop_last() =~= entries.drop_last().remove(i));
        assert(removed.last() == entries.last());
        assert(entries[i].0@ != entries.last().0@);
        assert(map_of(removed) =~= map_of(entries).remove(entries[i].0@));
    }
}

/// A verified in-memory backend: an association list whose identifiers stay
/// pairwise distinct.
pub struct MemStore {
    entries: Vec<(ContentId, Vec<u8>)>,
}

impl MemStore {
    #[verifier::type_invariant]
    spec fn inv(&self) -> bool {
        distinct_keys(self.entries@)
    }

    /// An empty store.
    pub fn new() -> (r: MemStore)
        ensures
            r.contents() == Map::<ContentIdView, Seq<u8>>::empty(),
    {
        MemStore { entries: Vec::new() }
    }

    /// The index of the entry under `cid`, if any.
    fn find(&self, cid: &ContentId) -> (r: Option<usize>)
        ensures
            match r {
                Some(i) => i < self.entries@.len() && self.entries@[i as int].0@ == cid@,
                None => forall|i: int|
                    0 <= i < self.entries@.len() ==> (#[trigger] self.entries@[i]).0@ != cid@,
            },
    {
        let mut i: usize = 0;
        while i < self.entries.len()
            invariant
                i <= self.entries@.len(),
                forall|j: int| 0 <= j < i ==> (#[trigger] self.entries@[j]).0@ != cid@,
            decreases self.entries@.len() - i,
        {
            if self.entries[i].0 == *cid {
                return Some(i);
            }
            i = i + 1;
        }
        None
    }
}

impl Blockstore for MemStore {
    closed spec fn contents(&self) -> Map<ContentIdView, Seq<u8>> {
        map_of(self.entries@)
    }

    fn put_block(&mut self, block: &Block) -> (r: Result<(), StoreError>)
        ensures
            r == Ok::<(), StoreError>(()),
    {
        proof {
            use_type_invariant(&*self);
        }
        let idx = self.find(&block.cid);
        let mut entries: Vec<(ContentId, Vec<u8>)> = Vec::new();
        core::mem::swap(&mut entries, &mut self.entries);
        let entry = (block.cid.clone(), clone_bytes(&block.data));
        match idx {
            Some(i) => {
                proof {
                    lemma_map_of_update(entries@, i as int, entry);
                }
                entries.set(i, entry);
            },
            None => {
                proof {
                    lemma_map_of_push(entries@, entry);
                }
                entries.push(entry);
            },
        }
        self.entries = entries;
        Ok(())
    }

    fn has_block(&self, cid: &ContentId) -> (r: bool) {
        let idx = self.find(cid);
        proof {
            lemma_map_of_domain(self.entries@, cid@);
        }
        idx.is_some()
    }

    fn get_block(&self, cid: &ContentId) -> (r: Result<Option<Block>, StoreError>)
        ensures
            self.contents().contains_key(cid@) ==> r matches Ok(Some(_)),
    {
        proof {
            use_type_invariant(&*self);
        }
        let idx = self.find(cid);
        match idx {
            Some(i) => {
                proof {
                    lemma_map_of_lookup(self.entries@, i as int);
                }
                let data = clone_bytes(&self.entries[i].1);
                Ok(Some(Block::new(data)))
            },
            None => {
                proof {
                    lemma_map_of_domain(self.entries@, cid@);
                }
                Ok(None)
            },
        }
    }

    fn del_block(&mut self, cid: &ContentId) -> (r: Result<(), StoreError>)
        ensures
            old(self).contents().contains_key(cid@) ==> r == Ok::<(), StoreError>(()),
    {
        proof {
            use_type_invariant(&*self);
        }
        let idx = self.find(cid);
        match idx {
            Some(i) => {
                let mut entries: Vec<(ContentId, Vec<u8>)> = Vec::new();
                core::mem::swap(&mut entries, &mut self.entries);
                proof {
                    lemma_map_of_lookup(entries@, i as int);
                    lemma_map_of_remove(entries@, i as int);
                }
                let _removed = entries.remove(i);
                self.entries = entries;
                Ok(())
            },
            None => {
                proof {
                    lemma_map_of_domain(self.entries@, cid@);
                }
                Err(StoreError::NotFound)
            },
        }
    }
}

/// Law (round trip): putting a block and then getting its identifier yields
/// it back. Under the store contracts, `put_block(b)` makes `contents` hold
/// `b.data` at `b.cid`, so `get_block(b.cid)` returns `Some` of a block with
/// the same bytes, and the identifier re-derived from those bytes equals the
/// one requested.
pub proof fn lemma_put_get_round_trip(m: Map<ContentIdView, Seq<u8>>, b: Block)
    requires
        b.wf(),
    ensures
        m.insert(b@.cid, b@.data).contains_key(b@.cid),
        m.insert(b@.cid, b@.data)[b@.cid] == b@.data,
        address_of(m.insert(b@.cid, b@.data)[b@.cid]) == b@.cid,
{
}

/// Law (presence): an identifier is absent from an empty store, present
/// right after it is put, and absent again right after it is deleted. Under
/// the store contracts this is exactly what `has_block` reports at each of
/// those three states.
pub proof fn lemma_presence(m: Map<ContentIdView, Seq<u8>>, id: ContentIdView, data: Seq<u8>)
    ensures
        !Map::<ContentIdView, Seq<u8>>::empty().contains_key(id),
        m.insert(id, data).contains_key(id),
        !m.insert(id, data).remove(id).contains_key(id),
{
}

} // verus!
