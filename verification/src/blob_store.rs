//! The blob store: each payload under the identifier that names it.

use crate::error::Error;
use crate::text::same_text;
use vstd::prelude::*;

verus! {

/// One stored payload and the identifier it is kept under.
#[derive(Debug)]
struct Blob {
    id: String,
    content: Vec<u8>,
}

/// Whether one of `blobs` is kept under `id`.
spec fn holds(blobs: Seq<Blob>, id: Seq<char>) -> bool {
    exists|i: int| 0 <= i < blobs.len() && (#[trigger] blobs[i]).id@ == id
}

/// Where in `blobs` the one kept under `id` stands.
spec fn place(blobs: Seq<Blob>, id: Seq<char>) -> int {
    choose|i: int| 0 <= i < blobs.len() && (#[trigger] blobs[i]).id@ == id
}

/// No two of `blobs` are kept under the same identifier.
spec fn distinct_ids(blobs: Seq<Blob>) -> bool {
    forall|i: int, j: int| 0 <= i < j < blobs.len() ==> (#[trigger] blobs[i]).id@ != (#[trigger] blobs[j]).id@
}

/// The map from identifier to content that `blobs` stands for.
spec fn contents(blobs: Seq<Blob>) -> Map<Seq<char>, Seq<u8>> {
    Map::new(|id: Seq<char>| holds(blobs, id), |id: Seq<char>| blobs[place(blobs, id)].content@)
}

/// Among distinct identifiers, the blob found under an identifier is the only
/// one kept under it, and the map holds its content.
proof fn lemma_place_is_unique(blobs: Seq<Blob>, i: int)
    requires
        distinct_ids(blobs),
        0 <= i < blobs.len(),
    ensures
        holds(blobs, blobs[i].id@),
        place(blobs, blobs[i].id@) == i,
        contents(blobs).contains_key(blobs[i].id@),
        contents(blobs)[blobs[i].id@] == blobs[i].content@,
{
    let chosen = place(blobs, blobs[i].id@);
    if chosen < i {
        assert(blobs[chosen].id@ != blobs[i].id@);
    } else if i < chosen {
        assert(blobs[i].id@ != blobs[chosen].id@);
    }
}

/// The blobs of the service: each payload under the identifier that names it.
#[derive(Debug)]
pub struct BlobStore {
    blobs: Vec<Blob>,
}

impl View for BlobStore {
    type V = Map<Seq<char>, Seq<u8>>;

    closed spec fn view(&self) -> Map<Seq<char>, Seq<u8>> {
        contents(self.blobs@)
    }
}

impl BlobStore {
    /// The store's invariant: an identifier names one blob.
    pub closed spec fn wf(&self) -> bool {
        distinct_ids(self.blobs@)
    }

    /// A store without blobs.
    pub fn new() -> (store: BlobStore)
        ensures
            store.wf(),
            store@ == Map::<Seq<char>, Seq<u8>>::empty(),
    {
        let store = BlobStore { blobs: Vec::new() };
        assert(store@ =~= Map::<Seq<char>, Seq<u8>>::empty());
        store
    }

    /// Where the blob kept under `id` stands, if there is one.
    fn find(&self, id: &str) -> (found: Option<usize>)
        requires
            self.wf(),
        ensures
            match found {
                Some(i) => i < self.blobs.len() && self.blobs[i as int].id@ == id@ && self@.contains_key(
                    id@,
                ) && self@[id@] == self.blobs[i as int].content@,
                None => !self@.contains_key(id@),
            },
    {
        let mut i: usize = 0;
        while i < self.blobs.len()
            invariant
                self.wf(),
                i <= self.blobs.len(),
                forall|k: int| 0 <= k < i ==> (#[trigger] self.blobs[k]).id@ != id@,
            decreases self.blobs.len() - i,
        {
            if same_text(self.blobs[i].id.as_str(), id) {
                proof {
                    lemma_place_is_unique(self.blobs@, i as int);
                }
                return Some(i);
            }
            i += 1;
        }
        None
    }

    /// Whether a blob is kept under `id`.
    pub fn contains(&self, id: &str) -> (present: bool)
        requires
            self.wf(),
        ensures
            present == self@.contains_key(id@),
    {
        self.find(id).is_some()
    }

    /// Stores `content` under `id`, which must not name a blob yet.
    pub fn create_exclusive(&mut self, id: String, content: Vec<u8>) -> (created: Result<(), Error>)
        requires
            old(self).wf(),
        ensures
            final(self).wf(),
            match created {
                Ok(()) => !old(self)@.contains_key(id@) && final(self)@ == old(self)@.insert(
                    id@,
                    content@,
                ),
                Err(e) => e == Error::AlreadyExists && old(self)@.contains_key(id@) && final(self)@
                    == old(self)@,
            },
    {
        match self.find(id.as_str()) {
            Some(_) => Err(Error::AlreadyExists),
            None => {
                self.blobs.push(Blob { id, content });
                proof {
                    let before = old(self).blobs@;
                    let after = self.blobs@;
                    let last = before.len() as int;
                    assert forall|key: Seq<char>| #[trigger]
                        contents(after).contains_key(key) == old(self)@.insert(
                            id@,
                            content@,
                        ).contains_key(key) by {
                        if holds(after, key) {
                            let i = place(after, key);
                            if i < last {
                                assert(before[i].id@ == key);
                            }
                        }
                        if holds(before, key) {
                            let i = place(before, key);
                            assert(after[i].id@ == key);
                        }
                        if key == id@ {
                            assert(after[last].id@ == key);
                        }
                    }
                    assert(self@ =~= old(self)@.insert(id@, content@));
                }
                Ok(())
            },
        }
    }

    /// The content kept under `id`.
    pub fn open_for_read(&self, id: &str) -> (opened: Result<&Vec<u8>, Error>)
        requires
            self.wf(),
        ensures
            match opened {
                Ok(content) => self@.contains_key(id@) && content@ == self@[id@],
                Err(e) => e == Error::NotFound && !self@.contains_key(id@),
            },
    {
        match self.find(id) {
            Some(i) => Ok(&self.blobs[i].content),
            None => Err(Error::NotFound),
        }
    }

    /// Replaces the content kept under `id`, which must name a blob already.
    pub fn overwrite(&mut self, id: &str, content: Vec<u8>) -> (written: Result<(), Error>)
        requires
            old(self).wf(),
        ensures
            final(self).wf(),
            match written {
                Ok(()) => old(self)@.contains_key(id@) && final(self)@ == old(self)@.insert(
                    id@,
                    content@,
                ),
                Err(e) => e == Error::NotFound && !old(self)@.contains_key(id@) && final(self)@
                    == old(self)@,
            },
    {
        match self.find(id) {
            Some(at) => {
                self.blobs[at].content = content;
                proof {
                    let before = old(self).blobs@;
                    let after = self.blobs@;
                    assert forall|k: Seq<char>| #[trigger]
                        contents(after).contains_key(k) == old(self)@.insert(
                            id@,
                            content@,
                        ).contains_key(k) by {
                        if holds(after, k) {
                            let i = place(after, k);
                            assert(before[i].id@ == k);
                        }
                        if holds(before, k) {
                            let i = place(before, k);
                            assert(after[i].id@ == k);
                        }
                    }
                    assert(self@ =~= old(self)@.insert(id@, content@));
                }
                Ok(())
            },
            None => Err(Error::NotFound),
        }
    }

    /// Removes the blob kept under `id`.
    pub fn delete(&mut self, id: &str) -> (deleted: Result<(), Error>)
        requires
            old(self).wf(),
        ensures
            final(self).wf(),
            match deleted {
                Ok(()) => old(self)@.contains_key(id@) && final(self)@ == old(self)@.remove(id@),
                Err(e) => e == Error::NotFound && !old(self)@.contains_key(id@) && final(self)@
                    == old(self)@,
            },
    {
        match self.find(id) {
            Some(at) => {
                self.blobs.remove(at);
                proof {
                    let before = old(self).blobs@;
                    let after = self.blobs@;
                    assert forall|k: Seq<char>| #[trigger]
                        contents(after).contains_key(k) == old(self)@.remove(id@).contains_key(
                            k,
                        ) by {
                        if holds(after, k) {
                            let i = place(after, k);
                            let a = if i < at { i } else { i + 1 };
                            assert(before[a].id@ == k);
                            if k == id@ {
                                lemma_place_is_unique(before, a);
                                lemma_place_is_unique(before, at as int);
                            }
                        }
                        if holds(before, k) && k != id@ {
                            let a = place(before, k);
                            let i = if a < at { a } else { a - 1 };
                            assert(after[i].id@ == k);
                        }
                    }
                    assert(self@ =~= old(self)@.remove(id@));
                }
                Ok(())
            },
            None => Err(Error::NotFound),
        }
    }

    /// The identifier of every blob in the store, each once.
    pub fn list_all(&self) -> (ids: Vec<String>)
        requires
            self.wf(),
        ensures
            ids.deep_view().no_duplicates(),
            ids.deep_view().to_set() == self@.dom(),
    {
        let mut ids: Vec<String> = Vec::new();
        let mut i: usize = 0;
        while i < self.blobs.len()
            invariant
                i <= self.blobs.len(),
                ids.len() == i,
                forall|k: int| 0 <= k < i ==> (#[trigger] ids[k])@ == self.blobs[k].id@,
            decreases self.blobs.len() - i,
        {
            ids.push(self.blobs[i].id.clone());
            i += 1;
        }
        proof {
            let texts = ids.deep_view();
            assert forall|key: Seq<char>| texts.to_set().contains(key) == self@.dom().contains(
                key,
            ) by {
                if holds(self.blobs@, key) {
                    let k = place(self.blobs@, key);
                    assert(ids[k]@ == self.blobs[k].id@);
                    assert(texts[k] == key);
                }
            }
            assert(texts.to_set() =~= self@.dom());
        }
        ids
    }
}

} // verus!
