//! The paste service: create, read, replace, delete and list pastes, register
//! users, and repair what has diverged.

use crate::blob_store::BlobStore;
use crate::error::Error;
use crate::guarantees::{
    lemma_create_keeps_claims_backed, lemma_discard_keeps_claims_backed,
    lemma_enroll_keeps_claims_backed, lemma_reconciled_is_consistent,
    lemma_replace_keeps_claims_backed,
};
use crate::identifier::{identifier_from_random, identifier_text, is_random_identifier};
use crate::model::{
    backed, claimed, credentials, lemma_push_contains, lemma_push_keeps_distinct, lists_removed,
    pruned, ServiceView,
};
use crate::state::{accounts, distinct_names, State};
use crate::text::{copy_texts, first_position};
use crate::user::User;
use vstd::prelude::*;

verus! {

/// Taking one more identifier into account either appends it to what is backed
/// or changes nothing.
proof fn lemma_backed_step(ids: Seq<Seq<char>>, present: Set<Seq<char>>, i: int)
    requires
        0 <= i < ids.len(),
    ensures
        backed(ids.take(i + 1), present) == if present.contains(ids[i]) {
            backed(ids.take(i), present).push(ids[i])
        } else {
            backed(ids.take(i), present)
        },
{
    reveal(Seq::filter);
    assert(ids.take(i + 1).drop_last() =~= ids.take(i));
}

/// The identifiers among `owned` under which `store` holds a blob. Each of
/// them is also appended to `surviving`.
fn retain_backed(owned: &Vec<String>, store: &BlobStore, surviving: &mut Vec<String>) -> (kept: Vec<
    String,
>)
    requires
        store.wf(),
    ensures
        kept.deep_view() == backed(owned.deep_view(), store@.dom()),
        final(surviving).deep_view() == old(surviving).deep_view() + kept.deep_view(),
{
    let ghost all = owned.deep_view();
    let ghost present = store@.dom();
    let mut kept: Vec<String> = Vec::new();
    let mut i: usize = 0;
    while i < owned.len()
        invariant
            store.wf(),
            present == store@.dom(),
            all == owned.deep_view(),
            i <= owned.len(),
            kept.deep_view() == backed(all.take(i as int), present),
            surviving.deep_view() == old(surviving).deep_view() + kept.deep_view(),
        decreases owned.len() - i,
    {
        proof {
            lemma_backed_step(all, present, i as int);
        }
        if store.contains(owned[i].as_str()) {
            let ghost surviving_before = surviving.deep_view();
            kept.push(owned[i].clone());
            surviving.push(owned[i].clone());
            proof {
                assert(surviving.deep_view() =~= surviving_before.push(all[i as int]));
            }
        }
        i += 1;
    }
    assert(all.take(owned.len() as int) =~= all);
    kept
}

/// The paste service: the registry of users and the store of blobs, changed
/// together so that what users own and what is stored stay consistent.
#[derive(Debug)]
pub struct Service {
    state: State,
    store: BlobStore,
}

impl View for Service {
    type V = ServiceView;

    closed spec fn view(&self) -> ServiceView {
        ServiceView { users: self.state@, blobs: self.store@ }
    }
}

impl Service {
    /// The invariant of the blob store inside.
    pub closed spec fn store_wf(&self) -> bool {
        self.store.wf()
    }

    /// The service's invariant: a username identifies one account, and an
    /// identifier names one blob.
    pub open spec fn wf(&self) -> bool {
        distinct_names(self@.users) && self.store_wf()
    }

    /// A service over the blobs in `store` and the users in `state`, after a
    /// first repair pass. Also returns the identifiers of the blobs that the
    /// pass removed.
    pub fn new(store: BlobStore, state: State) -> (made: (Service, Vec<String>))
        requires
            store.wf(),
            state.wf(),
        ensures
            made.0.wf(),
            made.0@ == (ServiceView { users: state@, blobs: store@ }).reconciled(),
            made.0@.consistent(),
            lists_removed(made.1.deep_view(), store@, made.0@.blobs),
    {
        let mut service = Service { state, store };
        let purged = service.cleanup_dangling_files();
        (service, purged)
    }

    /// The repair pass. Every user gives up the identifiers that name no blob;
    /// then every blob that no user owns any more is removed, which includes
    /// every paste that was created without credentials. Returns the
    /// identifiers of the blobs that were removed.
    pub fn cleanup_dangling_files(&mut self) -> (purged: Vec<String>)
        requires
            old(self).wf(),
        ensures
            final(self).wf(),
            final(self)@ == old(self)@.reconciled(),
            final(self)@.consistent(),
            lists_removed(purged.deep_view(), old(self)@.blobs, final(self)@.blobs),
    {
        let ghost before = self@;
        proof {
            lemma_reconciled_is_consistent(before);
        }
        let ghost present = before.blobs.dom();
        let ghost target = pruned(before.users, present);
        let mut surviving: Vec<String> = Vec::new();
        let count = self.state.user_count();
        let mut slot: usize = 0;
        while slot < count
            invariant
                self.state.wf(),
                self.store.wf(),
                self.store@ == before.blobs,
                present == before.blobs.dom(),
                target == pruned(before.users, present),
                slot <= count,
                count == before.users.len(),
                self.state@.len() == count,
                forall|k: int| 0 <= k < slot ==> self.state@[k] == target[k],
                forall|k: int| slot <= k < count ==> self.state@[k] == before.users[k],
                forall|id: Seq<char>|
                    surviving.deep_view().contains(id) <==> exists|k: int|
                        0 <= k < slot && (#[trigger] target[k]).owned_ids.contains(id),
            decreases count - slot,
        {
            let ghost collected = surviving.deep_view();
            let kept = retain_backed(&self.state.user(slot).owned_ids, &self.store, &mut surviving);
            self.state.set_owned(slot, kept);
            proof {
                assert forall|id: Seq<char>|
                    surviving.deep_view().contains(id) <==> exists|k: int|
                        0 <= k < slot + 1 && (#[trigger] target[k]).owned_ids.contains(id) by {
                    let fresh = kept.deep_view();
                    if surviving.deep_view().contains(id) {
                        let at = choose|at: int|
                            0 <= at < surviving.deep_view().len() && surviving.deep_view()[at] == id;
                        if at < collected.len() {
                            assert(collected[at] == id);
                            assert(collected.contains(id));
                        } else {
                            assert(fresh[at - collected.len()] == id);
                            assert(target[slot as int].owned_ids.contains(id));
                        }
                    }
                    if exists|k: int|
                        0 <= k < slot + 1 && (#[trigger] target[k]).owned_ids.contains(id) {
                        let k = choose|k: int|
                            0 <= k < slot + 1 && (#[trigger] target[k]).owned_ids.contains(id);
                        if k < slot {
                            assert(collected.contains(id));
                            let at = choose|at: int| 0 <= at < collected.len() && collected[at] == id;
                            assert(surviving.deep_view()[at] == id);
                        } else {
                            let at = choose|at: int| 0 <= at < fresh.len() && fresh[at] == id;
                            assert(surviving.deep_view()[collected.len() + at] == id);
                        }
                    }
                }
            }
            slot += 1;
        }
        assert(self.state@ =~= target);
        let ghost owners = claimed(target);
        assert forall|id: Seq<char>| surviving.deep_view().contains(id) <==> owners.contains(id) by {}
        let ids = self.store.list_all();
        let mut purged: Vec<String> = Vec::new();
        let mut i: usize = 0;
        while i < ids.len()
            invariant
                self.store.wf(),
                self.state@ == target,
                distinct_names(target),
                owners == claimed(target),
                i <= ids.len(),
                ids.deep_view().no_duplicates(),
                ids.deep_view().to_set() == before.blobs.dom(),
                forall|id: Seq<char>| #[trigger]
                    surviving.deep_view().contains(id) <==> owners.contains(id),
                forall|id: Seq<char>| #[trigger]
                    self.store@.contains_key(id) <==> before.blobs.contains_key(id) && (
                    owners.contains(id) || !ids.deep_view().take(i as int).contains(id)),
                forall|id: Seq<char>| #[trigger]
                    self.store@.contains_key(id) ==> self.store@[id] == before.blobs[id],
                purged.deep_view().no_duplicates(),
                forall|id: Seq<char>| #[trigger]
                    purged.deep_view().contains(id) <==> ids.deep_view().take(i as int).contains(id)
                        && !owners.contains(id),
            decreases ids.len() - i,
        {
            let ghost id = ids.deep_view()[i as int];
            let ghost seen = ids.deep_view().take(i as int);
            let ghost seen_next = ids.deep_view().take(i + 1);
            let ghost listed = purged.deep_view();
            proof {
                assert(seen_next[i as int] == id);
                surviving.deep_view().index_of_first_ensures(id);
            }
            if first_position(&surviving, ids[i].as_str()).is_none() {
                let gone = self.store.delete(ids[i].as_str());
                purged.push(ids[i].clone());
                proof {
                    assert(gone is Ok);
                    assert(purged.deep_view() =~= listed.push(id));
                    lemma_push_contains(listed, id);
                    lemma_push_keeps_distinct(listed, id);
                }
            } else {
                assert(owners.contains(id));
            }
            proof {
                assert forall|other: Seq<char>| #[trigger]
                    purged.deep_view().contains(other) <==> seen_next.contains(other)
                        && !owners.contains(other) by {
                    assert(listed.contains(other) <==> seen.contains(other) && !owners.contains(
                        other,
                    ));
                }
            }
            i += 1;
        }
        proof {
            let listing = ids.deep_view();
            assert(listing.take(ids.len() as int) =~= listing);
            assert(self.store@ =~= before.blobs.restrict(owners));
            assert(purged.deep_view().to_set() =~= before.blobs.dom().difference(self.store@.dom()));
        }
        purged
    }

    /// Stores `body` under the given identifier. With credentials the paste
    /// belongs to the user they name; without, it has no owner. Nothing is
    /// stored when the credentials match no user, or when `id` already names
    /// a blob.
    pub fn create_with(&mut self, id: String, body: Vec<u8>, auth: Option<(String, String)>) -> (created:
        Result<String, Error>)
        requires
            old(self).wf(),
        ensures
            final(self).wf(),
            match created {
                Ok(given) => given@ == id@ && old(self)@.create_refusal(id@, credentials(auth))
                    is None && final(self)@ == old(self)@.created(id@, body@, credentials(auth)),
                Err(e) => old(self)@.create_refusal(id@, credentials(auth)) == Some(e) && final(
                    self)@ == old(self)@,
            },
            old(self)@.claims_backed() ==> final(self)@.claims_backed(),
    {
        let owner = match &auth {
            Some((username, password)) => {
                match self.state.authenticate_mutable(username.as_str(), password.as_str()) {
                    Some(slot) => Some(slot),
                    None => {
                        return Err(Error::Unauthorized);
                    },
                }
            },
            None => None,
        };
        let ghost stored = body@;
        match self.store.create_exclusive(id.clone(), body) {
            Err(e) => {
                return Err(e);
            },
            Ok(()) => {},
        }
        match owner {
            Some(slot) => {
                self.state.grant(slot, id.clone());
            },
            None => {},
        }
        proof {
            if old(self)@.claims_backed() {
                lemma_create_keeps_claims_backed(old(self)@, id@, stored, credentials(auth));
            }
        }
        Ok(id)
    }

    /// Stores `body` under the identifier that is made of `random`, sixteen
    /// bytes that the caller has drawn at random, and returns the identifier.
    /// With credentials the paste belongs to the user they name; without, it
    /// has no owner. Nothing is stored when the credentials match no user, or
    /// when the identifier already names a blob: it is refused, and the
    /// caller may draw again.
    pub fn create(&mut self, body: Vec<u8>, auth: Option<(String, String)>, random: [u8; 16]) -> (created:
        Result<String, Error>)
        requires
            old(self).wf(),
        ensures
            final(self).wf(),
            match created {
                Ok(id) => id@ == identifier_text(random@) && is_random_identifier(id@) && old(
                    self)@.create_refusal(id@, credentials(auth)) is None && final(self)@ == old(
                    self)@.created(id@, body@, credentials(auth)),
                Err(e) => old(self)@.create_refusal(identifier_text(random@), credentials(auth))
                    == Some(e) && final(self)@ == old(self)@,
            },
            old(self)@.claims_backed() ==> final(self)@.claims_backed(),
    {
        let id = identifier_from_random(random);
        self.create_with(id, body, auth)
    }

    /// The content stored under `id`. Whoever holds an identifier may read.
    pub fn read(&self, id: &str) -> (content: Result<&Vec<u8>, Error>)
        requires
            self.wf(),
        ensures
            match content {
                Ok(bytes) => self@.read(id@) == Ok::<Seq<u8>, Error>(bytes@),
                Err(e) => self@.read(id@) == Err::<Seq<u8>, Error>(e),
            },
    {
        self.store.open_for_read(id)
    }

    /// Overwrites the paste under `id` with `body`. With credentials the user
    /// they name must own `id`; in any case a blob must be stored under it.
    pub fn replace(&mut self, id: &str, body: Vec<u8>, auth: Option<(String, String)>) -> (replaced:
        Result<(), Error>)
        requires
            old(self).wf(),
        ensures
            final(self).wf(),
            match replaced {
                Ok(()) => old(self)@.replace_refusal(id@, credentials(auth)) is None && final(
                    self)@ == old(self)@.replaced(id@, body@),
                Err(e) => old(self)@.replace_refusal(id@, credentials(auth)) == Some(e) && final(
                    self)@ == old(self)@,
            },
            old(self)@.claims_backed() ==> final(self)@.claims_backed(),
    {
        match &auth {
            Some((username, password)) => {
                match self.state.authenticate(username.as_str(), password.as_str()) {
                    Some(user) => {
                        if !user.owns(id) {
                            return Err(Error::NotFound);
                        }
                    },
                    None => {
                        return Err(Error::Unauthorized);
                    },
                }
            },
            None => {},
        }
        proof {
            if old(self)@.claims_backed() {
                lemma_replace_keeps_claims_backed(old(self)@, id@, body@);
            }
        }
        self.store.overwrite(id, body)
    }

    /// Deletes the paste under `id` for the user who owns it, then runs the
    /// repair pass. Returns the identifiers of the blobs that were removed:
    /// `id` itself and those that the pass purged.
    pub fn delete(&mut self, id: &str, username: &str, password: &str) -> (deleted: Result<
        Vec<String>,
        Error,
    >)
        requires
            old(self).wf(),
        ensures
            final(self).wf(),
            match deleted {
                Ok(removed) => old(self)@.delete_refusal(id@, username@, password@) is None
                    && final(self)@ == old(self)@.deleted(id@, username@) && final(
                    self)@.consistent() && lists_removed(
                    removed.deep_view(),
                    old(self)@.blobs,
                    final(self)@.blobs,
                ),
                Err(e) => old(self)@.delete_refusal(id@, username@, password@) == Some(e)
                    && final(self)@ == old(self)@,
            },
    {
        let slot = match self.state.authenticate_mutable(username, password) {
            Some(slot) => slot,
            None => {
                return Err(Error::Unauthorized);
            },
        };
        if !self.state.user(slot).owns(id) {
            return Err(Error::NotFound);
        }
        match self.store.delete(id) {
            Err(e) => {
                return Err(e);
            },
            Ok(()) => {},
        }
        self.state.revoke(slot, id);
        let mut removed = self.cleanup_dangling_files();
        let ghost purged = removed.deep_view();
        removed.push(id.to_owned());
        proof {
            let all = removed.deep_view();
            assert(all =~= purged.push(id@));
            assert(!purged.contains(id@)) by {
                if purged.contains(id@) {
                    assert(purged.to_set().contains(id@));
                }
            }
            lemma_push_contains(purged, id@);
            lemma_push_keeps_distinct(purged, id@);
            assert forall|other: Seq<char>|
                all.to_set().contains(other) <==> old(self)@.blobs.dom().difference(
                    self@.blobs.dom(),
                ).contains(other) by {
                assert(purged.to_set().contains(other) <==> purged.contains(other));
            }
            assert(all.to_set() =~= old(self)@.blobs.dom().difference(self@.blobs.dom()));
        }
        Ok(removed)
    }

    /// Takes back a paste that no user owns: removes the blob under `id` and
    /// nothing else. It is for whoever persists blobs and could not write one
    /// that was just created; a user deletes with `delete`. A paste that some
    /// user owns is refused, as its owner's credentials are missing.
    pub fn discard(&mut self, id: &str) -> (discarded: Result<(), Error>)
        requires
            old(self).wf(),
        ensures
            final(self).wf(),
            match discarded {
                Ok(()) => old(self)@.discard_refusal(id@) is None && final(self)@ == old(
                    self)@.discarded(id@),
                Err(e) => old(self)@.discard_refusal(id@) == Some(e) && final(self)@ == old(
                    self)@,
            },
            old(self)@.claims_backed() ==> final(self)@.claims_backed(),
    {
        if !self.store.contains(id) {
            return Err(Error::NotFound);
        }
        let count = self.state.user_count();
        let mut slot: usize = 0;
        while slot < count
            invariant
                self.wf(),
                self@ == old(self)@,
                self@.blobs.contains_key(id@),
                slot <= count,
                count == self@.users.len(),
                forall|k: int| 0 <= k < slot ==> !(#[trigger] self@.users[k]).owned_ids.contains(id@),
            decreases count - slot,
        {
            if self.state.user(slot).owns(id) {
                assert(self@.users[slot as int].owned_ids.contains(id@));
                return Err(Error::Unauthorized);
            }
            slot += 1;
        }
        proof {
            if old(self)@.claims_backed() {
                lemma_discard_keeps_claims_backed(old(self)@, id@);
            }
        }
        self.store.delete(id)
    }

    /// Registers `username` with `password`, owning nothing. A name that is
    /// already registered is refused and keeps its account as it is.
    pub fn register_user(&mut self, username: &str, password: &str) -> (registered: Result<
        (),
        Error,
    >)
        requires
            old(self).wf(),
        ensures
            final(self).wf(),
            match registered {
                Ok(()) => !crate::state::registered(old(self)@.users, username@) && final(self)@
                    == old(self)@.enrolled(username@, password@),
                Err(e) => e == Error::AlreadyExists && crate::state::registered(
                    old(self)@.users,
                    username@,
                ) && final(self)@ == old(self)@,
            },
            old(self)@.claims_backed() ==> final(self)@.claims_backed(),
    {
        proof {
            if old(self)@.claims_backed() {
                lemma_enroll_keeps_claims_backed(old(self)@, username@, password@);
            }
        }
        self.state.create_user(username, password)
    }

    /// The identifiers of the pastes that the user owns, oldest first.
    pub fn list(&self, username: &str, password: &str) -> (listed: Result<Vec<String>, Error>)
        requires
            self.wf(),
        ensures
            match listed {
                Ok(ids) => self@.list(username@, password@) == Ok::<Seq<Seq<char>>, Error>(
                    ids.deep_view(),
                ),
                Err(e) => self@.list(username@, password@) == Err::<Seq<Seq<char>>, Error>(e),
            },
    {
        match self.state.authenticate(username, password) {
            Some(user) => Ok(copy_texts(&user.owned_ids)),
            None => Err(Error::Unauthorized),
        }
    }

    /// A snapshot of every registered user, for whoever persists the registry.
    pub fn dump_state(&self) -> (snapshot: Vec<User>)
        ensures
            accounts(snapshot@) == self@.users,
    {
        self.state.dump()
    }
}

} // verus!
