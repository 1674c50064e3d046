//! The service as mathematics: what it holds, and what each operation makes
//! of that.

use crate::error::Error;
use crate::state::{credited, debited, grants, registered, slot_of};
use crate::user::Account;
use vstd::prelude::*;

verus! {

/// What a sequence holds once `last` was pushed: what it held, and `last`.
pub proof fn lemma_push_contains<A>(s: Seq<A>, last: A)
    ensures
        forall|x: A| #[trigger] s.push(last).contains(x) <==> s.contains(x) || x == last,
{
    assert forall|x: A| #[trigger] s.push(last).contains(x) <==> s.contains(x) || x == last by {
        vstd::seq_lib::lemma_seq_contains_after_push(s, last, x);
    }
}

/// A sequence that holds nothing twice still does once an element was pushed
/// that it did not hold.
pub proof fn lemma_push_keeps_distinct<A>(s: Seq<A>, last: A)
    requires
        s.no_duplicates(),
        !s.contains(last),
    ensures
        s.push(last).no_duplicates(),
{
    let pushed = s.push(last);
    assert forall|a: int, b: int| 0 <= a < pushed.len() && 0 <= b < pushed.len() && a
        != b implies pushed[a] != pushed[b] by {
        if a < s.len() && b < s.len() {
            assert(s[a] != s[b]);
        } else if a < s.len() {
            assert(s.contains(s[a]));
        } else if b < s.len() {
            assert(s.contains(s[b]));
        }
    }
}

/// The identifiers among `ids` under which `present` holds a blob, in the order
/// in which they stand in `ids`.
pub open spec fn backed(ids: Seq<Seq<char>>, present: Set<Seq<char>>) -> Seq<Seq<char>> {
    ids.filter(|id: Seq<char>| present.contains(id))
}

/// `users`, each owning only those of its identifiers under which `present`
/// holds a blob.
pub open spec fn pruned(users: Seq<Account>, present: Set<Seq<char>>) -> Seq<Account> {
    Seq::new(users.len(), |i: int| users[i].with_owned(backed(users[i].owned_ids, present)))
}

/// The identifiers that at least one of `users` owns.
pub open spec fn claimed(users: Seq<Account>) -> Set<Seq<char>> {
    Set::new(
        |id: Seq<char>|
            exists|i: int| 0 <= i < users.len() && (#[trigger] users[i]).owned_ids.contains(id),
    )
}

/// Whether `ids` names, each once, exactly the blobs that `before` holds and
/// `after` does not.
pub open spec fn lists_removed(
    ids: Seq<Seq<char>>,
    before: Map<Seq<char>, Seq<u8>>,
    after: Map<Seq<char>, Seq<u8>>,
) -> bool {
    ids.no_duplicates() && ids.to_set() == before.dom().difference(after.dom())
}

/// The credentials of a request as mathematical values.
pub open spec fn credentials(auth: Option<(String, String)>) -> Option<(Seq<char>, Seq<char>)> {
    match auth {
        Some((username, password)) => Some((username@, password@)),
        None => None,
    }
}

/// What the service holds: the registered users, and the content stored under
/// each identifier.
pub struct ServiceView {
    pub users: Seq<Account>,
    pub blobs: Map<Seq<char>, Seq<u8>>,
}

impl ServiceView {
    /// Whether a request with these credentials is let in: one without
    /// credentials always is, one with credentials if they match a user.
    pub open spec fn admits(self, auth: Option<(Seq<char>, Seq<char>)>) -> bool {
        match auth {
            Some((username, password)) => grants(self.users, username, password),
            None => true,
        }
    }

    /// Where the user stands whom the credentials name, if there are any.
    pub open spec fn owner_slot(self, auth: Option<(Seq<char>, Seq<char>)>) -> Option<int> {
        match auth {
            Some((username, _)) => Some(slot_of(self.users, username)),
            None => None,
        }
    }

    /// Whether the user named `username` owns `id`.
    pub open spec fn owns(self, username: Seq<char>, id: Seq<char>) -> bool {
        registered(self.users, username) && self.users[slot_of(
            self.users,
            username,
        )].owned_ids.contains(id)
    }

    /// Whether every identifier that a user owns names a blob.
    pub open spec fn claims_backed(self) -> bool {
        forall|i: int, id: Seq<char>|
            0 <= i < self.users.len() && (#[trigger] self.users[i]).owned_ids.contains(id)
                ==> #[trigger] self.blobs.contains_key(id)
    }

    /// Whether no identifier is owned twice, be it by one user or by two.
    pub open spec fn claims_single(self) -> bool {
        &&& forall|i: int| 0 <= i < self.users.len() ==> (#[trigger] self.users[i]).owned_ids.no_duplicates()
        &&& forall|i: int, j: int, id: Seq<char>|
            0 <= i < j < self.users.len() ==> !(#[trigger] self.users[i].owned_ids.contains(id)
                && #[trigger] self.users[j].owned_ids.contains(id))
    }

    /// The state that the service aims at: every owned identifier names a
    /// blob, and a blob has at most one owner. A blob without an owner is a
    /// paste that was created without credentials.
    pub open spec fn sound(self) -> bool {
        self.claims_backed() && self.claims_single()
    }

    /// Whether every owned identifier names a blob and every blob has an owner.
    pub open spec fn consistent(self) -> bool {
        &&& self.claims_backed()
        &&& forall|id: Seq<char>| #[trigger]
            self.blobs.contains_key(id) ==> exists|i: int|
                0 <= i < self.users.len() && (#[trigger] self.users[i]).owned_ids.contains(id)
    }

    /// The holdings after the repair pass: every user gives up the identifiers
    /// that name no blob, then every blob that no user owns any more is
    /// removed. A paste that was created without credentials has no owner, so
    /// it does not outlive the pass.
    pub open spec fn reconciled(self) -> ServiceView {
        let users = pruned(self.users, self.blobs.dom());
        ServiceView { users, blobs: self.blobs.restrict(claimed(users)) }
    }

    /// Why `create` refuses to store a paste under `id`, if it does.
    pub open spec fn create_refusal(
        self,
        id: Seq<char>,
        auth: Option<(Seq<char>, Seq<char>)>,
    ) -> Option<Error> {
        if !self.admits(auth) {
            Some(Error::Unauthorized)
        } else if self.blobs.contains_key(id) {
            Some(Error::AlreadyExists)
        } else {
            None
        }
    }

    /// The holdings after `body` was stored under `id`, for the user that the
    /// credentials name if there are any.
    pub open spec fn created(
        self,
        id: Seq<char>,
        body: Seq<u8>,
        auth: Option<(Seq<char>, Seq<char>)>,
    ) -> ServiceView {
        ServiceView {
            users: match auth {
                Some((username, _)) => credited(self.users, slot_of(self.users, username), id),
                None => self.users,
            },
            blobs: self.blobs.insert(id, body),
        }
    }

    /// What reading `id` gives.
    pub open spec fn read(self, id: Seq<char>) -> Result<Seq<u8>, Error> {
        if self.blobs.contains_key(id) {
            Ok(self.blobs[id])
        } else {
            Err(Error::NotFound)
        }
    }

    /// Why `replace` refuses to overwrite the paste under `id`, if it does.
    pub open spec fn replace_refusal(
        self,
        id: Seq<char>,
        auth: Option<(Seq<char>, Seq<char>)>,
    ) -> Option<Error> {
        if !self.admits(auth) {
            Some(Error::Unauthorized)
        } else if auth matches Some((username, _)) && !self.owns(username, id) {
            Some(Error::NotFound)
        } else if !self.blobs.contains_key(id) {
            Some(Error::NotFound)
        } else {
            None
        }
    }

    /// The holdings after the paste under `id` was overwritten with `body`.
    pub open spec fn replaced(self, id: Seq<char>, body: Seq<u8>) -> ServiceView {
        ServiceView { users: self.users, blobs: self.blobs.insert(id, body) }
    }

    /// Why `delete` refuses to remove the paste under `id`, if it does.
    pub open spec fn delete_refusal(
        self,
        id: Seq<char>,
        username: Seq<char>,
        password: Seq<char>,
    ) -> Option<Error> {
        if !grants(self.users, username, password) {
            Some(Error::Unauthorized)
        } else if !self.owns(username, id) {
            Some(Error::NotFound)
        } else if !self.blobs.contains_key(id) {
            Some(Error::NotFound)
        } else {
            None
        }
    }

    /// The holdings after the user named `username` deleted the paste under
    /// `id`: the blob and the user's oldest claim to it are gone, and the
    /// repair pass has run on what was left.
    pub open spec fn deleted(self, id: Seq<char>, username: Seq<char>) -> ServiceView {
        (ServiceView {
            users: debited(self.users, slot_of(self.users, username), id),
            blobs: self.blobs.remove(id),
        }).reconciled()
    }

    /// Why `discard` refuses to take back the paste under `id`, if it does.
    pub open spec fn discard_refusal(self, id: Seq<char>) -> Option<Error> {
        if !self.blobs.contains_key(id) {
            Some(Error::NotFound)
        } else if claimed(self.users).contains(id) {
            Some(Error::Unauthorized)
        } else {
            None
        }
    }

    /// The holdings after the paste under `id` was taken back.
    pub open spec fn discarded(self, id: Seq<char>) -> ServiceView {
        ServiceView { users: self.users, blobs: self.blobs.remove(id) }
    }

    /// The holdings after `username` was registered with `password`.
    pub open spec fn enrolled(self, username: Seq<char>, password: Seq<char>) -> ServiceView {
        ServiceView {
            users: self.users.push(Account { username, password, owned_ids: Seq::empty() }),
            blobs: self.blobs,
        }
    }

    /// What listing the pastes of `username` gives.
    pub open spec fn list(self, username: Seq<char>, password: Seq<char>) -> Result<
        Seq<Seq<char>>,
        Error,
    > {
        if grants(self.users, username, password) {
            Ok(self.users[slot_of(self.users, username)].owned_ids)
        } else {
            Err(Error::Unauthorized)
        }
    }
}

} // verus!
