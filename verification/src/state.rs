//! The registry of users.

use crate::error::Error;
use crate::text::{first_position, same_text};
use crate::user::{Account, User};
use vstd::prelude::*;

verus! {

/// The accounts that a sequence of users stands for, in the same order.
pub open spec fn accounts(users: Seq<User>) -> Seq<Account> {
    Seq::new(users.len(), |i: int| users[i]@)
}

/// Whether one of `users` bears `username`.
pub open spec fn registered(users: Seq<Account>, username: Seq<char>) -> bool {
    exists|i: int| 0 <= i < users.len() && (#[trigger] users[i]).username == username
}

/// Where in `users` the account that bears `username` stands.
pub open spec fn slot_of(users: Seq<Account>, username: Seq<char>) -> int {
    choose|i: int| 0 <= i < users.len() && (#[trigger] users[i]).username == username
}

/// No two of `users` bear the same name.
pub open spec fn distinct_names(users: Seq<Account>) -> bool {
    forall|i: int, j: int|
        0 <= i < j < users.len() ==> (#[trigger] users[i]).username != (#[trigger] users[j]).username
}

/// Whether `username` is registered among `users` with exactly `password`.
pub open spec fn grants(users: Seq<Account>, username: Seq<char>, password: Seq<char>) -> bool {
    registered(users, username) && users[slot_of(users, username)].password == password
}

/// `users` once the account at `slot` owns `id` as its newest paste.
pub open spec fn credited(users: Seq<Account>, slot: int, id: Seq<char>) -> Seq<Account> {
    users.update(slot, users[slot].with_owned(users[slot].owned_ids.push(id)))
}

/// `users` once the account at `slot` has given up its oldest claim to `id`.
pub open spec fn debited(users: Seq<Account>, slot: int, id: Seq<char>) -> Seq<Account> {
    users.update(slot, users[slot].with_owned(users[slot].owned_ids.remove_value(id)))
}

/// Among distinct names, the account found under a name is the only one that bears it.
pub proof fn lemma_slot_is_unique(users: Seq<Account>, slot: int, username: Seq<char>)
    requires
        distinct_names(users),
        0 <= slot < users.len(),
        users[slot].username == username,
    ensures
        registered(users, username),
        slot_of(users, username) == slot,
{
    let chosen = slot_of(users, username);
    if chosen < slot {
        assert(users[chosen].username != users[slot].username);
    } else if slot < chosen {
        assert(users[slot].username != users[chosen].username);
    }
}

/// Replacing what an account owns changes neither who is registered nor where.
pub proof fn lemma_names_survive_update(users: Seq<Account>, slot: int, owned_ids: Seq<Seq<char>>)
    requires
        distinct_names(users),
        0 <= slot < users.len(),
    ensures
        distinct_names(users.update(slot, users[slot].with_owned(owned_ids))),
        forall|username: Seq<char>|
            registered(users.update(slot, users[slot].with_owned(owned_ids)), username)
                == registered(users, username),
        forall|username: Seq<char>|
            registered(users, username) ==> slot_of(
                users.update(slot, users[slot].with_owned(owned_ids)),
                username,
            ) == slot_of(users, username),
{
    let after = users.update(slot, users[slot].with_owned(owned_ids));
    assert forall|i: int, j: int| 0 <= i < j < after.len() implies (#[trigger] after[i]).username != (
    #[trigger] after[j]).username by {
        assert(users[i].username != users[j].username);
    }
    assert forall|username: Seq<char>| registered(after, username) == registered(
        users,
        username,
    ) by {
        if registered(after, username) {
            let i = slot_of(after, username);
            assert(users[i].username == username);
        }
        if registered(users, username) {
            let i = slot_of(users, username);
            assert(after[i].username == username);
        }
    }
    assert forall|username: Seq<char>| registered(users, username) implies slot_of(after, username)
        == slot_of(users, username) by {
        let i = slot_of(users, username);
        assert(after[i].username == username);
        lemma_slot_is_unique(after, i, username);
    }
}

/// The registry of users: who may authenticate, and which pastes each owns.
#[derive(Debug)]
pub struct State {
    users: Vec<User>,
}

impl View for State {
    type V = Seq<Account>;

    closed spec fn view(&self) -> Seq<Account> {
        accounts(self.users@)
    }
}

impl State {
    /// The registry's invariant: a username identifies one account.
    pub open spec fn wf(&self) -> bool {
        distinct_names(self@)
    }

    /// A registry without users.
    pub fn new() -> (state: State)
        ensures
            state@ == Seq::<Account>::empty(),
            state.wf(),
    {
        let state = State { users: Vec::new() };
        assert(state@ =~= Seq::<Account>::empty());
        state
    }

    /// The registry that a snapshot describes. Without a snapshot the registry
    /// starts empty; a snapshot in which two users share a name is refused.
    pub fn load(snapshot: Option<Vec<User>>) -> (loaded: Result<State, Error>)
        ensures
            match snapshot {
                None => loaded matches Ok(state) && state@ == Seq::<Account>::empty() && state.wf(),
                Some(users) => if distinct_names(accounts(users@)) {
                    loaded matches Ok(state) && state@ == accounts(users@) && state.wf()
                } else {
                    loaded matches Err(e) && e == Error::CorruptState
                },
            },
    {
        match snapshot {
            None => Ok(State::new()),
            Some(users) => {
                let ghost all = accounts(users@);
                let mut j: usize = 0;
                while j < users.len()
                    invariant
                        snapshot == Some(users),
                        j <= users.len(),
                        all == accounts(users@),
                        forall|a: int, b: int|
                            0 <= a < b < j ==> (#[trigger] all[a]).username != (#[trigger] all[b]).username,
                    decreases users.len() - j,
                {
                    let mut i: usize = 0;
                    while i < j
                        invariant
                            snapshot == Some(users),
                            i <= j < users.len(),
                            all == accounts(users@),
                            forall|a: int| 0 <= a < i ==> (#[trigger] all[a]).username != all[j as int].username,
                        decreases j - i,
                    {
                        if same_text(users[i].username.as_str(), users[j].username.as_str()) {
                            assert(all[i as int].username == all[j as int].username);
                            assert(!distinct_names(all));
                            return Err(Error::CorruptState);
                        }
                        i += 1;
                    }
                    j += 1;
                }
                Ok(State { users })
            },
        }
    }

    /// A snapshot of every user, in the registry's order.
    pub fn dump(&self) -> (snapshot: Vec<User>)
        ensures
            accounts(snapshot@) == self@,
    {
        let mut snapshot: Vec<User> = Vec::new();
        let mut i: usize = 0;
        while i < self.users.len()
            invariant
                i <= self.users.len(),
                snapshot.len() == i,
                forall|k: int| 0 <= k < i ==> snapshot[k]@ == self.users[k]@,
            decreases self.users.len() - i,
        {
            snapshot.push(self.users[i].duplicate());
            i += 1;
        }
        assert(accounts(snapshot@) =~= self@);
        snapshot
    }

    /// How many users are registered.
    pub fn user_count(&self) -> (count: usize)
        ensures
            count == self@.len(),
    {
        self.users.len()
    }

    /// The user at `slot`.
    pub fn user(&self, slot: usize) -> (user: &User)
        requires
            slot < self@.len(),
        ensures
            user@ == self@[slot as int],
    {
        &self.users[slot]
    }

    /// Where the user named `username` stands, if one is registered.
    pub fn position(&self, username: &str) -> (found: Option<usize>)
        requires
            self.wf(),
        ensures
            match found {
                Some(slot) => registered(self@, username@) && slot == slot_of(self@, username@),
                None => !registered(self@, username@),
            },
    {
        let mut i: usize = 0;
        while i < self.users.len()
            invariant
                self.wf(),
                i <= self.users.len(),
                forall|k: int| 0 <= k < i ==> (#[trigger] self@[k]).username != username@,
            decreases self.users.len() - i,
        {
            if same_text(self.users[i].username.as_str(), username) {
                proof {
                    lemma_slot_is_unique(self@, i as int, username@);
                }
                return Some(i);
            }
            i += 1;
        }
        None
    }

    /// The user registered as `username`, provided that `password` is exactly
    /// the password stored for it.
    pub fn authenticate(&self, username: &str, password: &str) -> (found: Option<&User>)
        requires
            self.wf(),
        ensures
            match found {
                Some(user) => grants(self@, username@, password@) && user@ == self@[slot_of(
                    self@,
                    username@,
                )],
                None => !grants(self@, username@, password@),
            },
    {
        match self.authenticate_mutable(username, password) {
            Some(slot) => Some(&self.users[slot]),
            None => None,
        }
    }

    /// Where the user registered as `username` stands, provided that `password`
    /// is exactly the password stored for it. The slot is the handle through
    /// which `grant`, `revoke` and `set_owned` change what that user owns.
    pub fn authenticate_mutable(&self, username: &str, password: &str) -> (found: Option<usize>)
        requires
            self.wf(),
        ensures
            match found {
                Some(slot) => grants(self@, username@, password@) && slot == slot_of(
                    self@,
                    username@,
                ),
                None => !grants(self@, username@, password@),
            },
    {
        match self.position(username) {
            Some(slot) => {
                if same_text(self.users[slot].password.as_str(), password) {
                    Some(slot)
                } else {
                    None
                }
            },
            None => None,
        }
    }

    /// Registers `username` with `password`, owning nothing. A name that is
    /// already registered is refused and keeps its account as it is.
    pub fn create_user(&mut self, username: &str, password: &str) -> (created: Result<(), Error>)
        requires
            old(self).wf(),
        ensures
            final(self).wf(),
            match created {
                Ok(()) => !registered(old(self)@, username@) && final(self)@ == old(self)@.push(
                    Account { username: username@, password: password@, owned_ids: Seq::empty() },
                ),
                Err(e) => e == Error::AlreadyExists && registered(old(self)@, username@)
                    && final(self)@ == old(self)@,
            },
    {
        match self.position(username) {
            Some(_) => Err(Error::AlreadyExists),
            None => {
                let user = User::new(username.to_owned(), password.to_owned());
                self.users.push(user);
                assert(self@ =~= old(self)@.push(user@));
                assert forall|i: int, j: int| 0 <= i < j < self@.len() implies (#[trigger] self@[i]).username
                    != (#[trigger] self@[j]).username by {
                    if j < old(self)@.len() {
                        assert(old(self)@[i].username != old(self)@[j].username);
                    } else {
                        assert(old(self)@[i].username != username@);
                    }
                }
                Ok(())
            },
        }
    }

    /// Records that the user at `slot` owns `id`, as the newest of its pastes.
    pub fn grant(&mut self, slot: usize, id: String)
        requires
            old(self).wf(),
            slot < old(self)@.len(),
        ensures
            final(self).wf(),
            final(self)@ == credited(old(self)@, slot as int, id@),
    {
        self.users[slot].owned_ids.push(id);
        proof {
            let before = old(self)@[slot as int];
            assert(self.users[slot as int].owned_ids.deep_view() =~= before.owned_ids.push(id@));
            assert(self@ =~= credited(old(self)@, slot as int, id@));
            lemma_names_survive_update(old(self)@, slot as int, before.owned_ids.push(id@));
        }
    }

    /// Takes from the user at `slot` its oldest claim to `id`, and says whether
    /// there was one.
    pub fn revoke(&mut self, slot: usize, id: &str) -> (revoked: bool)
        requires
            old(self).wf(),
            slot < old(self)@.len(),
        ensures
            final(self).wf(),
            revoked == old(self)@[slot as int].owned_ids.contains(id@),
            final(self)@ == debited(old(self)@, slot as int, id@),
    {
        let ghost before = old(self)@[slot as int];
        proof {
            before.owned_ids.index_of_first_ensures(id@);
            lemma_names_survive_update(old(self)@, slot as int, before.owned_ids.remove_value(id@));
        }
        match first_position(&self.users[slot].owned_ids, id) {
            Some(index) => {
                self.users[slot].owned_ids.remove(index);
                proof {
                    assert(self.users[slot as int].owned_ids.deep_view() =~= before.owned_ids.remove(
                        index as int,
                    ));
                    assert(self@ =~= debited(old(self)@, slot as int, id@));
                }
                true
            },
            None => {
                assert(self@ =~= debited(old(self)@, slot as int, id@));
                false
            },
        }
    }

    /// Replaces what the user at `slot` owns by `owned_ids`.
    pub fn set_owned(&mut self, slot: usize, owned_ids: Vec<String>)
        requires
            old(self).wf(),
            slot < old(self)@.len(),
        ensures
            final(self).wf(),
            final(self)@ == old(self)@.update(
                slot as int,
                old(self)@[slot as int].with_owned(owned_ids.deep_view()),
            ),
    {
        self.users[slot].owned_ids = owned_ids;
        proof {
            assert(self@ =~= old(self)@.update(
                slot as int,
                old(self)@[slot as int].with_owned(owned_ids.deep_view()),
            ));
            lemma_names_survive_update(old(self)@, slot as int, owned_ids.deep_view());
        }
    }
}

} // verus!
