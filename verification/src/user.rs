//! A registered user and what it owns.

use crate::text::{copy_texts, first_position};
use vstd::prelude::*;

verus! {

/// A registered user as a mathematical value: the name that identifies the
/// account, its password, and the identifiers of the pastes it owns, oldest first.
pub struct Account {
    pub username: Seq<char>,
    pub password: Seq<char>,
    pub owned_ids: Seq<Seq<char>>,
}

impl Account {
    /// The same account, owning `owned_ids` instead.
    pub open spec fn with_owned(self, owned_ids: Seq<Seq<char>>) -> Account {
        Account { owned_ids, ..self }
    }
}

/// A registered user.
#[derive(Debug, PartialEq, Eq)]
pub struct User {
    pub username: String,
    pub password: String,
    pub owned_ids: Vec<String>,
}

impl View for User {
    type V = Account;

    open spec fn view(&self) -> Account {
        Account {
            username: self.username@,
            password: self.password@,
            owned_ids: self.owned_ids.deep_view(),
        }
    }
}

impl Clone for User {
    fn clone(&self) -> (copy: User)
        ensures
            copy@ == self@,
    {
        self.duplicate()
    }
}

impl User {
    /// A user who owns nothing yet.
    pub fn new(username: String, password: String) -> (user: User)
        ensures
            user@ == (Account { username: username@, password: password@, owned_ids: Seq::empty() }),
    {
        let user = User { username, password, owned_ids: Vec::new() };
        assert(user.owned_ids.deep_view() =~= Seq::empty());
        user
    }

    /// Whether `id` is among the identifiers the user owns.
    pub fn owns(&self, id: &str) -> (owned: bool)
        ensures
            owned == self@.owned_ids.contains(id@),
    {
        proof {
            self@.owned_ids.index_of_first_ensures(id@);
        }
        first_position(&self.owned_ids, id).is_some()
    }

    /// A copy that holds the same values.
    pub fn duplicate(&self) -> (copy: User)
        ensures
            copy@ == self@,
    {
        User {
            username: self.username.clone(),
            password: self.password.clone(),
            owned_ids: copy_texts(&self.owned_ids),
        }
    }
}

} // verus!
