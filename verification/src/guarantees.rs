//! What holds of the service whatever it is asked to do, each statement with
//! its proof.

use crate::error::Error;
use crate::model::{
    backed, claimed, lemma_push_contains, lemma_push_keeps_distinct, ServiceView,
};
use crate::state::{
    debited, distinct_names, grants, lemma_names_survive_update, registered, slot_of,
};
use vstd::prelude::*;

verus! {

/// Whatever is backed names a blob and stood among the identifiers before.
pub proof fn lemma_backed_is_present(ids: Seq<Seq<char>>, present: Set<Seq<char>>)
    ensures
        forall|id: Seq<char>| #[trigger]
            backed(ids, present).contains(id) <==> ids.contains(id) && present.contains(id),
    decreases ids.len(),
{
    reveal(Seq::filter);
    if ids.len() > 0 {
        let front = ids.drop_last();
        let last = ids.last();
        lemma_backed_is_present(front, present);
        assert(ids =~= front.push(last));
        lemma_push_contains(front, last);
        lemma_push_contains(backed(front, present), last);
    }
}

/// Where every identifier names a blob, all of them are backed.
pub proof fn lemma_backed_keeps_all(ids: Seq<Seq<char>>, present: Set<Seq<char>>)
    requires
        forall|i: int| 0 <= i < ids.len() ==> present.contains(#[trigger] ids[i]),
    ensures
        backed(ids, present) == ids,
    decreases ids.len(),
{
    reveal(Seq::filter);
    if ids.len() > 0 {
        let front = ids.drop_last();
        assert forall|i: int| 0 <= i < front.len() implies present.contains(#[trigger] front[i]) by {}
        lemma_backed_keeps_all(front, present);
        assert(present.contains(ids[ids.len() - 1]));
        assert(front.push(ids.last()) =~= ids);
    }
}

/// A paste that was created can be read under its identifier, and what is
/// read is what was stored.
pub proof fn lemma_read_after_create(
    before: ServiceView,
    id: Seq<char>,
    body: Seq<u8>,
    auth: Option<(Seq<char>, Seq<char>)>,
)
    requires
        before.create_refusal(id, auth) is None,
    ensures
        before.created(id, body, auth).read(id) == Ok::<Seq<u8>, Error>(body),
{
}

/// A paste that a user created stands last in that user's list right after.
pub proof fn lemma_list_after_create(
    before: ServiceView,
    id: Seq<char>,
    body: Seq<u8>,
    username: Seq<char>,
    password: Seq<char>,
)
    requires
        distinct_names(before.users),
        before.create_refusal(id, Some((username, password))) is None,
    ensures
        before.list(username, password) matches Ok(earlier) && before.created(
            id,
            body,
            Some((username, password)),
        ).list(username, password) == Ok::<Seq<Seq<char>>, Error>(earlier.push(id)),
        before.created(id, body, Some((username, password))).list(username, password) matches Ok(
            ids,
        ) && ids.contains(id),
{
    let slot = slot_of(before.users, username);
    lemma_names_survive_update(before.users, slot, before.users[slot].owned_ids.push(id));
    let earlier = before.users[slot].owned_ids;
    assert(earlier.push(id)[earlier.len() as int] == id);
}

/// Where every owned identifier names a blob, an identifier under which a
/// paste can be created is in nobody's list; and once the paste is created,
/// it is in the list of the user who created it and in no other list, or in
/// none at all if it was created without credentials.
pub proof fn lemma_created_paste_has_one_owner(
    before: ServiceView,
    id: Seq<char>,
    body: Seq<u8>,
    auth: Option<(Seq<char>, Seq<char>)>,
)
    requires
        before.claims_backed(),
        before.create_refusal(id, auth) is None,
    ensures
        !claimed(before.users).contains(id),
        forall|i: int|
            0 <= i < before.users.len() ==> ((#[trigger] before.created(
                id,
                body,
                auth,
            ).users[i]).owned_ids.contains(id) <==> before.owner_slot(auth) == Some(i)),
{
    let after = before.created(id, body, auth);
    assert forall|i: int| 0 <= i < before.users.len() implies !(#[trigger] before.users[i]).owned_ids.contains(
        id,
    ) by {
        if before.users[i].owned_ids.contains(id) {
            assert(before.blobs.contains_key(id));
        }
    }
    match auth {
        Some((username, _)) => {
            let slot = slot_of(before.users, username);
            lemma_push_contains(before.users[slot].owned_ids, id);
        },
        None => {},
    }
}

/// A user who does not own a paste cannot replace it: the request is refused
/// as not found, whether or not a blob is stored under the identifier and
/// whoever else may own it.
pub proof fn lemma_replace_needs_ownership(
    before: ServiceView,
    id: Seq<char>,
    username: Seq<char>,
    password: Seq<char>,
)
    requires
        grants(before.users, username, password),
        !before.owns(username, id),
    ensures
        before.replace_refusal(id, Some((username, password))) == Some(Error::NotFound),
{
}

/// A paste that was deleted can no longer be read.
pub proof fn lemma_read_after_delete(
    before: ServiceView,
    id: Seq<char>,
    username: Seq<char>,
    password: Seq<char>,
)
    requires
        before.delete_refusal(id, username, password) is None,
    ensures
        before.deleted(id, username).read(id) == Err::<Seq<u8>, Error>(Error::NotFound),
{
}

/// After the repair pass every identifier that a user owns names a blob, and
/// every blob is owned by some user.
pub proof fn lemma_reconciled_is_consistent(before: ServiceView)
    ensures
        before.reconciled().consistent(),
{
    let after = before.reconciled();
    assert forall|id: Seq<char>| #[trigger] after.blobs.contains_key(id) implies exists|i: int|
        0 <= i < after.users.len() && (#[trigger] after.users[i]).owned_ids.contains(id) by {
        assert(claimed(after.users).contains(id));
    }
}

/// The repair pass removes every blob that no user owns: a paste that was
/// created without credentials does not outlive it.
pub proof fn lemma_reconcile_purges_unowned(before: ServiceView, id: Seq<char>)
    requires
        forall|i: int| 0 <= i < before.users.len() ==> !(#[trigger] before.users[i]).owned_ids.contains(id),
    ensures
        !before.reconciled().blobs.contains_key(id),
{
    let after = before.reconciled();
    if after.blobs.contains_key(id) {
        let i = choose|i: int|
            0 <= i < after.users.len() && (#[trigger] after.users[i]).owned_ids.contains(id);
        lemma_backed_is_present(before.users[i].owned_ids, before.blobs.dom());
        assert(before.users[i].owned_ids.contains(id));
    }
}

/// The repair pass keeps every paste that a user owns and that is stored,
/// with its content.
pub proof fn lemma_reconcile_keeps_owned(before: ServiceView, slot: int, id: Seq<char>)
    requires
        0 <= slot < before.users.len(),
        before.users[slot].owned_ids.contains(id),
        before.blobs.contains_key(id),
    ensures
        before.reconciled().users[slot].owned_ids.contains(id),
        before.reconciled().blobs.contains_key(id),
        before.reconciled().blobs[id] == before.blobs[id],
{
    let after = before.reconciled();
    assert(after.users[slot].owned_ids.contains(id));
}

/// Running the repair pass a second time changes nothing.
pub proof fn lemma_reconcile_is_idempotent(before: ServiceView)
    ensures
        before.reconciled().reconciled() == before.reconciled(),
{
    let once = before.reconciled();
    let twice = once.reconciled();
    assert forall|i: int| 0 <= i < once.users.len() implies #[trigger] twice.users[i]
        == once.users[i] by {
        let ids = once.users[i].owned_ids;
        assert forall|k: int| 0 <= k < ids.len() implies once.blobs.dom().contains(
            #[trigger] ids[k],
        ) by {}
        lemma_backed_keeps_all(ids, once.blobs.dom());
    }
    assert(twice.users =~= once.users);
    assert(twice.blobs =~= once.blobs);
}

/// Creating a paste leaves every owned identifier backed by a blob.
pub proof fn lemma_create_keeps_claims_backed(
    before: ServiceView,
    id: Seq<char>,
    body: Seq<u8>,
    auth: Option<(Seq<char>, Seq<char>)>,
)
    requires
        before.claims_backed(),
        before.create_refusal(id, auth) is None,
    ensures
        before.created(id, body, auth).claims_backed(),
{
    let after = before.created(id, body, auth);
    match auth {
        Some((username, _)) => {
            let slot = slot_of(before.users, username);
            lemma_push_contains(before.users[slot].owned_ids, id);
            assert forall|i: int, other: Seq<char>|
                0 <= i < after.users.len() && (#[trigger] after.users[i]).owned_ids.contains(
                    other,
                ) implies #[trigger] after.blobs.contains_key(other) by {
                if other != id {
                    assert(before.users[i].owned_ids.contains(other));
                    assert(before.blobs.contains_key(other));
                }
            }
        },
        None => {
            assert forall|i: int, other: Seq<char>|
                0 <= i < after.users.len() && (#[trigger] after.users[i]).owned_ids.contains(
                    other,
                ) implies #[trigger] after.blobs.contains_key(other) by {
                assert(before.blobs.contains_key(other));
            }
        },
    }
}

/// Replacing a paste leaves every owned identifier backed by a blob.
pub proof fn lemma_replace_keeps_claims_backed(before: ServiceView, id: Seq<char>, body: Seq<u8>)
    requires
        before.claims_backed(),
    ensures
        before.replaced(id, body).claims_backed(),
{
    let after = before.replaced(id, body);
    assert forall|i: int, other: Seq<char>|
        0 <= i < after.users.len() && (#[trigger] after.users[i]).owned_ids.contains(
            other,
        ) implies #[trigger] after.blobs.contains_key(other) by {
        assert(before.blobs.contains_key(other));
    }
}

/// Registering a user leaves every owned identifier backed by a blob.
pub proof fn lemma_enroll_keeps_claims_backed(
    before: ServiceView,
    username: Seq<char>,
    password: Seq<char>,
)
    requires
        before.claims_backed(),
    ensures
        before.enrolled(username, password).claims_backed(),
{
    let after = before.enrolled(username, password);
    let last = before.users.len() as int;
    assert(after.users[last].owned_ids.len() == 0);
    assert forall|i: int, other: Seq<char>|
        0 <= i < after.users.len() && (#[trigger] after.users[i]).owned_ids.contains(
            other,
        ) implies #[trigger] after.blobs.contains_key(other) by {
        if i < last {
            assert(before.users[i].owned_ids.contains(other));
            assert(before.blobs.contains_key(other));
        }
    }
}

/// Taking back a paste leaves every owned identifier backed by a blob.
pub proof fn lemma_discard_keeps_claims_backed(before: ServiceView, id: Seq<char>)
    requires
        before.claims_backed(),
        before.discard_refusal(id) is None,
    ensures
        before.discarded(id).claims_backed(),
{
    let after = before.discarded(id);
    assert forall|i: int, other: Seq<char>|
        0 <= i < after.users.len() && (#[trigger] after.users[i]).owned_ids.contains(
            other,
        ) implies #[trigger] after.blobs.contains_key(other) by {
        assert(before.blobs.contains_key(other));
        assert(claimed(before.users).contains(other));
    }
}

/// What is backed holds nothing twice if the identifiers held nothing twice.
pub proof fn lemma_backed_has_no_duplicates(ids: Seq<Seq<char>>, present: Set<Seq<char>>)
    requires
        ids.no_duplicates(),
    ensures
        backed(ids, present).no_duplicates(),
    decreases ids.len(),
{
    reveal(Seq::filter);
    if ids.len() > 0 {
        let front = ids.drop_last();
        let last = ids.last();
        let kept_front = backed(front, present);
        assert(front.no_duplicates());
        lemma_backed_has_no_duplicates(front, present);
        lemma_backed_is_present(front, present);
        if present.contains(last) {
            assert(!kept_front.contains(last));
            lemma_push_keeps_distinct(kept_front, last);
        }
    }
}

/// The repair pass lets no identifier be owned twice that was not owned twice
/// before, and it leaves every owned identifier backed by a blob: it restores
/// the state that the service aims at.
pub proof fn lemma_reconcile_restores_soundness(before: ServiceView)
    requires
        before.claims_single(),
    ensures
        before.reconciled().sound(),
{
    let after = before.reconciled();
    let present = before.blobs.dom();
    lemma_reconciled_is_consistent(before);
    assert forall|i: int| 0 <= i < after.users.len() implies (#[trigger] after.users[i]).owned_ids.no_duplicates() by {
        lemma_backed_has_no_duplicates(before.users[i].owned_ids, present);
    }
    assert forall|i: int, j: int, id: Seq<char>| 0 <= i < j < after.users.len() implies !(
    #[trigger] after.users[i].owned_ids.contains(id) && #[trigger] after.users[j].owned_ids.contains(
        id,
    )) by {
        lemma_backed_is_present(before.users[i].owned_ids, present);
        lemma_backed_is_present(before.users[j].owned_ids, present);
    }
}

/// Creating a paste keeps the state that the service aims at.
pub proof fn lemma_create_keeps_soundness(
    before: ServiceView,
    id: Seq<char>,
    body: Seq<u8>,
    auth: Option<(Seq<char>, Seq<char>)>,
)
    requires
        before.sound(),
        before.create_refusal(id, auth) is None,
    ensures
        before.created(id, body, auth).sound(),
{
    lemma_create_keeps_claims_backed(before, id, body, auth);
    lemma_created_paste_has_one_owner(before, id, body, auth);
    match auth {
        Some((username, _)) => {
            let slot = slot_of(before.users, username);
            let earlier = before.users[slot].owned_ids;
            assert(earlier.no_duplicates());
            assert(!earlier.contains(id));
            lemma_push_contains(earlier, id);
            lemma_push_keeps_distinct(earlier, id);
        },
        None => {},
    }
}

/// Replacing a paste keeps the state that the service aims at.
pub proof fn lemma_replace_keeps_soundness(before: ServiceView, id: Seq<char>, body: Seq<u8>)
    requires
        before.sound(),
    ensures
        before.replaced(id, body).sound(),
{
    lemma_replace_keeps_claims_backed(before, id, body);
}

/// Registering a user keeps the state that the service aims at.
pub proof fn lemma_enroll_keeps_soundness(
    before: ServiceView,
    username: Seq<char>,
    password: Seq<char>,
)
    requires
        before.sound(),
    ensures
        before.enrolled(username, password).sound(),
{
    lemma_enroll_keeps_claims_backed(before, username, password);
    let after = before.enrolled(username, password);
    let last = before.users.len() as int;
    assert(after.users[last].owned_ids.len() == 0);
    assert forall|i: int| 0 <= i < after.users.len() implies (#[trigger] after.users[i]).owned_ids.no_duplicates() by {
        if i < last {
            assert(before.users[i].owned_ids.no_duplicates());
        }
    }
    assert forall|i: int, j: int, other: Seq<char>| 0 <= i < j < after.users.len() implies !(
    #[trigger] after.users[i].owned_ids.contains(other) && #[trigger] after.users[j].owned_ids.contains(
        other,
    )) by {
        if j < last {
            assert(!(before.users[i].owned_ids.contains(other)
                && before.users[j].owned_ids.contains(other)));
        }
    }
}

/// Deleting a paste keeps the state that the service aims at.
pub proof fn lemma_delete_keeps_soundness(
    before: ServiceView,
    id: Seq<char>,
    username: Seq<char>,
    password: Seq<char>,
)
    requires
        before.sound(),
        before.delete_refusal(id, username, password) is None,
    ensures
        before.deleted(id, username).sound(),
{
    let slot = slot_of(before.users, username);
    let earlier = before.users[slot].owned_ids;
    let halfway = ServiceView {
        users: debited(before.users, slot, id),
        blobs: before.blobs.remove(id),
    };
    earlier.index_of_first_ensures(id);
    assert forall|i: int, j: int, other: Seq<char>| 0 <= i < j < halfway.users.len() implies !(
    #[trigger] halfway.users[i].owned_ids.contains(other) && #[trigger] halfway.users[j].owned_ids.contains(
        other,
    )) by {
        assert(!(before.users[i].owned_ids.contains(other) && before.users[j].owned_ids.contains(
            other,
        )));
    }
    lemma_reconcile_restores_soundness(halfway);
}

/// Taking back a paste keeps the state that the service aims at.
pub proof fn lemma_discard_keeps_soundness(before: ServiceView, id: Seq<char>)
    requires
        before.sound(),
        before.discard_refusal(id) is None,
    ensures
        before.discarded(id).sound(),
{
    lemma_discard_keeps_claims_backed(before, id);
}

/// A paste that was created without credentials can be taken back, and the
/// service then holds what it held before the paste was created.
pub proof fn lemma_discard_undoes_create(before: ServiceView, id: Seq<char>, body: Seq<u8>)
    requires
        before.claims_backed(),
        before.create_refusal(id, None) is None,
    ensures
        before.created(id, body, None).discard_refusal(id) is None,
        before.created(id, body, None).discarded(id) == before,
{
    let after = before.created(id, body, None);
    if claimed(before.users).contains(id) {
        let i = choose|i: int|
            0 <= i < before.users.len() && (#[trigger] before.users[i]).owned_ids.contains(id);
        assert(before.blobs.contains_key(id));
    }
    assert(after.discarded(id).blobs =~= before.blobs);
}

/// The repair pass changes neither who is registered nor any password.
pub proof fn lemma_reconcile_keeps_credentials(
    before: ServiceView,
    username: Seq<char>,
    password: Seq<char>,
)
    requires
        distinct_names(before.users),
    ensures
        distinct_names(before.reconciled().users),
        registered(before.reconciled().users, username) == registered(before.users, username),
        grants(before.reconciled().users, username, password) == grants(
            before.users,
            username,
            password,
        ),
        registered(before.users, username) ==> slot_of(before.reconciled().users, username)
            == slot_of(before.users, username),
{
    let after = before.reconciled().users;
    if registered(before.users, username) {
        let slot = slot_of(before.users, username);
        assert(after[slot].username == username);
        crate::state::lemma_slot_is_unique(after, slot, username);
    }
}

} // verus!
