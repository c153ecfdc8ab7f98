//! Versioned mutable key/value records and the action batches that mutate
//! them.
//!
//! A record is identified by its `(name, tag)` pair. Every entry carries a
//! version that starts at 0 and rises by exactly 1 on each successful
//! mutation of its key; an action that does not carry the successor of the
//! current version is rejected, and a batch is applied all-or-nothing.

use vstd::prelude::*;
use vstd::pervasive::VecAdditionalExecFns;
use crate::authority::{Address, PublicKey};
use crate::data::{
    bytes_eq, clone_bytes, clone_entry, clone_value, entry_at, entry_index, find_entry, find_user,
    has_entry, has_user, keys_distinct, lemma_entry_at_index, user_permissions_at, users_distinct,
    ClientError, Entry, PermissionSet, User, UserPermission, Value, ValueView,
    MAX_MDATA_ENTRIES,
};

verus! {

// ---------------------------------------------------------------------------
// Entry actions
// ---------------------------------------------------------------------------

/// One mutation of a single key.
#[derive(Debug)]
pub enum EntryAction {
    /// Insert a fresh key with this value; the key must be absent.
    Ins(Value),
    /// Replace the value under a present key; the carried version must be
    /// the successor of the current one.
    Update(Value),
    /// Remove a present key; the carried version must be the successor of
    /// the current one.
    Del(u64),
}

/// The mathematical model of an `EntryAction`.
pub enum EntryActionView {
    /// Insert a fresh key.
    Ins(ValueView),
    /// Replace the value under a present key.
    Update(ValueView),
    /// Remove a present key.
    Del(u64),
}

impl View for EntryAction {
    type V = EntryActionView;

    open spec fn view(&self) -> EntryActionView {
        match self {
            EntryAction::Ins(v) => EntryActionView::Ins(v@),
            EntryAction::Update(v) => EntryActionView::Update(v@),
            EntryAction::Del(ver) => EntryActionView::Del(*ver),
        }
    }
}

/// One keyed action of a batch.
#[derive(Debug)]
pub struct ActionItem {
    /// The targeted key.
    pub key: Vec<u8>,
    /// What to do at that key.
    pub action: EntryAction,
}

/// No two actions of the batch target the same key.
pub open spec fn batch_keys_distinct(b: Seq<ActionItem>) -> bool {
    forall|i: int, j: int| 0 <= i < j < b.len() ==> b[i].key@ != b[j].key@
}

/// Some action of the batch targets `k`.
pub open spec fn batch_has(b: Seq<ActionItem>, k: Seq<u8>) -> bool {
    exists|i: int| 0 <= i < b.len() && b[i].key@ == k
}

/// An action is valid against the entries it will be applied to: an insert
/// needs its key absent and its value at version 0, an update or delete
/// needs its key present and must carry the successor of the current entry
/// version.
pub open spec fn action_valid(es: Seq<Entry>, key: Seq<u8>, a: EntryActionView) -> bool {
    match a {
        EntryActionView::Ins(v) => !has_entry(es, key) && v.entry_version == 0,
        EntryActionView::Update(v) => has_entry(es, key) && v.entry_version
            == entry_at(es, key).entry_version + 1,
        EntryActionView::Del(ver) => has_entry(es, key) && ver == entry_at(
            es,
            key,
        ).entry_version + 1,
    }
}

/// Every action of the batch is valid against `es`.
pub open spec fn batch_valid(es: Seq<Entry>, b: Seq<ActionItem>) -> bool {
    forall|i: int| 0 <= i < b.len() ==> action_valid(es, b[i].key@, b[i].action@)
}

/// What a correctly applied action leaves behind at its key.
pub open spec fn action_applied(es2: Seq<Entry>, key: Seq<u8>, a: EntryActionView) -> bool {
    match a {
        EntryActionView::Ins(v) => has_entry(es2, key) && entry_at(es2, key) == v,
        EntryActionView::Update(v) => has_entry(es2, key) && entry_at(es2, key) == v,
        EntryActionView::Del(_) => !has_entry(es2, key),
    }
}

/// `es2` is exactly `es` with the batch `b` applied: every action's outcome
/// holds at its key, every untargeted entry is kept unchanged, and no other
/// key appears.
pub open spec fn entries_after(es: Seq<Entry>, b: Seq<ActionItem>, es2: Seq<Entry>) -> bool {
    &&& keys_distinct(es2)
    &&& forall|i: int| 0 <= i < b.len() ==> action_applied(es2, b[i].key@, b[i].action@)
    &&& forall|i: int|
        0 <= i < es.len() && !batch_has(b, es[i].key@) ==> has_entry(es2, es[i].key@) && entry_at(
            es2,
            es[i].key@,
        ) == es[i].value@
    &&& forall|i: int|
        0 <= i < es2.len() ==> batch_has(b, es2[i].key@) || (has_entry(es, es2[i].key@)
            && entry_at(es, es2[i].key@) == es2[i].value@)
}

// ---------------------------------------------------------------------------
// Builder for action batches
// ---------------------------------------------------------------------------

/// A builder collecting a batch of entry actions, one key per action.
#[derive(Debug)]
pub struct EntryActions {
    /// The actions gathered so far.
    pub items: Vec<ActionItem>,
}

impl EntryActions {
    /// An empty batch.
    pub fn new() -> (r: EntryActions)
        ensures
            r.items@.len() == 0,
    {
        EntryActions { items: Vec::new() }
    }

    /// Add an insert of `content` at version `version` under `key`.
    pub fn ins(self, key: Vec<u8>, content: Vec<u8>, version: u64) -> (r: EntryActions)
        ensures
            r.items@ == self.items@.push(
                ActionItem {
                    key,
                    action: EntryAction::Ins(Value { content, entry_version: version }),
                },
            ),
    {
        let mut items = self.items;
        items.push(
            ActionItem { key, action: EntryAction::Ins(Value { content, entry_version: version }) },
        );
        EntryActions { items }
    }

    /// Add an update to `content` at version `version` under `key`.
    pub fn update(self, key: Vec<u8>, content: Vec<u8>, version: u64) -> (r: EntryActions)
        ensures
            r.items@ == self.items@.push(
                ActionItem {
                    key,
                    action: EntryAction::Update(Value { content, entry_version: version }),
                },
            ),
    {
        let mut items = self.items;
        items.push(
            ActionItem {
                key,
                action: EntryAction::Update(Value { content, entry_version: version }),
            },
        );
        EntryActions { items }
    }

    /// Add a delete at version `version` under `key`.
    pub fn del(self, key: Vec<u8>, version: u64) -> (r: EntryActions)
        ensures
            r.items@ == self.items@.push(ActionItem { key, action: EntryAction::Del(version) }),
    {
        let mut items = self.items;
        items.push(ActionItem { key, action: EntryAction::Del(version) });
        EntryActions { items }
    }

    /// The gathered batch.
    pub fn into_actions(self) -> (r: Vec<ActionItem>)
        ensures
            r@ == self.items@,
    {
        self.items
    }
}

// ---------------------------------------------------------------------------
// Effect of single entry operations
// ---------------------------------------------------------------------------

/// Appending an entry under a fresh key keeps keys distinct, stores the new
/// value under its key and leaves every other key unchanged.
pub proof fn lemma_entries_push(es: Seq<Entry>, e: Entry)
    requires
        keys_distinct(es),
        !has_entry(es, e.key@),
    ensures
        keys_distinct(es.push(e)),
        has_entry(es.push(e), e.key@),
        entry_at(es.push(e), e.key@) == e.value@,
        forall|k: Seq<u8>|
            k != e.key@ ==> (#[trigger] has_entry(es.push(e), k) <==> has_entry(es, k)),
        forall|k: Seq<u8>|
            k != e.key@ && has_entry(es, k) ==> #[trigger] entry_at(es.push(e), k) == entry_at(
                es,
                k,
            ),
{
    let es2 = es.push(e);
    assert forall|i: int| 0 <= i < es.len() implies es[i].key@ != e.key@ by {
        if es[i].key@ == e.key@ {
            assert(has_entry(es, e.key@));
        }
    }
    assert(es2[es.len() as int] == e);
    assert(keys_distinct(es2)) by {
        assert forall|i: int, j: int| 0 <= i < j < es2.len() implies es2[i].key@ != es2[j].key@ by {
            if j < es.len() {
                assert(es[i].key@ != es[j].key@);
            } else {
                assert(es2[j] == e);
                assert(es2[i] == es[i]);
            }
        }
    }
    assert(has_entry(es2, e.key@));
    lemma_entry_at_index(es2, es.len() as int);
    assert forall|k: Seq<u8>| k != e.key@ implies (#[trigger] has_entry(es2, k) <==> has_entry(
        es,
        k,
    )) by {
        if has_entry(es2, k) {
            let i = choose|i: int| 0 <= i < es2.len() && es2[i].key@ == k;
            assert(i < es.len());
            assert(es[i].key@ == k);
            assert(has_entry(es, k));
        }
        if has_entry(es, k) {
            let i = choose|i: int| 0 <= i < es.len() && es[i].key@ == k;
            assert(es2[i].key@ == k);
            assert(has_entry(es2, k));
        }
    }
    assert forall|k: Seq<u8>| k != e.key@ && has_entry(es, k) implies #[trigger] entry_at(es2, k)
        == entry_at(es, k) by {
        let i = entry_index(es, k);
        assert(0 <= i < es.len() && es[i].key@ == k);
        lemma_entry_at_index(es, i);
        assert(es2[i].key@ == k);
        lemma_entry_at_index(es2, i);
    }
}

/// Replacing the entry at index `i` by one under the same key keeps keys
/// distinct, stores the new value under that key and leaves every other key
/// unchanged.
pub proof fn lemma_entries_update(es: Seq<Entry>, i: int, e: Entry)
    requires
        keys_distinct(es),
        0 <= i < es.len(),
        es[i].key@ == e.key@,
    ensures
        keys_distinct(es.update(i, e)),
        has_entry(es.update(i, e), e.key@),
        entry_at(es.update(i, e), e.key@) == e.value@,
        forall|k: Seq<u8>|
            k != e.key@ ==> (#[trigger] has_entry(es.update(i, e), k) <==> has_entry(es, k)),
        forall|k: Seq<u8>|
            k != e.key@ && has_entry(es, k) ==> #[trigger] entry_at(es.update(i, e), k) == entry_at(
                es,
                k,
            ),
{
    let es2 = es.update(i, e);
    assert(es2.len() == es.len());
    assert(es2[i] == e);
    assert forall|j: int| 0 <= j < es.len() && j != i implies es2[j] == es[j] && es[j].key@
        != e.key@ by {
        if j < i {
            assert(es[j].key@ != es[i].key@);
        } else {
            assert(es[i].key@ != es[j].key@);
        }
    }
    assert(keys_distinct(es2));
    lemma_entry_at_index(es2, i);
    assert forall|k: Seq<u8>| k != e.key@ implies (#[trigger] has_entry(es2, k) <==> has_entry(
        es,
        k,
    )) by {
        if has_entry(es2, k) {
            let j = choose|j: int| 0 <= j < es2.len() && es2[j].key@ == k;
            assert(j != i);
            assert(es[j].key@ == k);
        }
        if has_entry(es, k) {
            let j = choose|j: int| 0 <= j < es.len() && es[j].key@ == k;
            assert(j != i);
            assert(es2[j].key@ == k);
        }
    }
    assert forall|k: Seq<u8>| k != e.key@ && has_entry(es, k) implies #[trigger] entry_at(es2, k)
        == entry_at(es, k) by {
        let j = entry_index(es, k);
        assert(0 <= j < es.len() && es[j].key@ == k);
        lemma_entry_at_index(es, j);
        assert(j != i);
        assert(es2[j].key@ == k);
        lemma_entry_at_index(es2, j);
    }
}

/// Removing the entry at index `i` keeps keys distinct, leaves its key
/// absent and every other key unchanged.
pub proof fn lemma_entries_remove(es: Seq<Entry>, i: int)
    requires
        keys_distinct(es),
        0 <= i < es.len(),
    ensures
        keys_distinct(es.remove(i)),
        !has_entry(es.remove(i), es[i].key@),
        forall|k: Seq<u8>|
            k != es[i].key@ ==> (#[trigger] has_entry(es.remove(i), k) <==> has_entry(es, k)),
        forall|k: Seq<u8>|
            k != es[i].key@ && has_entry(es, k) ==> #[trigger] entry_at(es.remove(i), k)
                == entry_at(es, k),
{
    let es2 = es.remove(i);
    es.remove_ensures(i);
    assert forall|j: int| 0 <= j < es2.len() implies es2[j] == (if j < i {
        es[j]
    } else {
        es[j + 1]
    }) by {}
    assert(keys_distinct(es2)) by {
        assert forall|a: int, b: int| 0 <= a < b < es2.len() implies es2[a].key@ != es2[b].key@ by {
            let a0 = if a < i { a } else { a + 1 };
            let b0 = if b < i { b } else { b + 1 };
            assert(es2[a] == es[a0]);
            assert(es2[b] == es[b0]);
            assert(a0 < b0);
            assert(es[a0].key@ != es[b0].key@);
        }
    }
    assert(!has_entry(es2, es[i].key@)) by {
        if has_entry(es2, es[i].key@) {
            let j = choose|j: int| 0 <= j < es2.len() && es2[j].key@ == es[i].key@;
            let j0 = if j < i { j } else { j + 1 };
            assert(es[j0].key@ == es[i].key@);
            assert(j0 != i);
            if j0 < i {
                assert(es[j0].key@ != es[i].key@);
            } else {
                assert(es[i].key@ != es[j0].key@);
            }
        }
    }
    assert forall|k: Seq<u8>| k != es[i].key@ implies (#[trigger] has_entry(es2, k) <==> has_entry(
        es,
        k,
    )) by {
        if has_entry(es2, k) {
            let j = choose|j: int| 0 <= j < es2.len() && es2[j].key@ == k;
            let j0 = if j < i { j } else { j + 1 };
            assert(es[j0].key@ == k);
        }
        if has_entry(es, k) {
            let j = choose|j: int| 0 <= j < es.len() && es[j].key@ == k;
            assert(j != i);
            let j2 = if j < i { j } else { j - 1 };
            assert(es2[j2].key@ == k);
        }
    }
    assert forall|k: Seq<u8>| k != es[i].key@ && has_entry(es, k) implies #[trigger] entry_at(
        es2,
        k,
    ) == entry_at(es, k) by {
        let j = entry_index(es, k);
        assert(0 <= j < es.len() && es[j].key@ == k);
        lemma_entry_at_index(es, j);
        assert(j != i);
        let j2 = if j < i { j } else { j - 1 };
        assert(es2[j2].key@ == k);
        assert(es2[j2].value@ == es[j].value@);
        lemma_entry_at_index(es2, j2);
    }
}

/// One step of applying a batch: if the entries change only at the key of
/// action `i`, where that action's outcome now holds, then every invariant
/// of the partly applied batch moves from `cur` to `cur2`.
pub proof fn lemma_apply_step(
    cur: Seq<Entry>,
    cur2: Seq<Entry>,
    es0: Seq<Entry>,
    b: Seq<ActionItem>,
    i: int,
)
    requires
        0 <= i < b.len(),
        batch_keys_distinct(b),
        batch_valid(es0, b),
        keys_distinct(cur),
        keys_distinct(cur2),
        action_applied(cur2, b[i].key@, b[i].action@),
        forall|k: Seq<u8>|
            k != b[i].key@ ==> (#[trigger] has_entry(cur2, k) <==> has_entry(cur, k)),
        forall|k: Seq<u8>|
            k != b[i].key@ && has_entry(cur, k) ==> #[trigger] entry_at(cur2, k) == entry_at(
                cur,
                k,
            ),
        forall|j: int| 0 <= j < i ==> action_applied(cur, b[j].key@, b[j].action@),
        forall|j: int|
            i <= j < b.len() ==> (has_entry(cur, b[j].key@) <==> has_entry(es0, b[j].key@)) && (
            has_entry(es0, b[j].key@) ==> entry_at(cur, b[j].key@) == entry_at(es0, b[j].key@)),
        forall|j: int|
            0 <= j < es0.len() && !batch_has(b, es0[j].key@) ==> has_entry(cur, es0[j].key@)
                && entry_at(cur, es0[j].key@) == es0[j].value@,
        forall|j: int|
            0 <= j < cur.len() ==> batch_has(b, cur[j].key@) || (has_entry(es0, cur[j].key@)
                && entry_at(es0, cur[j].key@) == cur[j].value@),
    ensures
        forall|j: int| 0 <= j < i + 1 ==> action_applied(cur2, b[j].key@, b[j].action@),
        forall|j: int|
            i + 1 <= j < b.len() ==> (has_entry(cur2, b[j].key@) <==> has_entry(es0, b[j].key@))
                && (has_entry(es0, b[j].key@) ==> entry_at(cur2, b[j].key@) == entry_at(
                es0,
                b[j].key@,
            )),
        forall|j: int|
            0 <= j < es0.len() && !batch_has(b, es0[j].key@) ==> has_entry(cur2, es0[j].key@)
                && entry_at(cur2, es0[j].key@) == es0[j].value@,
        forall|j: int|
            0 <= j < cur2.len() ==> batch_has(b, cur2[j].key@) || (has_entry(es0, cur2[j].key@)
                && entry_at(es0, cur2[j].key@) == cur2[j].value@),
{
    let k = b[i].key@;
    assert forall|j: int| 0 <= j < b.len() && j != i implies b[j].key@ != k by {
        if j < i {
            assert(b[j].key@ != b[i].key@);
        } else {
            assert(b[i].key@ != b[j].key@);
        }
    }
    assert forall|j: int| 0 <= j < i + 1 implies action_applied(cur2, b[j].key@, b[j].action@) by {
        if j < i {
            let kj = b[j].key@;
            assert(kj != k);
            assert(action_applied(cur, kj, b[j].action@));
            assert(has_entry(cur2, kj) <==> has_entry(cur, kj));
            match b[j].action@ {
                EntryActionView::Ins(_) => {
                    assert(entry_at(cur2, kj) == entry_at(cur, kj));
                },
                EntryActionView::Update(_) => {
                    assert(entry_at(cur2, kj) == entry_at(cur, kj));
                },
                EntryActionView::Del(_) => {},
            }
        }
    }
    assert forall|j: int| i + 1 <= j < b.len() implies (has_entry(cur2, b[j].key@) <==> has_entry(
        es0,
        b[j].key@,
    )) && (has_entry(es0, b[j].key@) ==> entry_at(cur2, b[j].key@) == entry_at(es0, b[j].key@)) by {
        let kj = b[j].key@;
        assert(kj != k);
        assert(has_entry(cur2, kj) <==> has_entry(cur, kj));
        if has_entry(es0, kj) {
            assert(has_entry(cur, kj));
            assert(entry_at(cur2, kj) == entry_at(cur, kj));
        }
    }
    assert forall|j: int| 0 <= j < es0.len() && !batch_has(b, es0[j].key@) implies has_entry(
        cur2,
        es0[j].key@,
    ) && entry_at(cur2, es0[j].key@) == es0[j].value@ by {
        let kj = es0[j].key@;
        assert(kj != k) by {
            if kj == k {
                assert(batch_has(b, kj));
            }
        }
        assert(has_entry(cur, kj));
        assert(has_entry(cur2, kj));
        assert(entry_at(cur2, kj) == entry_at(cur, kj));
    }
    assert forall|j: int| 0 <= j < cur2.len() implies batch_has(b, cur2[j].key@) || (has_entry(
        es0,
        cur2[j].key@,
    ) && entry_at(es0, cur2[j].key@) == cur2[j].value@) by {
        let kj = cur2[j].key@;
        if kj == k {
            assert(batch_has(b, kj));
        } else {
            lemma_entry_at_index(cur2, j);
            assert(has_entry(cur2, kj));
            assert(has_entry(cur, kj));
            let jc = entry_index(cur, kj);
            assert(0 <= jc < cur.len() && cur[jc].key@ == kj);
            lemma_entry_at_index(cur, jc);
            if !batch_has(b, kj) {
                assert(has_entry(es0, cur[jc].key@) && entry_at(es0, cur[jc].key@)
                    == cur[jc].value@);
                assert(entry_at(cur2, kj) == entry_at(cur, kj));
                assert(cur2[j].value@ == entry_at(cur2, kj));
            }
        }
    }
}

/// Appending a rule for a fresh user keeps users distinct, stores the new
/// rule under its user and leaves every other user unchanged.
pub proof fn lemma_users_push(ps: Seq<UserPermission>, p: UserPermission)
    requires
        users_distinct(ps),
        !has_user(ps, p.user),
    ensures
        users_distinct(ps.push(p)),
        has_user(ps.push(p), p.user),
        user_permissions_at(ps.push(p), p.user) == p.permissions,
        forall|u: User| u != p.user ==> (#[trigger] has_user(ps.push(p), u) <==> has_user(ps, u)),
        forall|u: User|
            u != p.user && has_user(ps, u) ==> #[trigger] user_permissions_at(ps.push(p), u)
                == user_permissions_at(ps, u),
{
    let ps2 = ps.push(p);
    assert forall|i: int| 0 <= i < ps.len() implies ps[i].user != p.user by {
        if ps[i].user == p.user {
            assert(has_user(ps, p.user));
        }
    }
    assert(ps2[ps.len() as int] == p);
    assert(users_distinct(ps2)) by {
        assert forall|i: int, j: int| 0 <= i < j < ps2.len() implies ps2[i].user != ps2[j].user by {
            if j < ps.len() {
                assert(ps[i].user != ps[j].user);
            } else {
                assert(ps2[j] == p);
                assert(ps2[i] == ps[i]);
            }
        }
    }
    assert(has_user(ps2, p.user));
    crate::data::lemma_user_at_index(ps2, ps.len() as int);
    assert forall|u: User| u != p.user implies (#[trigger] has_user(ps2, u) <==> has_user(
        ps,
        u,
    )) by {
        if has_user(ps2, u) {
            let i = choose|i: int| 0 <= i < ps2.len() && ps2[i].user == u;
            assert(i < ps.len());
            assert(ps[i].user == u);
        }
        if has_user(ps, u) {
            let i = choose|i: int| 0 <= i < ps.len() && ps[i].user == u;
            assert(ps2[i].user == u);
        }
    }
    assert forall|u: User| u != p.user && has_user(ps, u) implies #[trigger] user_permissions_at(
        ps2,
        u,
    ) == user_permissions_at(ps, u) by {
        let i = choose|i: int| 0 <= i < ps.len() && ps[i].user == u;
        crate::data::lemma_user_at_index(ps, i);
        assert(ps2[i].user == u);
        crate::data::lemma_user_at_index(ps2, i);
    }
}

/// Replacing the rule at index `i` by one for the same user keeps users
/// distinct, stores the new rule under that user and leaves every other
/// user unchanged.
pub proof fn lemma_users_update(ps: Seq<UserPermission>, i: int, p: UserPermission)
    requires
        users_distinct(ps),
        0 <= i < ps.len(),
        ps[i].user == p.user,
    ensures
        users_distinct(ps.update(i, p)),
        has_user(ps.update(i, p), p.user),
        user_permissions_at(ps.update(i, p), p.user) == p.permissions,
        forall|u: User|
            u != p.user ==> (#[trigger] has_user(ps.update(i, p), u) <==> has_user(ps, u)),
        forall|u: User|
            u != p.user && has_user(ps, u) ==> #[trigger] user_permissions_at(ps.update(i, p), u)
                == user_permissions_at(ps, u),
{
    let ps2 = ps.update(i, p);
    assert(ps2.len() == ps.len());
    assert(ps2[i] == p);
    assert forall|j: int| 0 <= j < ps.len() && j != i implies ps2[j] == ps[j] && ps[j].user
        != p.user by {
        if j < i {
            assert(ps[j].user != ps[i].user);
        } else {
            assert(ps[i].user != ps[j].user);
        }
    }
    assert(users_distinct(ps2));
    crate::data::lemma_user_at_index(ps2, i);
    assert forall|u: User| u != p.user implies (#[trigger] has_user(ps2, u) <==> has_user(
        ps,
        u,
    )) by {
        if has_user(ps2, u) {
            let j = choose|j: int| 0 <= j < ps2.len() && ps2[j].user == u;
            assert(j != i);
            assert(ps[j].user == u);
        }
        if has_user(ps, u) {
            let j = choose|j: int| 0 <= j < ps.len() && ps[j].user == u;
            assert(j != i);
            assert(ps2[j].user == u);
        }
    }
    assert forall|u: User| u != p.user && has_user(ps, u) implies #[trigger] user_permissions_at(
        ps2,
        u,
    ) == user_permissions_at(ps, u) by {
        let j = choose|j: int| 0 <= j < ps.len() && ps[j].user == u;
        crate::data::lemma_user_at_index(ps, j);
        assert(j != i);
        assert(ps2[j].user == u);
        crate::data::lemma_user_at_index(ps2, j);
    }
}

/// Removing the rule at index `i` keeps users distinct, leaves its user
/// without a rule and every other user unchanged.
pub proof fn lemma_users_remove(ps: Seq<UserPermission>, i: int)
    requires
        users_distinct(ps),
        0 <= i < ps.len(),
    ensures
        users_distinct(ps.remove(i)),
        !has_user(ps.remove(i), ps[i].user),
        forall|u: User|
            u != ps[i].user ==> (#[trigger] has_user(ps.remove(i), u) <==> has_user(ps, u)),
        forall|u: User|
            u != ps[i].user && has_user(ps, u) ==> #[trigger] user_permissions_at(ps.remove(i), u)
                == user_permissions_at(ps, u),
{
    let ps2 = ps.remove(i);
    ps.remove_ensures(i);
    assert forall|j: int| 0 <= j < ps2.len() implies ps2[j] == (if j < i {
        ps[j]
    } else {
        ps[j + 1]
    }) by {}
    assert(users_distinct(ps2)) by {
        assert forall|a: int, c: int| 0 <= a < c < ps2.len() implies ps2[a].user != ps2[c].user by {
            let a0 = if a < i { a } else { a + 1 };
            let c0 = if c < i { c } else { c + 1 };
            assert(ps2[a] == ps[a0]);
            assert(ps2[c] == ps[c0]);
            assert(a0 < c0);
            assert(ps[a0].user != ps[c0].user);
        }
    }
    assert(!has_user(ps2, ps[i].user)) by {
        if has_user(ps2, ps[i].user) {
            let j = choose|j: int| 0 <= j < ps2.len() && ps2[j].user == ps[i].user;
            let j0 = if j < i { j } else { j + 1 };
            assert(ps[j0].user == ps[i].user);
            assert(j0 != i);
            if j0 < i {
                assert(ps[j0].user != ps[i].user);
            } else {
                assert(ps[i].user != ps[j0].user);
            }
        }
    }
    assert forall|u: User| u != ps[i].user implies (#[trigger] has_user(ps2, u) <==> has_user(
        ps,
        u,
    )) by {
        if has_user(ps2, u) {
            let j = choose|j: int| 0 <= j < ps2.len() && ps2[j].user == u;
            let j0 = if j < i { j } else { j + 1 };
            assert(ps[j0].user == u);
        }
        if has_user(ps, u) {
            let j = choose|j: int| 0 <= j < ps.len() && ps[j].user == u;
            assert(j != i);
            let j2 = if j < i { j } else { j - 1 };
            assert(ps2[j2].user == u);
        }
    }
    assert forall|u: User| u != ps[i].user && has_user(ps, u) implies #[trigger]
        user_permissions_at(ps2, u) == user_permissions_at(ps, u) by {
        let j = choose|j: int| 0 <= j < ps.len() && ps[j].user == u;
        crate::data::lemma_user_at_index(ps, j);
        assert(j != i);
        let j2 = if j < i { j } else { j - 1 };
        assert(ps2[j2].user == u);
        assert(ps2[j2].permissions == ps[j].permissions);
        crate::data::lemma_user_at_index(ps2, j2);
    }
}

// ---------------------------------------------------------------------------
// Permissions
// ---------------------------------------------------------------------------

/// The kind of operation a permission rule can speak about.
#[derive(Clone, Copy, PartialEq, Eq, Structural, Debug)]
pub enum ActionKind {
    /// Inserting a fresh key.
    Insert,
    /// Updating a present key.
    Update,
    /// Deleting a present key.
    Delete,
    /// Changing the record's permission rules.
    ManagePermissions,
}

/// Whether a permission set allows an operation of the given kind.
pub open spec fn spec_allows(p: PermissionSet, kind: ActionKind) -> bool {
    match kind {
        ActionKind::Insert => p.insert,
        ActionKind::Update => p.update,
        ActionKind::Delete => p.delete,
        ActionKind::ManagePermissions => p.manage_permissions,
    }
}

/// The kind of operation an entry action performs.
pub open spec fn spec_action_kind(a: EntryActionView) -> ActionKind {
    match a {
        EntryActionView::Ins(_) => ActionKind::Insert,
        EntryActionView::Update(_) => ActionKind::Update,
        EntryActionView::Del(_) => ActionKind::Delete,
    }
}

// ---------------------------------------------------------------------------
// The record
// ---------------------------------------------------------------------------

/// A versioned mutable key/value record, identified by its `(name, tag)`
/// pair. The shell version rises by 1 on every permission or owner change;
/// entry mutations leave it untouched.
#[derive(Debug)]
pub struct MutableData {
    /// The record's network address.
    pub name: Address,
    /// The application-defined namespace discriminator.
    pub tag: u64,
    /// The shell version.
    pub version: u64,
    /// The key/value entries.
    pub entries: Vec<Entry>,
    /// The per-user access rules.
    pub permissions: Vec<UserPermission>,
    /// The public keys owning the record.
    pub owners: Vec<PublicKey>,
}

impl MutableData {
    /// Structural soundness: entry keys and permission users are pairwise
    /// distinct and at least one owner is set.
    pub open spec fn wf(&self) -> bool {
        &&& keys_distinct(self.entries@)
        &&& users_distinct(self.permissions@)
        &&& self.owners@.len() >= 1
    }

    /// Everything but the entries: name, tag, shell version, permissions
    /// and owners.
    pub open spec fn shell_eq(&self, other: &MutableData) -> bool {
        &&& self.name == other.name
        &&& self.tag == other.tag
        &&& self.version == other.version
        &&& self.permissions@ == other.permissions@
        &&& self.owners@ == other.owners@
    }

    /// Whether `requester` may perform an operation of the given kind: an
    /// owner may do anything, anyone else goes by their own rule if one is
    /// set, else by the rule for anyone, else is denied.
    pub open spec fn spec_action_allowed(
        &self,
        requester: PublicKey,
        kind: ActionKind,
    ) -> bool {
        if self.owners@.contains(requester) {
            true
        } else if has_user(self.permissions@, User::Key(requester)) {
            spec_allows(user_permissions_at(self.permissions@, User::Key(requester)), kind)
        } else if has_user(self.permissions@, User::Anyone) {
            spec_allows(user_permissions_at(self.permissions@, User::Anyone), kind)
        } else {
            false
        }
    }

    /// Every action of the batch is one `requester` may perform.
    pub open spec fn spec_batch_allowed(&self, b: Seq<ActionItem>, requester: PublicKey) -> bool {
        forall|i: int|
            0 <= i < b.len() ==> self.spec_action_allowed(requester, spec_action_kind(b[i].action@))
    }

    /// Construct a record. The owner set must hold exactly one key and the
    /// entries must fit the entry cap.
    pub fn new(
        name: Address,
        tag: u64,
        permissions: Vec<UserPermission>,
        entries: Vec<Entry>,
        owners: Vec<PublicKey>,
    ) -> (r: Result<MutableData, ClientError>)
        requires
            keys_distinct(entries@),
            users_distinct(permissions@),
        ensures
            match r {
                Ok(d) => {
                    &&& owners@.len() == 1
                    &&& entries@.len() <= MAX_MDATA_ENTRIES
                    &&& d.name == name
                    &&& d.tag == tag
                    &&& d.version == 0
                    &&& d.entries@ == entries@
                    &&& d.permissions@ == permissions@
                    &&& d.owners@ == owners@
                    &&& d.wf()
                },
                Err(e) => {
                    ||| (e == ClientError::InvalidOwners && owners@.len() != 1)
                    ||| (e == ClientError::TooManyEntries && owners@.len() == 1 && entries@.len()
                        > MAX_MDATA_ENTRIES)
                },
            },
    {
        if owners.len() != 1 {
            return Err(ClientError::InvalidOwners);
        }
        if entries.len() > MAX_MDATA_ENTRIES {
            return Err(ClientError::TooManyEntries);
        }
        Ok(MutableData { name, tag, version: 0, entries, permissions, owners })
    }

    /// The record's network address.
    pub fn name(&self) -> (n: Address)
        ensures
            n == self.name,
    {
        self.name
    }

    /// The record's tag.
    pub fn tag(&self) -> (t: u64)
        ensures
            t == self.tag,
    {
        self.tag
    }

    /// The record's shell version.
    pub fn version(&self) -> (v: u64)
        ensures
            v == self.version,
    {
        self.version
    }

    /// The record's entries.
    pub fn entries(&self) -> (es: &Vec<Entry>)
        ensures
            es@ == self.entries@,
    {
        &self.entries
    }

    /// The record's permission rules.
    pub fn permissions(&self) -> (ps: &Vec<UserPermission>)
        ensures
            ps@ == self.permissions@,
    {
        &self.permissions
    }

    /// The record's owners.
    pub fn owners(&self) -> (os: &Vec<PublicKey>)
        ensures
            os@ == self.owners@,
    {
        &self.owners
    }

    /// The value stored under `key`, if any.
    pub fn get(&self, key: &Vec<u8>) -> (r: Option<&Value>)
        ensures
            match r {
                Some(v) => has_entry(self.entries@, key@) && (keys_distinct(self.entries@)
                    ==> v@ == entry_at(self.entries@, key@)),
                None => !has_entry(self.entries@, key@),
            },
    {
        match find_entry(&self.entries, key) {
            Some(i) => {
                proof {
                    if keys_distinct(self.entries@) {
                        lemma_entry_at_index(self.entries@, i as int);
                    }
                }
                Some(&self.entries[i].value)
            },
            None => None,
        }
    }

    /// An identical copy of this record.
    pub fn duplicate(&self) -> (d: MutableData)
        ensures
            d.shell_eq(self),
            d.entries@.len() == self.entries@.len(),
            forall|i: int|
                0 <= i < self.entries@.len() ==> (#[trigger] d.entries@[i]).key@
                    == self.entries@[i].key@ && d.entries@[i].value@ == self.entries@[i].value@,
    {
        let mut entries: Vec<Entry> = Vec::new();
        let mut i: usize = 0;
        while i < self.entries.len()
            invariant
                i <= self.entries@.len(),
                entries@.len() == i,
                forall|j: int|
                    0 <= j < i ==> (#[trigger] entries@[j]).key@ == self.entries@[j].key@
                        && entries@[j].value@ == self.entries@[j].value@,
            decreases self.entries@.len() - i,
        {
            entries.push(clone_entry(&self.entries[i]));
            i = i + 1;
        }
        MutableData {
            name: self.name,
            tag: self.tag,
            version: self.version,
            entries,
            permissions: clone_permissions(&self.permissions),
            owners: clone_owners(&self.owners),
        }
    }

    /// The record without its entries.
    pub fn shell(&self) -> (d: MutableData)
        ensures
            d.shell_eq(self),
            d.entries@.len() == 0,
    {
        MutableData {
            name: self.name,
            tag: self.tag,
            version: self.version,
            entries: Vec::new(),
            permissions: clone_permissions(&self.permissions),
            owners: clone_owners(&self.owners),
        }
    }

    /// Shell and entries both unchanged.
    pub open spec fn state_eq(&self, other: &MutableData) -> bool {
        &&& self.shell_eq(other)
        &&& self.entries@ == other.entries@
    }

    /// Apply a batch of entry actions, all or nothing: if the requester may
    /// perform every action and every action is valid against the current
    /// entries, the entries afterwards are exactly the batch's outcome;
    /// otherwise nothing changes and the error says which rule failed.
    /// Entry mutations never move the shell version.
    pub fn mutate_entries(&mut self, actions: &Vec<ActionItem>, requester: &PublicKey) -> (r:
        Result<(), ClientError>)
        requires
            old(self).wf(),
            batch_keys_distinct(actions@),
        ensures
            final(self).wf(),
            final(self).shell_eq(old(self)),
            match r {
                Ok(()) => {
                    &&& old(self).spec_batch_allowed(actions@, *requester)
                    &&& batch_valid(old(self).entries@, actions@)
                    &&& entries_after(old(self).entries@, actions@, final(self).entries@)
                },
                Err(e) => {
                    &&& final(self).entries@ == old(self).entries@
                    &&& {
                        ||| (e == ClientError::AccessDenied && !old(self).spec_batch_allowed(
                            actions@,
                            *requester,
                        ))
                        ||| (e == ClientError::InvalidEntryActions && old(
                            self,
                        ).spec_batch_allowed(actions@, *requester) && !batch_valid(
                            old(self).entries@,
                            actions@,
                        ))
                    }
                },
            },
    {
        let ghost b = actions@;
        let ghost es0 = old(self).entries@;
        // Permission pass.
        let mut i: usize = 0;
        while i < actions.len()
            invariant
                i <= b.len(),
                actions@ == b,
                self.state_eq(old(self)),
                old(self).wf(),
                forall|j: int|
                    0 <= j < i ==> old(self).spec_action_allowed(
                        *requester,
                        spec_action_kind(b[j].action@),
                    ),
            decreases b.len() - i,
        {
            let kind = match &actions[i].action {
                EntryAction::Ins(_) => ActionKind::Insert,
                EntryAction::Update(_) => ActionKind::Update,
                EntryAction::Del(_) => ActionKind::Delete,
            };
            proof {
                assert(kind == spec_action_kind(b[i as int].action@));
            }
            if !self.is_action_allowed(requester, kind) {
                proof {
                    assert(!old(self).spec_batch_allowed(b, *requester));
                }
                return Err(ClientError::AccessDenied);
            }
            i = i + 1;
        }
        assert(old(self).spec_batch_allowed(b, *requester));
        // Validity pass.
        let mut i: usize = 0;
        while i < actions.len()
            invariant
                i <= b.len(),
                actions@ == b,
                es0 == old(self).entries@,
                self.state_eq(old(self)),
                old(self).wf(),
                old(self).spec_batch_allowed(b, *requester),
                forall|j: int| 0 <= j < i ==> action_valid(es0, b[j].key@, b[j].action@),
            decreases b.len() - i,
        {
            let a = &actions[i];
            match find_entry(&self.entries, &a.key) {
                Some(idx) => {
                    proof {
                        lemma_entry_at_index(es0, idx as int);
                    }
                    match &a.action {
                        EntryAction::Ins(_) => {
                            return Err(ClientError::InvalidEntryActions);
                        },
                        EntryAction::Update(v) => {
                            let cur = self.entries[idx].value.entry_version;
                            if cur == u64::MAX || v.entry_version != cur + 1 {
                                return Err(ClientError::InvalidEntryActions);
                            }
                        },
                        EntryAction::Del(ver) => {
                            let cur = self.entries[idx].value.entry_version;
                            if cur == u64::MAX || *ver != cur + 1 {
                                return Err(ClientError::InvalidEntryActions);
                            }
                        },
                    }
                },
                None => {
                    match &a.action {
                        EntryAction::Ins(v) => {
                            if v.entry_version != 0 {
                                return Err(ClientError::InvalidEntryActions);
                            }
                        },
                        _ => {
                            return Err(ClientError::InvalidEntryActions);
                        },
                    }
                },
            }
            i = i + 1;
        }
        assert(batch_valid(es0, b));
        // Apply pass.
        let mut i: usize = 0;
        while i < actions.len()
            invariant
                i <= b.len(),
                actions@ == b,
                es0 == old(self).entries@,
                batch_keys_distinct(b),
                batch_valid(es0, b),
                old(self).spec_batch_allowed(b, *requester),
                self.shell_eq(old(self)),
                old(self).wf(),
                keys_distinct(self.entries@),
                forall|j: int| 0 <= j < i ==> action_applied(self.entries@, b[j].key@, b[j].action@),
                forall|j: int|
                    i <= j < b.len() ==> (has_entry(self.entries@, b[j].key@) <==> has_entry(
                        es0,
                        b[j].key@,
                    )) && (has_entry(es0, b[j].key@) ==> entry_at(self.entries@, b[j].key@)
                        == entry_at(es0, b[j].key@)),
                forall|j: int|
                    0 <= j < es0.len() && !batch_has(b, es0[j].key@) ==> has_entry(
                        self.entries@,
                        es0[j].key@,
                    ) && entry_at(self.entries@, es0[j].key@) == es0[j].value@,
                forall|j: int|
                    0 <= j < self.entries@.len() ==> batch_has(b, self.entries@[j].key@) || (
                    has_entry(es0, self.entries@[j].key@) && entry_at(es0, self.entries@[j].key@)
                        == self.entries@[j].value@),
            decreases b.len() - i,
        {
            let a = &actions[i];
            let ghost cur = self.entries@;
            let ghost k = a.key@;
            proof {
                assert(action_valid(es0, b[i as int].key@, b[i as int].action@));
                assert forall|j: int| 0 <= j < b.len() && j != i implies b[j].key@ != k by {
                    if j < i {
                        assert(b[j].key@ != b[i as int].key@);
                    } else {
                        assert(b[i as int].key@ != b[j].key@);
                    }
                }
            }
            match find_entry(&self.entries, &a.key) {
                None => {
                    match &a.action {
                        EntryAction::Ins(v) => {
                            let e = Entry { key: clone_bytes(&a.key), value: clone_value(v) };
                            self.entries.push(e);
                            proof {
                                lemma_entries_push(cur, e);
                                assert(self.entries@ == cur.push(e));
                                assert(action_applied(self.entries@, k, b[i as int].action@));
                                lemma_apply_step(cur, self.entries@, es0, b, i as int);
                            }
                        },
                        _ => {
                            proof {
                                assert(false);
                            }
                            return Err(ClientError::InvalidEntryActions);
                        },
                    }
                },
                Some(idx) => {
                    proof {
                        lemma_entry_at_index(cur, idx as int);
                    }
                    match &a.action {
                        EntryAction::Update(v) => {
                            let e = Entry { key: clone_bytes(&a.key), value: clone_value(v) };
                            self.entries.set(idx, e);
                            proof {
                                lemma_entries_update(cur, idx as int, e);
                                assert(self.entries@ == cur.update(idx as int, e));
                                assert(action_applied(self.entries@, k, b[i as int].action@));
                                lemma_apply_step(cur, self.entries@, es0, b, i as int);
                            }
                        },
                        EntryAction::Del(_) => {
                            let _removed = self.entries.remove(idx);
                            proof {
                                lemma_entries_remove(cur, idx as int);
                                assert(self.entries@ == cur.remove(idx as int));
                                assert(action_applied(self.entries@, k, b[i as int].action@));
                                lemma_apply_step(cur, self.entries@, es0, b, i as int);
                            }
                        },
                        EntryAction::Ins(_) => {
                            proof {
                                assert(false);
                            }
                            return Err(ClientError::InvalidEntryActions);
                        },
                    }
                },
            }
            i = i + 1;
        }
        assert(entries_after(es0, b, self.entries@));
        Ok(())
    }

    /// Set the rules for one user. The requester must be allowed to manage
    /// permissions and `version` must be the successor of the shell
    /// version; the rules for every other user and the entries stay
    /// unchanged.
    pub fn set_user_permissions(
        &mut self,
        user: User,
        permissions: &PermissionSet,
        version: u64,
        requester: &PublicKey,
    ) -> (r: Result<(), ClientError>)
        requires
            old(self).wf(),
        ensures
            final(self).wf(),
            final(self).name == old(self).name,
            final(self).tag == old(self).tag,
            final(self).entries@ == old(self).entries@,
            final(self).owners@ == old(self).owners@,
            match r {
                Ok(()) => {
                    &&& old(self).spec_action_allowed(*requester, ActionKind::ManagePermissions)
                    &&& version == old(self).version + 1
                    &&& final(self).version == version
                    &&& has_user(final(self).permissions@, user)
                    &&& user_permissions_at(final(self).permissions@, user) == *permissions
                    &&& forall|u: User|
                        u != user ==> (#[trigger] has_user(final(self).permissions@, u)
                            <==> has_user(old(self).permissions@, u))
                    &&& forall|u: User|
                        u != user && has_user(old(self).permissions@, u)
                            ==> #[trigger] user_permissions_at(final(self).permissions@, u)
                            == user_permissions_at(old(self).permissions@, u)
                },
                Err(e) => {
                    &&& final(self).version == old(self).version
                    &&& final(self).permissions@ == old(self).permissions@
                    &&& {
                        ||| (e == ClientError::AccessDenied && !old(self).spec_action_allowed(
                            *requester,
                            ActionKind::ManagePermissions,
                        ))
                        ||| (e == ClientError::InvalidSuccessor && old(self).spec_action_allowed(
                            *requester,
                            ActionKind::ManagePermissions,
                        ) && version != old(self).version + 1)
                    }
                },
            },
    {
        if !self.is_action_allowed(requester, ActionKind::ManagePermissions) {
            return Err(ClientError::AccessDenied);
        }
        if self.version == u64::MAX || version != self.version + 1 {
            return Err(ClientError::InvalidSuccessor);
        }
        let ghost ps = self.permissions@;
        let p = UserPermission { user, permissions: *permissions };
        match find_user(&self.permissions, user) {
            Some(i) => {
                self.permissions.set(i, p);
                proof {
                    lemma_users_update(ps, i as int, p);
                }
            },
            None => {
                self.permissions.push(p);
                proof {
                    lemma_users_push(ps, p);
                }
            },
        }
        self.version = version;
        Ok(())
    }

    /// Remove the rules for one user. The requester must be allowed to
    /// manage permissions, `version` must be the successor of the shell
    /// version and the user must have rules set; every other user and the
    /// entries stay unchanged.
    pub fn del_user_permissions(&mut self, user: User, version: u64, requester: &PublicKey) -> (r:
        Result<(), ClientError>)
        requires
            old(self).wf(),
        ensures
            final(self).wf(),
            final(self).name == old(self).name,
            final(self).tag == old(self).tag,
            final(self).entries@ == old(self).entries@,
            final(self).owners@ == old(self).owners@,
            match r {
                Ok(()) => {
                    &&& old(self).spec_action_allowed(*requester, ActionKind::ManagePermissions)
                    &&& version == old(self).version + 1
                    &&& has_user(old(self).permissions@, user)
                    &&& final(self).version == version
                    &&& !has_user(final(self).permissions@, user)
                    &&& forall|u: User|
                        u != user ==> (#[trigger] has_user(final(self).permissions@, u)
                            <==> has_user(old(self).permissions@, u))
                    &&& forall|u: User|
                        u != user && has_user(old(self).permissions@, u)
                            ==> #[trigger] user_permissions_at(final(self).permissions@, u)
                            == user_permissions_at(old(self).permissions@, u)
                },
                Err(e) => {
                    &&& final(self).version == old(self).version
                    &&& final(self).permissions@ == old(self).permissions@
                    &&& {
                        ||| (e == ClientError::AccessDenied && !old(self).spec_action_allowed(
                            *requester,
                            ActionKind::ManagePermissions,
                        ))
                        ||| (e == ClientError::InvalidSuccessor && old(self).spec_action_allowed(
                            *requester,
                            ActionKind::ManagePermissions,
                        ) && version != old(self).version + 1)
                        ||| (e == ClientError::NoSuchKey && old(self).spec_action_allowed(
                            *requester,
                            ActionKind::ManagePermissions,
                        ) && version == old(self).version + 1 && !has_user(
                            old(self).permissions@,
                            user,
                        ))
                    }
                },
            },
    {
        if !self.is_action_allowed(requester, ActionKind::ManagePermissions) {
            return Err(ClientError::AccessDenied);
        }
        if self.version == u64::MAX || version != self.version + 1 {
            return Err(ClientError::InvalidSuccessor);
        }
        let ghost ps = self.permissions@;
        match find_user(&self.permissions, user) {
            Some(i) => {
                let _removed = self.permissions.remove(i);
                proof {
                    lemma_users_remove(ps, i as int);
                }
                self.version = version;
                Ok(())
            },
            None => Err(ClientError::NoSuchKey),
        }
    }

    /// Replace the owner set. The new owner set must hold exactly one key
    /// and `version` must be the successor of the shell version; entries
    /// and permission rules stay unchanged.
    pub fn change_owner(&mut self, new_owners: &Vec<PublicKey>, version: u64) -> (r: Result<
        (),
        ClientError,
    >)
        requires
            old(self).wf(),
        ensures
            final(self).wf(),
            final(self).name == old(self).name,
            final(self).tag == old(self).tag,
            final(self).entries@ == old(self).entries@,
            final(self).permissions@ == old(self).permissions@,
            match r {
                Ok(()) => {
                    &&& new_owners@.len() == 1
                    &&& version == old(self).version + 1
                    &&& final(self).version == version
                    &&& final(self).owners@ == new_owners@
                },
                Err(e) => {
                    &&& final(self).version == old(self).version
                    &&& final(self).owners@ == old(self).owners@
                    &&& {
                        ||| (e == ClientError::InvalidOwners && new_owners@.len() != 1)
                        ||| (e == ClientError::InvalidSuccessor && new_owners@.len() == 1
                            && version != old(self).version + 1)
                    }
                },
            },
    {
        if new_owners.len() != 1 {
            return Err(ClientError::InvalidOwners);
        }
        if self.version == u64::MAX || version != self.version + 1 {
            return Err(ClientError::InvalidSuccessor);
        }
        self.owners = clone_owners(new_owners);
        self.version = version;
        Ok(())
    }

    /// Whether `requester` may perform an operation of the given kind.
    pub fn is_action_allowed(&self, requester: &PublicKey, kind: ActionKind) -> (r: bool)
        requires
            users_distinct(self.permissions@),
        ensures
            r == self.spec_action_allowed(*requester, kind),
    {
        if contains_key(&self.owners, requester) {
            return true;
        }
        match find_user(&self.permissions, User::Key(*requester)) {
            Some(i) => {
                proof {
                    crate::data::lemma_user_at_index(self.permissions@, i as int);
                }
                allows(&self.permissions[i].permissions, kind)
            },
            None => match find_user(&self.permissions, User::Anyone) {
                Some(i) => {
                    proof {
                        crate::data::lemma_user_at_index(self.permissions@, i as int);
                    }
                    allows(&self.permissions[i].permissions, kind)
                },
                None => false,
            },
        }
    }
}

/// Whether a permission set allows an operation of the given kind.
pub fn allows(p: &PermissionSet, kind: ActionKind) -> (r: bool)
    ensures
        r == spec_allows(*p, kind),
{
    match kind {
        ActionKind::Insert => p.insert,
        ActionKind::Update => p.update,
        ActionKind::Delete => p.delete,
        ActionKind::ManagePermissions => p.manage_permissions,
    }
}

/// Whether the key list contains `key`.
pub fn contains_key(keys: &Vec<PublicKey>, key: &PublicKey) -> (r: bool)
    ensures
        r == keys@.contains(*key),
{
    let mut i: usize = 0;
    while i < keys.len()
        invariant
            i <= keys@.len(),
            forall|j: int| 0 <= j < i ==> keys@[j] != *key,
        decreases keys@.len() - i,
    {
        if keys[i].0 == key.0 {
            return true;
        }
        i = i + 1;
    }
    false
}

/// Copy a permission rule list.
pub fn clone_permissions(ps: &Vec<UserPermission>) -> (r: Vec<UserPermission>)
    ensures
        r@ == ps@,
{
    let mut r: Vec<UserPermission> = Vec::new();
    let mut i: usize = 0;
    while i < ps.len()
        invariant
            i <= ps@.len(),
            r@ == ps@.subrange(0, i as int),
        decreases ps@.len() - i,
    {
        r.push(ps[i]);
        proof {
            assert(r@ =~= ps@.subrange(0, i + 1));
        }
        i = i + 1;
    }
    proof {
        assert(ps@.subrange(0, ps@.len() as int) =~= ps@);
    }
    r
}

/// Copy an owner list.
pub fn clone_owners(os: &Vec<PublicKey>) -> (r: Vec<PublicKey>)
    ensures
        r@ == os@,
{
    let mut r: Vec<PublicKey> = Vec::new();
    let mut i: usize = 0;
    while i < os.len()
        invariant
            i <= os@.len(),
            r@ == os@.subrange(0, i as int),
        decreases os@.len() - i,
    {
        r.push(os[i]);
        proof {
            assert(r@ =~= os@.subrange(0, i + 1));
        }
        i = i + 1;
    }
    proof {
        assert(os@.subrange(0, os@.len() as int) =~= os@);
    }
    r
}

} // verus!
