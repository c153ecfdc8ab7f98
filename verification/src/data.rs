//! Data model of the simulated store: content-addressed immutable blobs and
//! versioned mutable key/value records, together with the entry-action
//! batches that mutate them.

use vstd::prelude::*;
use crate::authority::{Address, PublicKey};

verus! {

/// A protocol-level failure, carried inside a response and surfaced to the
/// caller as a typed outcome.
#[derive(Clone, Copy, PartialEq, Eq, Structural, Debug)]
pub enum ClientError {
    /// The requester may not perform the requested mutation.
    AccessDenied,
    /// No account exists for the addressed client manager.
    NoSuchAccount,
    /// An account already exists for the addressed client manager.
    AccountExists,
    /// The owner set of the record is not acceptable.
    InvalidOwners,
    /// A record with this name and tag is already stored.
    DataExists,
    /// No record with this name (and tag) is stored.
    NoSuchData,
    /// The record holds no entry under the given key.
    NoSuchEntry,
    /// An action batch breaks a presence or version rule.
    InvalidEntryActions,
    /// A version given with the request is not current version + 1.
    InvalidSuccessor,
    /// The addressed user or key is not present.
    NoSuchKey,
    /// The record would hold more entries than allowed.
    TooManyEntries,
    /// The operation is not valid, for instance an oversized payload.
    InvalidOperation,
    /// No response was observed before the simulation went quiescent.
    NoResponse,
}

/// Largest immutable blob the store accepts; larger payloads terminate the
/// client's connection instead of being answered.
pub const MAX_IMMUTABLE_DATA_SIZE: usize = 1048576;

/// Largest number of entries a freshly constructed mutable record may hold.
pub const MAX_MDATA_ENTRIES: usize = 100;

// ---------------------------------------------------------------------------
// Content addressing
// ---------------------------------------------------------------------------

/// One mixing round of the content address: rotate and fold in one byte.
pub open spec fn spec_mix(h: u64, b: u8) -> u64 {
    (((h << 5) | (h >> 59)) ^ (b as u64))
}

/// The deterministic address of a byte sequence: a fold of `spec_mix` over
/// the bytes, so two identical contents always share one address.
pub open spec fn spec_content_name(s: Seq<u8>) -> u64
    decreases s.len(),
{
    if s.len() == 0 {
        0x517cc1b727220a95u64
    } else {
        spec_mix(spec_content_name(s.drop_last()), s.last())
    }
}

/// Compute the content address of a byte vector.
pub fn content_name(content: &Vec<u8>) -> (h: u64)
    ensures
        h == spec_content_name(content@),
{
    let mut h: u64 = 0x517cc1b727220a95u64;
    let mut i: usize = 0;
    proof {
        assert(content@.subrange(0, 0) =~= Seq::<u8>::empty());
    }
    while i < content.len()
        invariant
            i <= content.len(),
            h == spec_content_name(content@.subrange(0, i as int)),
        decreases content.len() - i,
    {
        let b = content[i];
        h = ((h << 5u64) | (h >> 59u64)) ^ (b as u64);
        proof {
            assert(content@.subrange(0, i + 1).drop_last() =~= content@.subrange(0, i as int));
            assert(content@.subrange(0, i + 1).last() == content@[i as int]);
        }
        i = i + 1;
    }
    proof {
        assert(content@.subrange(0, content@.len() as int) =~= content@);
    }
    h
}

/// Copy a byte vector.
pub fn clone_bytes(b: &Vec<u8>) -> (r: Vec<u8>)
    ensures
        r@ == b@,
{
    let r = b.clone();
    proof {
        assert(r@ =~= b@);
    }
    r
}

/// Decide byte-for-byte equality of two vectors.
pub fn bytes_eq(a: &Vec<u8>, b: &Vec<u8>) -> (r: bool)
    ensures
        r <==> a@ == b@,
{
    if a.len() != b.len() {
        proof {
            assert(a@.len() != b@.len());
        }
        return false;
    }
    let mut i: usize = 0;
    while i < a.len()
        invariant
            i <= a.len(),
            a@.len() == b@.len(),
            forall|j: int| 0 <= j < i ==> a@[j] == b@[j],
        decreases a.len() - i,
    {
        if a[i] != b[i] {
            return false;
        }
        i = i + 1;
    }
    proof {
        assert(a@ =~= b@);
    }
    true
}

// ---------------------------------------------------------------------------
// Immutable data
// ---------------------------------------------------------------------------

/// An immutable, content-addressed blob: its address is a deterministic
/// function of its content alone.
#[derive(Debug)]
pub struct ImmutableData {
    /// The stored bytes.
    pub content: Vec<u8>,
}

impl View for ImmutableData {
    type V = Seq<u8>;

    open spec fn view(&self) -> Seq<u8> {
        self.content@
    }
}

/// The address an immutable blob with the given content is stored at.
pub open spec fn spec_idata_name(s: Seq<u8>) -> Address {
    Address(spec_content_name(s))
}

impl ImmutableData {
    /// Wrap bytes as an immutable record.
    pub fn new(value: Vec<u8>) -> (d: ImmutableData)
        ensures
            d@ == value@,
    {
        ImmutableData { content: value }
    }

    /// The record's derived, content-based address.
    pub fn name(&self) -> (n: Address)
        ensures
            n == spec_idata_name(self@),
    {
        Address(content_name(&self.content))
    }

    /// The stored bytes.
    pub fn value(&self) -> (v: &Vec<u8>)
        ensures
            v@ == self@,
    {
        &self.content
    }

    /// An identical copy of this record.
    pub fn duplicate(&self) -> (d: ImmutableData)
        ensures
            d@ == self@,
    {
        ImmutableData { content: clone_bytes(&self.content) }
    }
}

// ---------------------------------------------------------------------------
// Mutable data: values, entries, permissions
// ---------------------------------------------------------------------------

/// One stored value with its per-entry version, which starts at 0 and rises
/// by exactly 1 on every successful mutation of its key.
#[derive(Debug)]
pub struct Value {
    /// The stored bytes.
    pub content: Vec<u8>,
    /// How often this key has been mutated since insertion.
    pub entry_version: u64,
}

/// The mathematical model of a `Value`.
pub struct ValueView {
    /// The stored bytes.
    pub content: Seq<u8>,
    /// How often this key has been mutated since insertion.
    pub entry_version: u64,
}

impl View for Value {
    type V = ValueView;

    open spec fn view(&self) -> ValueView {
        ValueView { content: self.content@, entry_version: self.entry_version }
    }
}

/// Copy a value.
pub fn clone_value(v: &Value) -> (r: Value)
    ensures
        r@ == v@,
{
    Value { content: clone_bytes(&v.content), entry_version: v.entry_version }
}

/// One key/value entry of a mutable record.
#[derive(Debug)]
pub struct Entry {
    /// The entry's key.
    pub key: Vec<u8>,
    /// The entry's value and version.
    pub value: Value,
}

/// Copy an entry.
pub fn clone_entry(e: &Entry) -> (r: Entry)
    ensures
        r.key@ == e.key@,
        r.value@ == e.value@,
{
    Entry { key: clone_bytes(&e.key), value: clone_value(&e.value) }
}

/// No two entries share a key.
pub open spec fn keys_distinct(es: Seq<Entry>) -> bool {
    forall|i: int, j: int| 0 <= i < j < es.len() ==> es[i].key@ != es[j].key@
}

/// Some entry holds the key `k`.
pub open spec fn has_entry(es: Seq<Entry>, k: Seq<u8>) -> bool {
    exists|i: int| 0 <= i < es.len() && es[i].key@ == k
}

/// The index of the entry holding `k`.
pub open spec fn entry_index(es: Seq<Entry>, k: Seq<u8>) -> int {
    choose|i: int| 0 <= i < es.len() && es[i].key@ == k
}

/// The value stored under `k`.
pub open spec fn entry_at(es: Seq<Entry>, k: Seq<u8>) -> ValueView {
    es[entry_index(es, k)].value@
}

/// With distinct keys, the entry at any index is the one `entry_at` finds
/// for its key.
pub proof fn lemma_entry_at_index(es: Seq<Entry>, i: int)
    requires
        keys_distinct(es),
        0 <= i < es.len(),
    ensures
        has_entry(es, es[i].key@),
        entry_index(es, es[i].key@) == i,
        entry_at(es, es[i].key@) == es[i].value@,
{
    assert(has_entry(es, es[i].key@));
    let j = entry_index(es, es[i].key@);
    assert(0 <= j < es.len() && es[j].key@ == es[i].key@);
    if i != j {
        if i < j {
            assert(es[i].key@ != es[j].key@);
        } else {
            assert(es[j].key@ != es[i].key@);
        }
    }
}

/// Find the index of the entry holding `key`, if any.
pub fn find_entry(es: &Vec<Entry>, key: &Vec<u8>) -> (r: Option<usize>)
    ensures
        match r {
            Some(i) => i < es@.len() && es@[i as int].key@ == key@ && has_entry(es@, key@),
            None => !has_entry(es@, key@),
        },
{
    let mut i: usize = 0;
    while i < es.len()
        invariant
            i <= es.len(),
            forall|j: int| 0 <= j < i ==> es@[j].key@ != key@,
        decreases es.len() - i,
    {
        if bytes_eq(&es[i].key, key) {
            return Some(i);
        }
        i = i + 1;
    }
    proof {
        assert(!has_entry(es@, key@));
    }
    None
}

/// One of the record's per-user access rule subjects.
#[derive(Clone, Copy, PartialEq, Eq, Structural, Debug)]
pub enum User {
    /// Any requester, keyed or not.
    Anyone,
    /// The requester holding this signing key.
    Key(PublicKey),
}

/// Which entry-level operations a user may perform.
#[derive(Clone, Copy, PartialEq, Eq, Structural, Debug)]
pub struct PermissionSet {
    /// May insert fresh keys.
    pub insert: bool,
    /// May update present keys.
    pub update: bool,
    /// May delete present keys.
    pub delete: bool,
    /// May change the record's permission rules.
    pub manage_permissions: bool,
}

impl PermissionSet {
    /// The empty permission set: nothing allowed.
    pub fn new() -> (p: PermissionSet)
        ensures
            p == (PermissionSet {
                insert: false,
                update: false,
                delete: false,
                manage_permissions: false,
            }),
    {
        PermissionSet { insert: false, update: false, delete: false, manage_permissions: false }
    }
}

/// One user's access rules on a record.
#[derive(Clone, Copy, PartialEq, Eq, Structural, Debug)]
pub struct UserPermission {
    /// Whose rules these are.
    pub user: User,
    /// What that user may do.
    pub permissions: PermissionSet,
}

/// No two rules speak of the same user.
pub open spec fn users_distinct(ps: Seq<UserPermission>) -> bool {
    forall|i: int, j: int| 0 <= i < j < ps.len() ==> ps[i].user != ps[j].user
}

/// Some rule speaks of `u`.
pub open spec fn has_user(ps: Seq<UserPermission>, u: User) -> bool {
    exists|i: int| 0 <= i < ps.len() && ps[i].user == u
}

/// The rules for `u`.
pub open spec fn user_permissions_at(ps: Seq<UserPermission>, u: User) -> PermissionSet {
    ps[choose|i: int| 0 <= i < ps.len() && ps[i].user == u].permissions
}

/// With distinct users, the rule at any index is the one looked up for its
/// user.
pub proof fn lemma_user_at_index(ps: Seq<UserPermission>, i: int)
    requires
        users_distinct(ps),
        0 <= i < ps.len(),
    ensures
        has_user(ps, ps[i].user),
        user_permissions_at(ps, ps[i].user) == ps[i].permissions,
{
    assert(has_user(ps, ps[i].user));
    let j = choose|j: int| 0 <= j < ps.len() && ps[j].user == ps[i].user;
    if i != j {
        if i < j {
            assert(ps[i].user != ps[j].user);
        } else {
            assert(ps[j].user != ps[i].user);
        }
    }
}

/// Find the index of the rule for `user`, if any.
pub fn find_user(ps: &Vec<UserPermission>, user: User) -> (r: Option<usize>)
    ensures
        match r {
            Some(i) => i < ps@.len() && ps@[i as int].user == user && has_user(ps@, user),
            None => !has_user(ps@, user),
        },
{
    let mut i: usize = 0;
    while i < ps.len()
        invariant
            i <= ps.len(),
            forall|j: int| 0 <= j < i ==> ps@[j].user != user,
        decreases ps.len() - i,
    {
        if ps[i].user == user {
            return Some(i);
        }
        i = i + 1;
    }
    None
}

} // verus!
