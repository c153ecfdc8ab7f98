//! The steppable network simulation: a single participant standing for the
//! storage side of the network, with the store's protocol rules.
//!
//! A request handed to the node is queued; each simulation round processes
//! one queued unit of work and emits the resulting event into the client's
//! queue. The node answers every request in exactly one round, so a driver
//! loop that advances rounds until no participant makes progress always
//! terminates.

use vstd::prelude::*;
use vstd::pervasive::VecAdditionalExecFns;
use crate::authority::{Address, Authority, PublicKey};
use crate::data::{
    clone_bytes, clone_entry, clone_value, entry_at, find_entry, find_user, has_entry, has_user,
    keys_distinct, lemma_entry_at_index, ClientError, Entry, ImmutableData, PermissionSet, User,
    UserPermission, Value, ValueView, MAX_IMMUTABLE_DATA_SIZE,
};
use crate::data::spec_idata_name;
use crate::mdata::{
    batch_keys_distinct, batch_valid, entries_after, ActionItem, ActionKind, MutableData,
};
use crate::TYPE_TAG_SESSION_PACKET;

verus! {

/// How many mutations one account may spend in total.
pub const ACCOUNT_MUTATION_LIMIT: u64 = 1000;

/// What an account manager reports about an account.
#[derive(Clone, Copy, PartialEq, Eq, Structural, Debug)]
pub struct AccountInfo {
    /// Mutations already spent.
    pub mutations_done: u64,
    /// Mutations still available.
    pub mutations_available: u64,
}

/// One client account held by its manager group: its spent mutation count
/// and its authorised app keys with their list version.
#[derive(Debug)]
pub struct Account {
    /// The manager address the account lives at.
    pub name: Address,
    /// Mutations already spent.
    pub mutations_done: u64,
    /// Keys authorised to mutate on the owner's behalf.
    pub auth_keys: Vec<PublicKey>,
    /// Version of the key list, rising by 1 on each change.
    pub keys_version: u64,
}

/// One typed response, correlated to its request by the message identifier
/// it carries.
#[derive(Debug)]
#[allow(inconsistent_fields)]
pub enum Response {
    /// Outcome of storing an immutable blob.
    PutIData { res: Result<(), ClientError>, msg_id: u64 },
    /// Outcome of fetching an immutable blob.
    GetIData { res: Result<ImmutableData, ClientError>, msg_id: u64 },
    /// Outcome of storing a mutable record.
    PutMData { res: Result<(), ClientError>, msg_id: u64 },
    /// Outcome of reading a record's shell version.
    GetMDataVersion { res: Result<u64, ClientError>, msg_id: u64 },
    /// Outcome of reading a record without its entries.
    GetMDataShell { res: Result<MutableData, ClientError>, msg_id: u64 },
    /// Outcome of listing a record's entries.
    ListMDataEntries { res: Result<Vec<Entry>, ClientError>, msg_id: u64 },
    /// Outcome of reading one entry.
    GetMDataValue { res: Result<Value, ClientError>, msg_id: u64 },
    /// Outcome of applying an action batch.
    MutateMDataEntries { res: Result<(), ClientError>, msg_id: u64 },
    /// Outcome of listing all permission rules.
    ListMDataPermissions { res: Result<Vec<UserPermission>, ClientError>, msg_id: u64 },
    /// Outcome of listing one user's permission rules.
    ListMDataUserPermissions { res: Result<PermissionSet, ClientError>, msg_id: u64 },
    /// Outcome of setting one user's permission rules.
    SetMDataUserPermissions { res: Result<(), ClientError>, msg_id: u64 },
    /// Outcome of removing one user's permission rules.
    DelMDataUserPermissions { res: Result<(), ClientError>, msg_id: u64 },
    /// Outcome of replacing a record's owner set.
    ChangeMDataOwner { res: Result<(), ClientError>, msg_id: u64 },
    /// Outcome of reading the account's mutation counters.
    GetAccountInfo { res: Result<AccountInfo, ClientError>, msg_id: u64 },
    /// Outcome of listing the account's authorised keys.
    ListAuthKeysAndVersion { res: Result<(Vec<PublicKey>, u64), ClientError>, msg_id: u64 },
    /// Outcome of authorising one key.
    InsAuthKey { res: Result<(), ClientError>, msg_id: u64 },
    /// Outcome of withdrawing one key.
    DelAuthKey { res: Result<(), ClientError>, msg_id: u64 },
}

/// One event a client observes.
#[derive(Debug)]
pub enum Event {
    /// The client's connection was confirmed.
    Connected,
    /// The client's connection was dropped, for instance over an oversized
    /// payload.
    Terminate,
    /// A response to an earlier request, sent by `src`.
    Response { response: Response, src: Authority },
}

/// One queued request.
#[derive(Debug)]
#[allow(inconsistent_fields)]
pub enum Request {
    /// Confirm the client's connection.
    Connect,
    /// Store an immutable blob.
    PutIData { data: ImmutableData },
    /// Fetch an immutable blob by its address.
    GetIData { name: Address },
    /// Store a mutable record.
    PutMData { data: MutableData, requester: PublicKey },
    /// Read a record's shell version.
    GetMDataVersion { name: Address, tag: u64 },
    /// Read a record without its entries.
    GetMDataShell { name: Address, tag: u64 },
    /// List a record's entries.
    ListMDataEntries { name: Address, tag: u64 },
    /// Read one entry of a record.
    GetMDataValue { name: Address, tag: u64, key: Vec<u8> },
    /// Apply an action batch to a record.
    MutateMDataEntries { name: Address, tag: u64, actions: Vec<ActionItem>, requester: PublicKey },
    /// List all permission rules of a record.
    ListMDataPermissions { name: Address, tag: u64 },
    /// List one user's permission rules.
    ListMDataUserPermissions { name: Address, tag: u64, user: User },
    /// Set one user's permission rules.
    SetMDataUserPermissions {
        name: Address,
        tag: u64,
        user: User,
        permissions: PermissionSet,
        version: u64,
        requester: PublicKey,
    },
    /// Remove one user's permission rules.
    DelMDataUserPermissions { name: Address, tag: u64, user: User, version: u64, requester: PublicKey },
    /// Replace a record's owner set.
    ChangeMDataOwner { name: Address, tag: u64, new_owners: Vec<PublicKey>, version: u64 },
    /// Read the account's mutation counters.
    GetAccountInfo,
    /// List the account's authorised keys and their version.
    ListAuthKeysAndVersion,
    /// Authorise one key.
    InsAuthKey { key: PublicKey, version: u64 },
    /// Withdraw one key.
    DelAuthKey { key: PublicKey, version: u64 },
}

/// One queued unit of work: who asked, whom they addressed, the fresh
/// message identifier, and the request itself.
#[derive(Debug)]
pub struct Pending {
    /// The asking client's own name.
    pub client: Address,
    /// The addressed authority.
    pub dst: Authority,
    /// The request's fresh message identifier.
    pub msg_id: u64,
    /// The request.
    pub request: Request,
}

/// A structurally sound request: a stored record and a batch carry the
/// shapes their handlers rely on.
pub open spec fn request_wf(r: Request) -> bool {
    match r {
        Request::PutMData { data, .. } => data.wf(),
        Request::MutateMDataEntries { actions, .. } => batch_keys_distinct(actions@),
        _ => true,
    }
}

// ---------------------------------------------------------------------------
// Store lookups
// ---------------------------------------------------------------------------

/// No two stored blobs share an address.
pub open spec fn idata_names_distinct(s: Seq<ImmutableData>) -> bool {
    forall|i: int, j: int|
        0 <= i < j < s.len() ==> spec_idata_name(s[i]@) != spec_idata_name(s[j]@)
}

/// Some stored blob has the address `name`.
pub open spec fn has_idata(s: Seq<ImmutableData>, name: Address) -> bool {
    exists|i: int| 0 <= i < s.len() && spec_idata_name(s[i]@) == name
}

/// The index of the stored blob with address `name`.
pub open spec fn idata_index(s: Seq<ImmutableData>, name: Address) -> int {
    choose|i: int| 0 <= i < s.len() && spec_idata_name(s[i]@) == name
}

/// The content of the stored blob with address `name`.
pub open spec fn idata_at(s: Seq<ImmutableData>, name: Address) -> Seq<u8> {
    s[idata_index(s, name)]@
}

/// With distinct addresses, the blob at any index is the one looked up for
/// its address.
pub proof fn lemma_idata_at_index(s: Seq<ImmutableData>, i: int)
    requires
        idata_names_distinct(s),
        0 <= i < s.len(),
    ensures
        has_idata(s, spec_idata_name(s[i]@)),
        idata_index(s, spec_idata_name(s[i]@)) == i,
        idata_at(s, spec_idata_name(s[i]@)) == s[i]@,
{
    assert(has_idata(s, spec_idata_name(s[i]@)));
    let j = idata_index(s, spec_idata_name(s[i]@));
    if i != j {
        if i < j {
            assert(spec_idata_name(s[i]@) != spec_idata_name(s[j]@));
        } else {
            assert(spec_idata_name(s[j]@) != spec_idata_name(s[i]@));
        }
    }
}

/// No two stored records share a `(name, tag)` pair.
pub open spec fn mdata_ids_distinct(s: Seq<MutableData>) -> bool {
    forall|i: int, j: int|
        0 <= i < j < s.len() ==> !(s[i].name == s[j].name && s[i].tag == s[j].tag)
}

/// Some stored record has the identity `(name, tag)`.
pub open spec fn has_mdata(s: Seq<MutableData>, name: Address, tag: u64) -> bool {
    exists|i: int| 0 <= i < s.len() && s[i].name == name && s[i].tag == tag
}

/// The index of the stored record with identity `(name, tag)`.
pub open spec fn mdata_index(s: Seq<MutableData>, name: Address, tag: u64) -> int {
    choose|i: int| 0 <= i < s.len() && s[i].name == name && s[i].tag == tag
}

/// With distinct identities, the record at any index is the one looked up
/// for its identity.
pub proof fn lemma_mdata_at_index(s: Seq<MutableData>, i: int)
    requires
        mdata_ids_distinct(s),
        0 <= i < s.len(),
    ensures
        has_mdata(s, s[i].name, s[i].tag),
        mdata_index(s, s[i].name, s[i].tag) == i,
{
    assert(has_mdata(s, s[i].name, s[i].tag));
    let j = mdata_index(s, s[i].name, s[i].tag);
    if i != j {
        if i < j {
            assert(!(s[i].name == s[j].name && s[i].tag == s[j].tag));
        } else {
            assert(!(s[j].name == s[i].name && s[j].tag == s[i].tag));
        }
    }
}

/// No two accounts share a manager address.
pub open spec fn accounts_distinct(s: Seq<Account>) -> bool {
    forall|i: int, j: int| 0 <= i < j < s.len() ==> s[i].name != s[j].name
}

/// Some account lives at the manager address `name`.
pub open spec fn has_account(s: Seq<Account>, name: Address) -> bool {
    exists|i: int| 0 <= i < s.len() && s[i].name == name
}

/// The index of the account at manager address `name`.
pub open spec fn account_index(s: Seq<Account>, name: Address) -> int {
    choose|i: int| 0 <= i < s.len() && s[i].name == name
}

/// With distinct addresses, the account at any index is the one looked up
/// for its address.
pub proof fn lemma_account_at_index(s: Seq<Account>, i: int)
    requires
        accounts_distinct(s),
        0 <= i < s.len(),
    ensures
        has_account(s, s[i].name),
        account_index(s, s[i].name) == i,
{
    assert(has_account(s, s[i].name));
    let j = account_index(s, s[i].name);
    if i != j {
        if i < j {
            assert(s[i].name != s[j].name);
        } else {
            assert(s[j].name != s[i].name);
        }
    }
}

// ---------------------------------------------------------------------------
// The node and its transition rules
// ---------------------------------------------------------------------------

/// The simulated storage side of the network: in the real network a group
/// of nodes, here one steppable participant holding the store, the queued
/// requests and the clients' event queues.
#[derive(Debug)]
pub struct TestNode {
    /// The section size the simulation was set up with.
    pub min_section_size: usize,
    /// Stored immutable blobs, addresses pairwise distinct.
    pub idata: Vec<ImmutableData>,
    /// Stored mutable records, `(name, tag)` pairs pairwise distinct.
    pub mdata: Vec<MutableData>,
    /// Client accounts, manager addresses pairwise distinct.
    pub accounts: Vec<Account>,
    /// Queued units of work, oldest first.
    pub pending: Vec<Pending>,
    /// Events emitted for clients, oldest first, each tagged with the
    /// client's name.
    pub events: Vec<(Address, Event)>,
}

/// An account's key list holds no key twice.
pub open spec fn account_wf(a: Account) -> bool {
    forall|i: int, j: int| 0 <= i < j < a.auth_keys@.len() ==> a.auth_keys@[i] != a.auth_keys@[j]
}

impl TestNode {
    /// Structural soundness of the whole store and queue.
    pub open spec fn wf(&self) -> bool {
        &&& idata_names_distinct(self.idata@)
        &&& mdata_ids_distinct(self.mdata@)
        &&& forall|i: int| 0 <= i < self.mdata@.len() ==> (#[trigger] self.mdata@[i]).wf()
        &&& accounts_distinct(self.accounts@)
        &&& forall|i: int| 0 <= i < self.accounts@.len() ==> account_wf(#[trigger] self.accounts@[i])
        &&& forall|i: int| 0 <= i < self.pending@.len() ==> request_wf((#[trigger] self.pending@[i]).request)
    }

    /// A fresh, empty simulation.
    pub fn new(min_section_size: usize) -> (n: TestNode)
        ensures
            n.wf(),
            n.min_section_size == min_section_size,
            n.idata@.len() == 0,
            n.mdata@.len() == 0,
            n.accounts@.len() == 0,
            n.pending@.len() == 0,
            n.events@.len() == 0,
    {
        TestNode {
            min_section_size,
            idata: Vec::new(),
            mdata: Vec::new(),
            accounts: Vec::new(),
            pending: Vec::new(),
            events: Vec::new(),
        }
    }
}

/// One more mutation spent, saturating at the counter's top.
pub open spec fn inc_sat(x: u64) -> u64 {
    if x < u64::MAX {
        (x + 1) as u64
    } else {
        x
    }
}

/// `post` is `pre` with one mutation spent at the account at `name`, if
/// one exists; otherwise `post` is `pre` unchanged.
pub open spec fn accounts_bumped(pre: Seq<Account>, post: Seq<Account>, name: Address) -> bool {
    if has_account(pre, name) {
        let i = account_index(pre, name);
        &&& post.len() == pre.len()
        &&& post[i].name == pre[i].name
        &&& post[i].mutations_done == inc_sat(pre[i].mutations_done)
        &&& post[i].auth_keys@ == pre[i].auth_keys@
        &&& post[i].keys_version == pre[i].keys_version
        &&& forall|j: int| 0 <= j < pre.len() && j != i ==> post[j] == pre[j]
    } else {
        post == pre
    }
}

/// `post` is `pre` with a fresh account at `name`, already charged its
/// first mutation.
pub open spec fn accounts_created(pre: Seq<Account>, post: Seq<Account>, name: Address) -> bool {
    &&& post.len() == pre.len() + 1
    &&& post[pre.len() as int].name == name
    &&& post[pre.len() as int].mutations_done == 1
    &&& post[pre.len() as int].auth_keys@.len() == 0
    &&& post[pre.len() as int].keys_version == 0
    &&& forall|j: int| 0 <= j < pre.len() ==> post[j] == pre[j]
}

/// The events not addressed to `client`: the predicate a drain for one
/// client filters the queue by.
pub open spec fn event_not_for(client: Address) -> spec_fn((Address, Event)) -> bool {
    |e: (Address, Event)| e.0 != client
}

/// The store parts of the node are untouched.
pub open spec fn store_unchanged(pre: TestNode, post: TestNode) -> bool {
    &&& post.idata@ == pre.idata@
    &&& post.mdata@ == pre.mdata@
    &&& post.accounts@ == pre.accounts@
}

/// `b` carries the same entries as `a`, key for key and value for value.
pub open spec fn entries_like(a: Seq<Entry>, b: Seq<Entry>) -> bool {
    &&& a.len() == b.len()
    &&& forall|i: int|
        0 <= i < a.len() ==> (#[trigger] a[i]).key@ == b[i].key@ && a[i].value@ == b[i].value@
}

// ---------------------------------------------------------------------------
// Per-request transition rules
// ---------------------------------------------------------------------------

/// Storing an immutable blob that fits the size cap: the blob stands in
/// the store under its derived address afterwards — stored anew or
/// overwritten in place, which is the same record since the address
/// derives from the content — one mutation is spent at the addressed
/// manager's account, and nothing else changes.
pub open spec fn put_idata_post(
    pre: TestNode,
    data: ImmutableData,
    dst: Address,
    post: TestNode,
    res: Result<(), ClientError>,
) -> bool {
    &&& post.mdata@ == pre.mdata@
    &&& (if has_idata(pre.idata@, spec_idata_name(data@)) {
        post.idata@ == pre.idata@.update(idata_index(pre.idata@, spec_idata_name(data@)), data)
    } else {
        post.idata@ == pre.idata@.push(data)
    })
    &&& accounts_bumped(pre.accounts@, post.accounts@, dst)
    &&& res == Result::<(), ClientError>::Ok(())
}

/// Fetching an immutable blob: the stored content comes back byte for
/// byte, or no-such-data exactly when no blob stands at the address; the
/// store never changes.
pub open spec fn get_idata_post(
    pre: TestNode,
    name: Address,
    post: TestNode,
    res: Result<ImmutableData, ClientError>,
) -> bool {
    &&& store_unchanged(pre, post)
    &&& match res {
        Ok(d) => has_idata(pre.idata@, name) && d@ == idata_at(pre.idata@, name),
        Err(e) => e == ClientError::NoSuchData && !has_idata(pre.idata@, name),
    }
}

/// Storing a mutable record: rejected when the owner set is not exactly
/// the requester, when the identity is taken, or — for the reserved
/// session-packet tag — when the account exists already; otherwise the
/// record is stored as handed in, and for the session-packet tag a fresh
/// account is opened at the addressed manager.
pub open spec fn put_mdata_post(
    pre: TestNode,
    data: MutableData,
    requester: PublicKey,
    dst: Address,
    post: TestNode,
    res: Result<(), ClientError>,
) -> bool {
    let ok_owners = data.owners@.len() == 1 && data.owners@[0] == requester;
    let taken = has_mdata(pre.mdata@, data.name, data.tag);
    let opens_account = data.tag == TYPE_TAG_SESSION_PACKET;
    let account_taken = has_account(pre.accounts@, dst);
    if !ok_owners {
        &&& store_unchanged(pre, post)
        &&& res == Result::<(), ClientError>::Err(ClientError::InvalidOwners)
    } else if taken {
        &&& store_unchanged(pre, post)
        &&& res == Result::<(), ClientError>::Err(ClientError::DataExists)
    } else if opens_account && account_taken {
        &&& store_unchanged(pre, post)
        &&& res == Result::<(), ClientError>::Err(ClientError::AccountExists)
    } else {
        &&& post.idata@ == pre.idata@
        &&& post.mdata@ == pre.mdata@.push(data)
        &&& (if opens_account {
            accounts_created(pre.accounts@, post.accounts@, dst)
        } else {
            accounts_bumped(pre.accounts@, post.accounts@, dst)
        })
        &&& res == Result::<(), ClientError>::Ok(())
    }
}

/// Reading a record's shell version: the stored version, or no-such-data
/// exactly when the identity is unknown; the store never changes.
pub open spec fn get_mdata_version_post(
    pre: TestNode,
    name: Address,
    tag: u64,
    post: TestNode,
    res: Result<u64, ClientError>,
) -> bool {
    &&& store_unchanged(pre, post)
    &&& match res {
        Ok(v) => has_mdata(pre.mdata@, name, tag) && v == pre.mdata@[mdata_index(
            pre.mdata@,
            name,
            tag,
        )].version,
        Err(e) => e == ClientError::NoSuchData && !has_mdata(pre.mdata@, name, tag),
    }
}

/// Reading a record without its entries: the stored shell, or no-such-data
/// exactly when the identity is unknown; the store never changes.
pub open spec fn get_mdata_shell_post(
    pre: TestNode,
    name: Address,
    tag: u64,
    post: TestNode,
    res: Result<MutableData, ClientError>,
) -> bool {
    &&& store_unchanged(pre, post)
    &&& match res {
        Ok(d) => has_mdata(pre.mdata@, name, tag) && d.shell_eq(
            &pre.mdata@[mdata_index(pre.mdata@, name, tag)],
        ) && d.entries@.len() == 0,
        Err(e) => e == ClientError::NoSuchData && !has_mdata(pre.mdata@, name, tag),
    }
}

/// Listing a record's entries: all of them, key for key and value for
/// value, or no-such-data exactly when the identity is unknown; the store
/// never changes.
pub open spec fn list_mdata_entries_post(
    pre: TestNode,
    name: Address,
    tag: u64,
    post: TestNode,
    res: Result<Vec<Entry>, ClientError>,
) -> bool {
    &&& store_unchanged(pre, post)
    &&& match res {
        Ok(es) => has_mdata(pre.mdata@, name, tag) && entries_like(
            pre.mdata@[mdata_index(pre.mdata@, name, tag)].entries@,
            es@,
        ),
        Err(e) => e == ClientError::NoSuchData && !has_mdata(pre.mdata@, name, tag),
    }
}

/// Reading one entry: the stored value under the key, no-such-data exactly
/// when the identity is unknown, no-such-entry exactly when the record
/// holds no entry under the key; the store never changes.
pub open spec fn get_mdata_value_post(
    pre: TestNode,
    name: Address,
    tag: u64,
    key: Seq<u8>,
    post: TestNode,
    res: Result<Value, ClientError>,
) -> bool {
    &&& store_unchanged(pre, post)
    &&& match res {
        Ok(v) => has_mdata(pre.mdata@, name, tag) && has_entry(
            pre.mdata@[mdata_index(pre.mdata@, name, tag)].entries@,
            key,
        ) && v@ == entry_at(pre.mdata@[mdata_index(pre.mdata@, name, tag)].entries@, key),
        Err(e) => {
            ||| (e == ClientError::NoSuchData && !has_mdata(pre.mdata@, name, tag))
            ||| (e == ClientError::NoSuchEntry && has_mdata(pre.mdata@, name, tag) && !has_entry(
                pre.mdata@[mdata_index(pre.mdata@, name, tag)].entries@,
                key,
            ))
        },
    }
}

/// Applying an action batch: no-such-data exactly when the identity is
/// unknown; otherwise the addressed record alone changes, by the record's
/// own all-or-nothing mutation rule, and one mutation is spent on success.
pub open spec fn mutate_mdata_entries_post(
    pre: TestNode,
    name: Address,
    tag: u64,
    actions: Seq<ActionItem>,
    requester: PublicKey,
    dst: Address,
    post: TestNode,
    res: Result<(), ClientError>,
) -> bool {
    if !has_mdata(pre.mdata@, name, tag) {
        &&& store_unchanged(pre, post)
        &&& res == Result::<(), ClientError>::Err(ClientError::NoSuchData)
    } else {
        let i = mdata_index(pre.mdata@, name, tag);
        let d0 = pre.mdata@[i];
        let d1 = post.mdata@[i];
        &&& post.idata@ == pre.idata@
        &&& post.mdata@.len() == pre.mdata@.len()
        &&& forall|j: int| 0 <= j < pre.mdata@.len() && j != i ==> post.mdata@[j] == pre.mdata@[j]
        &&& d1.wf()
        &&& d1.shell_eq(&d0)
        &&& match res {
            Ok(()) => {
                &&& d0.spec_batch_allowed(actions, requester)
                &&& batch_valid(d0.entries@, actions)
                &&& entries_after(d0.entries@, actions, d1.entries@)
                &&& accounts_bumped(pre.accounts@, post.accounts@, dst)
            },
            Err(e) => {
                &&& d1.entries@ == d0.entries@
                &&& post.accounts@ == pre.accounts@
                &&& {
                    ||| (e == ClientError::AccessDenied && !d0.spec_batch_allowed(
                        actions,
                        requester,
                    ))
                    ||| (e == ClientError::InvalidEntryActions && d0.spec_batch_allowed(
                        actions,
                        requester,
                    ) && !batch_valid(d0.entries@, actions))
                }
            },
        }
    }
}

/// Listing all permission rules: the stored rules, or no-such-data exactly
/// when the identity is unknown; the store never changes.
pub open spec fn list_mdata_permissions_post(
    pre: TestNode,
    name: Address,
    tag: u64,
    post: TestNode,
    res: Result<Vec<UserPermission>, ClientError>,
) -> bool {
    &&& store_unchanged(pre, post)
    &&& match res {
        Ok(ps) => has_mdata(pre.mdata@, name, tag) && ps@ == pre.mdata@[mdata_index(
            pre.mdata@,
            name,
            tag,
        )].permissions@,
        Err(e) => e == ClientError::NoSuchData && !has_mdata(pre.mdata@, name, tag),
    }
}

/// Listing one user's rules: that user's stored rules, no-such-data
/// exactly when the identity is unknown, no-such-key exactly when no rule
/// speaks of the user; the store never changes.
pub open spec fn list_mdata_user_permissions_post(
    pre: TestNode,
    name: Address,
    tag: u64,
    user: User,
    post: TestNode,
    res: Result<PermissionSet, ClientError>,
) -> bool {
    &&& store_unchanged(pre, post)
    &&& match res {
        Ok(p) => has_mdata(pre.mdata@, name, tag) && has_user(
            pre.mdata@[mdata_index(pre.mdata@, name, tag)].permissions@,
            user,
        ) && p == crate::data::user_permissions_at(
            pre.mdata@[mdata_index(pre.mdata@, name, tag)].permissions@,
            user,
        ),
        Err(e) => {
            ||| (e == ClientError::NoSuchData && !has_mdata(pre.mdata@, name, tag))
            ||| (e == ClientError::NoSuchKey && has_mdata(pre.mdata@, name, tag) && !has_user(
                pre.mdata@[mdata_index(pre.mdata@, name, tag)].permissions@,
                user,
            ))
        },
    }
}

/// Setting one user's rules: no-such-data exactly when the identity is
/// unknown; otherwise the addressed record alone changes, by its own
/// permission rule, and one mutation is spent on success.
pub open spec fn set_mdata_user_permissions_post(
    pre: TestNode,
    name: Address,
    tag: u64,
    user: User,
    permissions: PermissionSet,
    version: u64,
    requester: PublicKey,
    dst: Address,
    post: TestNode,
    res: Result<(), ClientError>,
) -> bool {
    if !has_mdata(pre.mdata@, name, tag) {
        &&& store_unchanged(pre, post)
        &&& res == Result::<(), ClientError>::Err(ClientError::NoSuchData)
    } else {
        let i = mdata_index(pre.mdata@, name, tag);
        let d0 = pre.mdata@[i];
        let d1 = post.mdata@[i];
        &&& post.idata@ == pre.idata@
        &&& post.mdata@.len() == pre.mdata@.len()
        &&& forall|j: int| 0 <= j < pre.mdata@.len() && j != i ==> post.mdata@[j] == pre.mdata@[j]
        &&& d1.wf()
        &&& d1.name == d0.name
        &&& d1.tag == d0.tag
        &&& d1.entries@ == d0.entries@
        &&& d1.owners@ == d0.owners@
        &&& match res {
            Ok(()) => {
                &&& d0.spec_action_allowed(requester, ActionKind::ManagePermissions)
                &&& version == d0.version + 1
                &&& d1.version == version
                &&& has_user(d1.permissions@, user)
                &&& crate::data::user_permissions_at(d1.permissions@, user) == permissions
                &&& forall|u: User|
                    u != user ==> (#[trigger] has_user(d1.permissions@, u) <==> has_user(
                        d0.permissions@,
                        u,
                    ))
                &&& forall|u: User|
                    u != user && has_user(d0.permissions@, u)
                        ==> #[trigger] crate::data::user_permissions_at(d1.permissions@, u)
                        == crate::data::user_permissions_at(d0.permissions@, u)
                &&& accounts_bumped(pre.accounts@, post.accounts@, dst)
            },
            Err(e) => {
                &&& d1.version == d0.version
                &&& d1.permissions@ == d0.permissions@
                &&& post.accounts@ == pre.accounts@
                &&& {
                    ||| (e == ClientError::AccessDenied && !d0.spec_action_allowed(
                        requester,
                        ActionKind::ManagePermissions,
                    ))
                    ||| (e == ClientError::InvalidSuccessor && d0.spec_action_allowed(
                        requester,
                        ActionKind::ManagePermissions,
                    ) && version != d0.version + 1)
                }
            },
        }
    }
}

/// Removing one user's rules: no-such-data exactly when the identity is
/// unknown; otherwise the addressed record alone changes, by its own
/// permission rule, and one mutation is spent on success.
pub open spec fn del_mdata_user_permissions_post(
    pre: TestNode,
    name: Address,
    tag: u64,
    user: User,
    version: u64,
    requester: PublicKey,
    dst: Address,
    post: TestNode,
    res: Result<(), ClientError>,
) -> bool {
    if !has_mdata(pre.mdata@, name, tag) {
        &&& store_unchanged(pre, post)
        &&& res == Result::<(), ClientError>::Err(ClientError::NoSuchData)
    } else {
        let i = mdata_index(pre.mdata@, name, tag);
        let d0 = pre.mdata@[i];
        let d1 = post.mdata@[i];
        &&& post.idata@ == pre.idata@
        &&& post.mdata@.len() == pre.mdata@.len()
        &&& forall|j: int| 0 <= j < pre.mdata@.len() && j != i ==> post.mdata@[j] == pre.mdata@[j]
        &&& d1.wf()
        &&& d1.name == d0.name
        &&& d1.tag == d0.tag
        &&& d1.entries@ == d0.entries@
        &&& d1.owners@ == d0.owners@
        &&& match res {
            Ok(()) => {
                &&& d0.spec_action_allowed(requester, ActionKind::ManagePermissions)
                &&& version == d0.version + 1
                &&& has_user(d0.permissions@, user)
                &&& d1.version == version
                &&& !has_user(d1.permissions@, user)
                &&& forall|u: User|
                    u != user ==> (#[trigger] has_user(d1.permissions@, u) <==> has_user(
                        d0.permissions@,
                        u,
                    ))
                &&& forall|u: User|
                    u != user && has_user(d0.permissions@, u)
                        ==> #[trigger] crate::data::user_permissions_at(d1.permissions@, u)
                        == crate::data::user_permissions_at(d0.permissions@, u)
                &&& accounts_bumped(pre.accounts@, post.accounts@, dst)
            },
            Err(e) => {
                &&& d1.version == d0.version
                &&& d1.permissions@ == d0.permissions@
                &&& post.accounts@ == pre.accounts@
                &&& {
                    ||| (e == ClientError::AccessDenied && !d0.spec_action_allowed(
                        requester,
                        ActionKind::ManagePermissions,
                    ))
                    ||| (e == ClientError::InvalidSuccessor && d0.spec_action_allowed(
                        requester,
                        ActionKind::ManagePermissions,
                    ) && version != d0.version + 1)
                    ||| (e == ClientError::NoSuchKey && d0.spec_action_allowed(
                        requester,
                        ActionKind::ManagePermissions,
                    ) && version == d0.version + 1 && !has_user(d0.permissions@, user))
                }
            },
        }
    }
}

/// Replacing a record's owner set: no-such-data exactly when the identity
/// is unknown; otherwise the addressed record alone changes, by its own
/// owner rule, and one mutation is spent on success.
pub open spec fn change_mdata_owner_post(
    pre: TestNode,
    name: Address,
    tag: u64,
    new_owners: Seq<PublicKey>,
    version: u64,
    dst: Address,
    post: TestNode,
    res: Result<(), ClientError>,
) -> bool {
    if !has_mdata(pre.mdata@, name, tag) {
        &&& store_unchanged(pre, post)
        &&& res == Result::<(), ClientError>::Err(ClientError::NoSuchData)
    } else {
        let i = mdata_index(pre.mdata@, name, tag);
        let d0 = pre.mdata@[i];
        let d1 = post.mdata@[i];
        &&& post.idata@ == pre.idata@
        &&& post.mdata@.len() == pre.mdata@.len()
        &&& forall|j: int| 0 <= j < pre.mdata@.len() && j != i ==> post.mdata@[j] == pre.mdata@[j]
        &&& d1.wf()
        &&& d1.name == d0.name
        &&& d1.tag == d0.tag
        &&& d1.entries@ == d0.entries@
        &&& d1.permissions@ == d0.permissions@
        &&& match res {
            Ok(()) => {
                &&& new_owners.len() == 1
                &&& version == d0.version + 1
                &&& d1.version == version
                &&& d1.owners@ == new_owners
                &&& accounts_bumped(pre.accounts@, post.accounts@, dst)
            },
            Err(e) => {
                &&& d1.version == d0.version
                &&& d1.owners@ == d0.owners@
                &&& post.accounts@ == pre.accounts@
                &&& {
                    ||| (e == ClientError::InvalidOwners && new_owners.len() != 1)
                    ||| (e == ClientError::InvalidSuccessor && new_owners.len() == 1 && version
                        != d0.version + 1)
                }
            },
        }
    }
}

/// Reading the account's counters: spent and remaining mutations, or
/// no-such-account exactly when no account lives at the addressed
/// manager; the store never changes.
pub open spec fn get_account_info_post(
    pre: TestNode,
    dst: Address,
    post: TestNode,
    res: Result<AccountInfo, ClientError>,
) -> bool {
    &&& store_unchanged(pre, post)
    &&& match res {
        Ok(info) => {
            &&& has_account(pre.accounts@, dst)
            &&& info.mutations_done == pre.accounts@[account_index(pre.accounts@, dst)].mutations_done
            &&& info.mutations_available == (if info.mutations_done <= ACCOUNT_MUTATION_LIMIT {
                (ACCOUNT_MUTATION_LIMIT - info.mutations_done) as u64
            } else {
                0u64
            })
        },
        Err(e) => e == ClientError::NoSuchAccount && !has_account(pre.accounts@, dst),
    }
}

/// Listing the authorised keys: the stored key list and its version, or
/// no-such-account exactly when no account lives at the addressed
/// manager; the store never changes.
pub open spec fn list_auth_keys_and_version_post(
    pre: TestNode,
    dst: Address,
    post: TestNode,
    res: Result<(Vec<PublicKey>, u64), ClientError>,
) -> bool {
    &&& store_unchanged(pre, post)
    &&& match res {
        Ok(r) => {
            &&& has_account(pre.accounts@, dst)
            &&& r.0@ == pre.accounts@[account_index(pre.accounts@, dst)].auth_keys@
            &&& r.1 == pre.accounts@[account_index(pre.accounts@, dst)].keys_version
        },
        Err(e) => e == ClientError::NoSuchAccount && !has_account(pre.accounts@, dst),
    }
}

/// Authorising a key: no-such-account exactly when no account lives at
/// the addressed manager, invalid-successor exactly when the version is
/// not the key-list version + 1; otherwise the key stands in the list
/// afterwards, every other key is kept, the list version moves to the
/// carried version and one mutation is spent.
pub open spec fn ins_auth_key_post(
    pre: TestNode,
    key: PublicKey,
    version: u64,
    dst: Address,
    post: TestNode,
    res: Result<(), ClientError>,
) -> bool {
    if !has_account(pre.accounts@, dst) {
        &&& store_unchanged(pre, post)
        &&& res == Result::<(), ClientError>::Err(ClientError::NoSuchAccount)
    } else {
        let i = account_index(pre.accounts@, dst);
        let a0 = pre.accounts@[i];
        let a1 = post.accounts@[i];
        &&& post.idata@ == pre.idata@
        &&& post.mdata@ == pre.mdata@
        &&& post.accounts@.len() == pre.accounts@.len()
        &&& forall|j: int|
            0 <= j < pre.accounts@.len() && j != i ==> post.accounts@[j] == pre.accounts@[j]
        &&& a1.name == a0.name
        &&& account_wf(a1)
        &&& match res {
            Ok(()) => {
                &&& version == a0.keys_version + 1
                &&& a1.keys_version == version
                &&& a1.mutations_done == inc_sat(a0.mutations_done)
                &&& a1.auth_keys@.contains(key)
                &&& forall|k: PublicKey|
                    k != key ==> (a1.auth_keys@.contains(k) <==> a0.auth_keys@.contains(k))
            },
            Err(e) => {
                &&& post.accounts@ == pre.accounts@
                &&& e == ClientError::InvalidSuccessor
                &&& version != a0.keys_version + 1
            },
        }
    }
}

/// Withdrawing a key: no-such-account exactly when no account lives at
/// the addressed manager, invalid-successor exactly when the version is
/// not the key-list version + 1, no-such-key exactly when the key is not
/// listed; otherwise the key is gone afterwards, every other key is kept,
/// the list version moves to the carried version and one mutation is
/// spent.
pub open spec fn del_auth_key_post(
    pre: TestNode,
    key: PublicKey,
    version: u64,
    dst: Address,
    post: TestNode,
    res: Result<(), ClientError>,
) -> bool {
    if !has_account(pre.accounts@, dst) {
        &&& store_unchanged(pre, post)
        &&& res == Result::<(), ClientError>::Err(ClientError::NoSuchAccount)
    } else {
        let i = account_index(pre.accounts@, dst);
        let a0 = pre.accounts@[i];
        let a1 = post.accounts@[i];
        &&& post.idata@ == pre.idata@
        &&& post.mdata@ == pre.mdata@
        &&& post.accounts@.len() == pre.accounts@.len()
        &&& forall|j: int|
            0 <= j < pre.accounts@.len() && j != i ==> post.accounts@[j] == pre.accounts@[j]
        &&& a1.name == a0.name
        &&& account_wf(a1)
        &&& match res {
            Ok(()) => {
                &&& version == a0.keys_version + 1
                &&& a0.auth_keys@.contains(key)
                &&& a1.keys_version == version
                &&& a1.mutations_done == inc_sat(a0.mutations_done)
                &&& !a1.auth_keys@.contains(key)
                &&& forall|k: PublicKey|
                    k != key ==> (a1.auth_keys@.contains(k) <==> a0.auth_keys@.contains(k))
            },
            Err(e) => {
                &&& post.accounts@ == pre.accounts@
                &&& {
                    ||| (e == ClientError::InvalidSuccessor && version != a0.keys_version + 1)
                    ||| (e == ClientError::NoSuchKey && version == a0.keys_version + 1
                        && !a0.auth_keys@.contains(key))
                }
            },
        }
    }
}

// ---------------------------------------------------------------------------
// One processed unit of work
// ---------------------------------------------------------------------------

/// What processing one queued unit of work leaves in the store and emits
/// as the event: the request kind picks its transition rule, and the event
/// wraps the rule's result with the request's message identifier and the
/// answering authority. An oversized immutable put terminates the
/// connection instead of being answered.
pub open spec fn respond_post(pre: TestNode, p: Pending, post: TestNode, ev: Event) -> bool {
    let dst = p.dst.spec_name();
    match p.request {
        Request::Connect => store_unchanged(pre, post) && ev == Event::Connected,
        Request::PutIData { data } => if data@.len() > MAX_IMMUTABLE_DATA_SIZE {
            store_unchanged(pre, post) && ev == Event::Terminate
        } else {
            match ev {
                Event::Response { response: Response::PutIData { res, msg_id }, src } => msg_id
                    == p.msg_id && src == Authority::ClientManager(dst) && put_idata_post(
                    pre,
                    data,
                    dst,
                    post,
                    res,
                ),
                _ => false,
            }
        },
        Request::GetIData { name } => match ev {
            Event::Response { response: Response::GetIData { res, msg_id }, src } => msg_id
                == p.msg_id && src == Authority::NaeManager(name) && get_idata_post(
                pre,
                name,
                post,
                res,
            ),
            _ => false,
        },
        Request::PutMData { data, requester } => match ev {
            Event::Response { response: Response::PutMData { res, msg_id }, src } => msg_id
                == p.msg_id && src == Authority::ClientManager(dst) && put_mdata_post(
                pre,
                data,
                requester,
                dst,
                post,
                res,
            ),
            _ => false,
        },
        Request::GetMDataVersion { name, tag } => match ev {
            Event::Response { response: Response::GetMDataVersion { res, msg_id }, src } => msg_id
                == p.msg_id && src == Authority::NaeManager(name) && get_mdata_version_post(
                pre,
                name,
                tag,
                post,
                res,
            ),
            _ => false,
        },
        Request::GetMDataShell { name, tag } => match ev {
            Event::Response { response: Response::GetMDataShell { res, msg_id }, src } => msg_id
                == p.msg_id && src == Authority::NaeManager(name) && get_mdata_shell_post(
                pre,
                name,
                tag,
                post,
                res,
            ),
            _ => false,
        },
        Request::ListMDataEntries { name, tag } => match ev {
            Event::Response { response: Response::ListMDataEntries { res, msg_id }, src } => msg_id
                == p.msg_id && src == Authority::NaeManager(name) && list_mdata_entries_post(
                pre,
                name,
                tag,
                post,
                res,
            ),
            _ => false,
        },
        Request::GetMDataValue { name, tag, key } => match ev {
            Event::Response { response: Response::GetMDataValue { res, msg_id }, src } => msg_id
                == p.msg_id && src == Authority::NaeManager(name) && get_mdata_value_post(
                pre,
                name,
                tag,
                key@,
                post,
                res,
            ),
            _ => false,
        },
        Request::MutateMDataEntries { name, tag, actions, requester } => match ev {
            Event::Response { response: Response::MutateMDataEntries { res, msg_id }, src } =>
                msg_id == p.msg_id && src == Authority::ClientManager(dst)
                && mutate_mdata_entries_post(pre, name, tag, actions@, requester, dst, post, res),
            _ => false,
        },
        Request::ListMDataPermissions { name, tag } => match ev {
            Event::Response { response: Response::ListMDataPermissions { res, msg_id }, src } =>
                msg_id == p.msg_id && src == Authority::NaeManager(name)
                && list_mdata_permissions_post(pre, name, tag, post, res),
            _ => false,
        },
        Request::ListMDataUserPermissions { name, tag, user } => match ev {
            Event::Response {
                response: Response::ListMDataUserPermissions { res, msg_id },
                src,
            } => msg_id == p.msg_id && src == Authority::NaeManager(name)
                && list_mdata_user_permissions_post(pre, name, tag, user, post, res),
            _ => false,
        },
        Request::SetMDataUserPermissions { name, tag, user, permissions, version, requester } =>
            match ev {
            Event::Response {
                response: Response::SetMDataUserPermissions { res, msg_id },
                src,
            } => msg_id == p.msg_id && src == Authority::ClientManager(dst)
                && set_mdata_user_permissions_post(
                pre,
                name,
                tag,
                user,
                permissions,
                version,
                requester,
                dst,
                post,
                res,
            ),
            _ => false,
        },
        Request::DelMDataUserPermissions { name, tag, user, version, requester } => match ev {
            Event::Response {
                response: Response::DelMDataUserPermissions { res, msg_id },
                src,
            } => msg_id == p.msg_id && src == Authority::ClientManager(dst)
                && del_mdata_user_permissions_post(
                pre,
                name,
                tag,
                user,
                version,
                requester,
                dst,
                post,
                res,
            ),
            _ => false,
        },
        Request::ChangeMDataOwner { name, tag, new_owners, version } => match ev {
            Event::Response { response: Response::ChangeMDataOwner { res, msg_id }, src } => msg_id
                == p.msg_id && src == Authority::ClientManager(dst) && change_mdata_owner_post(
                pre,
                name,
                tag,
                new_owners@,
                version,
                dst,
                post,
                res,
            ),
            _ => false,
        },
        Request::GetAccountInfo => match ev {
            Event::Response { response: Response::GetAccountInfo { res, msg_id }, src } => msg_id
                == p.msg_id && src == Authority::ClientManager(dst) && get_account_info_post(
                pre,
                dst,
                post,
                res,
            ),
            _ => false,
        },
        Request::ListAuthKeysAndVersion => match ev {
            Event::Response {
                response: Response::ListAuthKeysAndVersion { res, msg_id },
                src,
            } => msg_id == p.msg_id && src == Authority::ClientManager(dst)
                && list_auth_keys_and_version_post(pre, dst, post, res),
            _ => false,
        },
        Request::InsAuthKey { key, version } => match ev {
            Event::Response { response: Response::InsAuthKey { res, msg_id }, src } => msg_id
                == p.msg_id && src == Authority::ClientManager(dst) && ins_auth_key_post(
                pre,
                key,
                version,
                dst,
                post,
                res,
            ),
            _ => false,
        },
        Request::DelAuthKey { key, version } => match ev {
            Event::Response { response: Response::DelAuthKey { res, msg_id }, src } => msg_id
                == p.msg_id && src == Authority::ClientManager(dst) && del_auth_key_post(
                pre,
                key,
                version,
                dst,
                post,
                res,
            ),
            _ => false,
        },
    }
}

/// Find the index of the stored blob with address `name`, if any.
pub fn find_idata(s: &Vec<ImmutableData>, name: &Address) -> (r: Option<usize>)
    ensures
        match r {
            Some(i) => i < s@.len() && spec_idata_name(s@[i as int]@) == *name && has_idata(
                s@,
                *name,
            ),
            None => !has_idata(s@, *name),
        },
{
    let mut i: usize = 0;
    while i < s.len()
        invariant
            i <= s@.len(),
            forall|j: int| 0 <= j < i ==> spec_idata_name(s@[j]@) != *name,
        decreases s@.len() - i,
    {
        let n = s[i].name();
        if n.0 == name.0 {
            return Some(i);
        }
        i = i + 1;
    }
    None
}

/// Find the index of the stored record with identity `(name, tag)`, if
/// any.
pub fn find_mdata(s: &Vec<MutableData>, name: &Address, tag: u64) -> (r: Option<usize>)
    ensures
        match r {
            Some(i) => i < s@.len() && s@[i as int].name == *name && s@[i as int].tag == tag
                && has_mdata(s@, *name, tag),
            None => !has_mdata(s@, *name, tag),
        },
{
    let mut i: usize = 0;
    while i < s.len()
        invariant
            i <= s@.len(),
            forall|j: int| 0 <= j < i ==> !(s@[j].name == *name && s@[j].tag == tag),
        decreases s@.len() - i,
    {
        if s[i].name.0 == name.0 && s[i].tag == tag {
            return Some(i);
        }
        i = i + 1;
    }
    None
}

/// Find the index of the account at manager address `name`, if any.
pub fn find_account(s: &Vec<Account>, name: &Address) -> (r: Option<usize>)
    ensures
        match r {
            Some(i) => i < s@.len() && s@[i as int].name == *name && has_account(s@, *name),
            None => !has_account(s@, *name),
        },
{
    let mut i: usize = 0;
    while i < s.len()
        invariant
            i <= s@.len(),
            forall|j: int| 0 <= j < i ==> s@[j].name != *name,
        decreases s@.len() - i,
    {
        if s[i].name.0 == name.0 {
            return Some(i);
        }
        i = i + 1;
    }
    None
}

// ---------------------------------------------------------------------------
// Small effect lemmas for the store's collections
// ---------------------------------------------------------------------------

/// Overwriting a blob in place by one with the same derived address keeps
/// addresses distinct.
proof fn lemma_idata_update_wf(s: Seq<ImmutableData>, i: int, d: ImmutableData)
    requires
        idata_names_distinct(s),
        0 <= i < s.len(),
        spec_idata_name(d@) == spec_idata_name(s[i]@),
    ensures
        idata_names_distinct(s.update(i, d)),
{
    let s2 = s.update(i, d);
    assert forall|a: int, b: int| 0 <= a < b < s2.len() implies spec_idata_name(s2[a]@)
        != spec_idata_name(s2[b]@) by {
        assert(spec_idata_name(s[a]@) != spec_idata_name(s[b]@));
        if a != i {
            assert(s2[a] == s[a]);
        }
        if b != i {
            assert(s2[b] == s[b]);
        }
    }
}

/// Storing a blob under a fresh address keeps addresses distinct.
proof fn lemma_idata_push_wf(s: Seq<ImmutableData>, d: ImmutableData)
    requires
        idata_names_distinct(s),
        !has_idata(s, spec_idata_name(d@)),
    ensures
        idata_names_distinct(s.push(d)),
{
    let s2 = s.push(d);
    assert forall|a: int| 0 <= a < s.len() implies spec_idata_name(s[a]@) != spec_idata_name(
        d@,
    ) by {
        if spec_idata_name(s[a]@) == spec_idata_name(d@) {
            assert(has_idata(s, spec_idata_name(d@)));
        }
    }
    assert forall|a: int, b: int| 0 <= a < b < s2.len() implies spec_idata_name(s2[a]@)
        != spec_idata_name(s2[b]@) by {
        if b < s.len() {
            assert(spec_idata_name(s[a]@) != spec_idata_name(s[b]@));
        } else {
            assert(s2[b] == d);
            assert(s2[a] == s[a]);
        }
    }
}

/// Replacing a record in place by one with the same identity keeps
/// identities distinct and well-formedness.
proof fn lemma_mdata_update_wf(s: Seq<MutableData>, i: int, d: MutableData)
    requires
        mdata_ids_distinct(s),
        forall|j: int| 0 <= j < s.len() ==> (#[trigger] s[j]).wf(),
        0 <= i < s.len(),
        d.name == s[i].name,
        d.tag == s[i].tag,
        d.wf(),
    ensures
        mdata_ids_distinct(s.update(i, d)),
        forall|j: int| 0 <= j < s.len() ==> (#[trigger] s.update(i, d)[j]).wf(),
{
    let s2 = s.update(i, d);
    assert forall|a: int, b: int| 0 <= a < b < s2.len() implies !(s2[a].name == s2[b].name
        && s2[a].tag == s2[b].tag) by {
        assert(!(s[a].name == s[b].name && s[a].tag == s[b].tag));
        if a != i {
            assert(s2[a] == s[a]);
        }
        if b != i {
            assert(s2[b] == s[b]);
        }
    }
}

/// Storing a record under a fresh identity keeps identities distinct and
/// well-formedness.
proof fn lemma_mdata_push_wf(s: Seq<MutableData>, d: MutableData)
    requires
        mdata_ids_distinct(s),
        forall|j: int| 0 <= j < s.len() ==> (#[trigger] s[j]).wf(),
        !has_mdata(s, d.name, d.tag),
        d.wf(),
    ensures
        mdata_ids_distinct(s.push(d)),
        forall|j: int| 0 <= j < s.push(d).len() ==> (#[trigger] s.push(d)[j]).wf(),
{
    let s2 = s.push(d);
    assert forall|a: int| 0 <= a < s.len() implies !(s[a].name == d.name && s[a].tag == d.tag) by {
        if s[a].name == d.name && s[a].tag == d.tag {
            assert(has_mdata(s, d.name, d.tag));
        }
    }
    assert forall|a: int, b: int| 0 <= a < b < s2.len() implies !(s2[a].name == s2[b].name
        && s2[a].tag == s2[b].tag) by {
        if b < s.len() {
            assert(!(s[a].name == s[b].name && s[a].tag == s[b].tag));
        } else {
            assert(s2[b] == d);
            assert(s2[a] == s[a]);
        }
    }
    assert forall|j: int| 0 <= j < s2.len() implies (#[trigger] s2[j]).wf() by {
        if j < s.len() {
            assert(s[j].wf());
        } else {
            assert(s2[j] == d);
        }
    }
}

/// Replacing an account in place by one with the same address keeps
/// addresses distinct and well-formedness.
proof fn lemma_accounts_update_wf(s: Seq<Account>, i: int, a: Account)
    requires
        accounts_distinct(s),
        forall|j: int| 0 <= j < s.len() ==> account_wf(#[trigger] s[j]),
        0 <= i < s.len(),
        a.name == s[i].name,
        account_wf(a),
    ensures
        accounts_distinct(s.update(i, a)),
        forall|j: int| 0 <= j < s.len() ==> account_wf(#[trigger] s.update(i, a)[j]),
{
    let s2 = s.update(i, a);
    assert forall|x: int, y: int| 0 <= x < y < s2.len() implies s2[x].name != s2[y].name by {
        assert(s[x].name != s[y].name);
        if x != i {
            assert(s2[x] == s[x]);
        }
        if y != i {
            assert(s2[y] == s[y]);
        }
    }
}

/// Opening an account at a fresh address keeps addresses distinct and
/// well-formedness.
proof fn lemma_accounts_push_wf(s: Seq<Account>, a: Account)
    requires
        accounts_distinct(s),
        forall|j: int| 0 <= j < s.len() ==> account_wf(#[trigger] s[j]),
        !has_account(s, a.name),
        account_wf(a),
    ensures
        accounts_distinct(s.push(a)),
        forall|j: int| 0 <= j < s.push(a).len() ==> account_wf(#[trigger] s.push(a)[j]),
{
    let s2 = s.push(a);
    assert forall|x: int| 0 <= x < s.len() implies s[x].name != a.name by {
        if s[x].name == a.name {
            assert(has_account(s, a.name));
        }
    }
    assert forall|x: int, y: int| 0 <= x < y < s2.len() implies s2[x].name != s2[y].name by {
        if y < s.len() {
            assert(s[x].name != s[y].name);
        } else {
            assert(s2[y] == a);
            assert(s2[x] == s[x]);
        }
    }
    assert forall|j: int| 0 <= j < s2.len() implies account_wf(#[trigger] s2[j]) by {
        if j < s.len() {
            assert(account_wf(s[j]));
        } else {
            assert(s2[j] == a);
        }
    }
}

// ---------------------------------------------------------------------------
// Executable helpers
// ---------------------------------------------------------------------------

/// An empty placeholder record, swapped into a slot while the real record
/// is worked on.
fn blank_mdata() -> (d: MutableData) {
    MutableData {
        name: Address(0),
        tag: 0,
        version: 0,
        entries: Vec::new(),
        permissions: Vec::new(),
        owners: Vec::new(),
    }
}

/// An empty placeholder account, swapped into a slot while the real
/// account is worked on.
fn blank_account() -> (a: Account) {
    Account { name: Address(0), mutations_done: 0, auth_keys: Vec::new(), keys_version: 0 }
}

/// Copy an entry list.
fn clone_entries(es: &Vec<Entry>) -> (r: Vec<Entry>)
    ensures
        entries_like(es@, r@),
{
    let mut r: Vec<Entry> = Vec::new();
    let mut i: usize = 0;
    while i < es.len()
        invariant
            i <= es@.len(),
            r@.len() == i,
            forall|j: int|
                0 <= j < i ==> (#[trigger] es@[j]).key@ == r@[j].key@ && es@[j].value@
                    == r@[j].value@,
        decreases es@.len() - i,
    {
        r.push(clone_entry(&es[i]));
        i = i + 1;
    }
    r
}

/// Spend one mutation at the account at `name`, if one exists.
fn bump_accounts(accounts: &mut Vec<Account>, name: &Address)
    requires
        accounts_distinct(old(accounts)@),
        forall|j: int| 0 <= j < old(accounts)@.len() ==> account_wf(#[trigger] old(accounts)@[j]),
    ensures
        accounts_bumped(old(accounts)@, final(accounts)@, *name),
        accounts_distinct(final(accounts)@),
        forall|j: int| 0 <= j < final(accounts)@.len() ==> account_wf(#[trigger] final(accounts)@[j]),
{
    let ghost pre = accounts@;
    match find_account(accounts, name) {
        Some(i) => {
            proof {
                lemma_account_at_index(pre, i as int);
            }
            let mut a = blank_account();
            accounts.set_and_swap(i, &mut a);
            if a.mutations_done < u64::MAX {
                a.mutations_done = a.mutations_done + 1;
            }
            let ghost a2 = a;
            accounts.set_and_swap(i, &mut a);
            proof {
                assert(accounts@ =~= pre.update(i as int, a2));
                lemma_accounts_update_wf(pre, i as int, a2);
            }
        },
        None => {},
    }
}

/// Find the index of `key` in a key list, if present.
fn find_key(keys: &Vec<PublicKey>, key: &PublicKey) -> (r: Option<usize>)
    ensures
        match r {
            Some(i) => i < keys@.len() && keys@[i as int] == *key && keys@.contains(*key),
            None => !keys@.contains(*key),
        },
{
    let mut i: usize = 0;
    while i < keys.len()
        invariant
            i <= keys@.len(),
            forall|j: int| 0 <= j < i ==> keys@[j] != *key,
        decreases keys@.len() - i,
    {
        if keys[i].0 == key.0 {
            return Some(i);
        }
        i = i + 1;
    }
    proof {
        if keys@.contains(*key) {
            let j = choose|j: int| 0 <= j < keys@.len() && keys@[j] == *key;
            assert(keys@[j] != *key);
        }
    }
    None
}

/// Removing the key at index `i` from a duplicate-free list leaves that
/// key absent and every other key in place.
proof fn lemma_keys_remove(s: Seq<PublicKey>, i: int)
    requires
        forall|a: int, b: int| 0 <= a < b < s.len() ==> s[a] != s[b],
        0 <= i < s.len(),
    ensures
        forall|a: int, b: int| 0 <= a < b < s.remove(i).len() ==> s.remove(i)[a] != s.remove(i)[b],
        !s.remove(i).contains(s[i]),
        forall|k: PublicKey| k != s[i] ==> (s.remove(i).contains(k) <==> s.contains(k)),
{
    let s2 = s.remove(i);
    s.remove_ensures(i);
    assert forall|j: int| 0 <= j < s2.len() implies s2[j] == (if j < i {
        s[j]
    } else {
        s[j + 1]
    }) by {}
    assert forall|a: int, b: int| 0 <= a < b < s2.len() implies s2[a] != s2[b] by {
        let a0 = if a < i { a } else { a + 1 };
        let b0 = if b < i { b } else { b + 1 };
        assert(s2[a] == s[a0]);
        assert(s2[b] == s[b0]);
        assert(a0 < b0);
        assert(s[a0] != s[b0]);
    }
    assert(!s2.contains(s[i])) by {
        if s2.contains(s[i]) {
            let j = choose|j: int| 0 <= j < s2.len() && s2[j] == s[i];
            let j0 = if j < i { j } else { j + 1 };
            assert(s[j0] == s[i]);
            assert(j0 != i);
            if j0 < i {
                assert(s[j0] != s[i]);
            } else {
                assert(s[i] != s[j0]);
            }
        }
    }
    assert forall|k: PublicKey| k != s[i] implies (s2.contains(k) <==> s.contains(k)) by {
        if s2.contains(k) {
            let j = choose|j: int| 0 <= j < s2.len() && s2[j] == k;
            let j0 = if j < i { j } else { j + 1 };
            assert(s[j0] == k);
        }
        if s.contains(k) {
            let j = choose|j: int| 0 <= j < s.len() && s[j] == k;
            assert(j != i);
            let j2 = if j < i { j } else { j - 1 };
            assert(s2[j2] == k);
        }
    }
}

/// Appending a fresh key to a duplicate-free list leaves it listed and
/// every other key as it was.
proof fn lemma_keys_push(s: Seq<PublicKey>, key: PublicKey)
    requires
        forall|a: int, b: int| 0 <= a < b < s.len() ==> s[a] != s[b],
        !s.contains(key),
    ensures
        forall|a: int, b: int| 0 <= a < b < s.push(key).len() ==> s.push(key)[a] != s.push(key)[b],
        s.push(key).contains(key),
        forall|k: PublicKey| k != key ==> (s.push(key).contains(k) <==> s.contains(k)),
{
    let s2 = s.push(key);
    assert forall|a: int| 0 <= a < s.len() implies s[a] != key by {
        if s[a] == key {
            assert(s.contains(key));
        }
    }
    assert(s2[s.len() as int] == key);
    assert(s2.contains(key));
    assert forall|a: int, b: int| 0 <= a < b < s2.len() implies s2[a] != s2[b] by {
        if b < s.len() {
            assert(s[a] != s[b]);
        } else {
            assert(s2[b] == key);
            assert(s2[a] == s[a]);
        }
    }
    assert forall|k: PublicKey| k != key implies (s2.contains(k) <==> s.contains(k)) by {
        if s2.contains(k) {
            let j = choose|j: int| 0 <= j < s2.len() && s2[j] == k;
            assert(j < s.len());
            assert(s[j] == k);
        }
        if s.contains(k) {
            let j = choose|j: int| 0 <= j < s.len() && s[j] == k;
            assert(s2[j] == k);
        }
    }
}

impl TestNode {
    /// Process one unit of work against the store and build the event it
    /// emits.
    fn respond(&mut self, p: Pending) -> (ev: Event)
        requires
            old(self).wf(),
            request_wf(p.request),
        ensures
            final(self).wf(),
            final(self).pending@ == old(self).pending@,
            final(self).events@ == old(self).events@,
            final(self).min_section_size == old(self).min_section_size,
            respond_post(*old(self), p, *final(self), ev),
    {
        let Pending { client: _, dst: dst_auth, msg_id, request } = p;
        let dst = dst_auth.name();
        match request {
            Request::Connect => Event::Connected,
            Request::PutIData { data } => {
                if data.content.len() > MAX_IMMUTABLE_DATA_SIZE {
                    return Event::Terminate;
                }
                let ghost pre_idata = self.idata@;
                let nm = data.name();
                match find_idata(&self.idata, &nm) {
                    Some(i) => {
                        proof {
                            lemma_idata_at_index(pre_idata, i as int);
                            lemma_idata_update_wf(pre_idata, i as int, data);
                        }
                        self.idata.set(i, data);
                    },
                    None => {
                        proof {
                            lemma_idata_push_wf(pre_idata, data);
                        }
                        self.idata.push(data);
                    },
                }
                bump_accounts(&mut self.accounts, &dst);
                Event::Response {
                    response: Response::PutIData { res: Ok(()), msg_id },
                    src: Authority::ClientManager(dst),
                }
            },
            Request::GetIData { name } => {
                let res = match find_idata(&self.idata, &name) {
                    Some(i) => {
                        proof {
                            lemma_idata_at_index(self.idata@, i as int);
                        }
                        Ok(self.idata[i].duplicate())
                    },
                    None => Err(ClientError::NoSuchData),
                };
                Event::Response {
                    response: Response::GetIData { res, msg_id },
                    src: Authority::NaeManager(name),
                }
            },
            Request::PutMData { data, requester } => {
                let ok_owners = data.owners.len() == 1 && data.owners[0].0 == requester.0;
                let res = if !ok_owners {
                    Err(ClientError::InvalidOwners)
                } else {
                    match find_mdata(&self.mdata, &data.name, data.tag) {
                        Some(_) => Err(ClientError::DataExists),
                        None => {
                            if data.tag == TYPE_TAG_SESSION_PACKET {
                                match find_account(&self.accounts, &dst) {
                                    Some(_) => Err(ClientError::AccountExists),
                                    None => {
                                        let fresh = Account {
                                            name: dst,
                                            mutations_done: 1,
                                            auth_keys: Vec::new(),
                                            keys_version: 0,
                                        };
                                        proof {
                                            lemma_mdata_push_wf(self.mdata@, data);
                                            lemma_accounts_push_wf(self.accounts@, fresh);
                                        }
                                        self.mdata.push(data);
                                        self.accounts.push(fresh);
                                        Ok(())
                                    },
                                }
                            } else {
                                proof {
                                    lemma_mdata_push_wf(self.mdata@, data);
                                }
                                self.mdata.push(data);
                                bump_accounts(&mut self.accounts, &dst);
                                Ok(())
                            }
                        },
                    }
                };
                Event::Response {
                    response: Response::PutMData { res, msg_id },
                    src: Authority::ClientManager(dst),
                }
            },
            Request::GetMDataVersion { name, tag } => {
                let res = match find_mdata(&self.mdata, &name, tag) {
                    Some(i) => {
                        proof {
                            lemma_mdata_at_index(self.mdata@, i as int);
                        }
                        Ok(self.mdata[i].version)
                    },
                    None => Err(ClientError::NoSuchData),
                };
                Event::Response {
                    response: Response::GetMDataVersion { res, msg_id },
                    src: Authority::NaeManager(name),
                }
            },
            Request::GetMDataShell { name, tag } => {
                let res = match find_mdata(&self.mdata, &name, tag) {
                    Some(i) => {
                        proof {
                            lemma_mdata_at_index(self.mdata@, i as int);
                        }
                        Ok(self.mdata[i].shell())
                    },
                    None => Err(ClientError::NoSuchData),
                };
                Event::Response {
                    response: Response::GetMDataShell { res, msg_id },
                    src: Authority::NaeManager(name),
                }
            },
            Request::ListMDataEntries { name, tag } => {
                let res = match find_mdata(&self.mdata, &name, tag) {
                    Some(i) => {
                        proof {
                            lemma_mdata_at_index(self.mdata@, i as int);
                        }
                        Ok(clone_entries(&self.mdata[i].entries))
                    },
                    None => Err(ClientError::NoSuchData),
                };
                Event::Response {
                    response: Response::ListMDataEntries { res, msg_id },
                    src: Authority::NaeManager(name),
                }
            },
            Request::GetMDataValue { name, tag, key } => {
                let res = match find_mdata(&self.mdata, &name, tag) {
                    Some(i) => {
                        proof {
                            lemma_mdata_at_index(self.mdata@, i as int);
                        }
                        match find_entry(&self.mdata[i].entries, &key) {
                            Some(j) => {
                                proof {
                                    lemma_entry_at_index(self.mdata@[i as int].entries@, j as int);
                                }
                                Ok(clone_value(&self.mdata[i].entries[j].value))
                            },
                            None => Err(ClientError::NoSuchEntry),
                        }
                    },
                    None => Err(ClientError::NoSuchData),
                };
                Event::Response {
                    response: Response::GetMDataValue { res, msg_id },
                    src: Authority::NaeManager(name),
                }
            },
            Request::MutateMDataEntries { name, tag, actions, requester } => {
                let res = match find_mdata(&self.mdata, &name, tag) {
                    Some(i) => {
                        let ghost pre_mdata = self.mdata@;
                        proof {
                            lemma_mdata_at_index(pre_mdata, i as int);
                        }
                        let mut d = blank_mdata();
                        self.mdata.set_and_swap(i, &mut d);
                        let r = d.mutate_entries(&actions, &requester);
                        let ghost d2 = d;
                        self.mdata.set_and_swap(i, &mut d);
                        proof {
                            assert(self.mdata@ =~= pre_mdata.update(i as int, d2));
                            lemma_mdata_update_wf(pre_mdata, i as int, d2);
                        }
                        if r.is_ok() {
                            bump_accounts(&mut self.accounts, &dst);
                        }
                        r
                    },
                    None => Err(ClientError::NoSuchData),
                };
                Event::Response {
                    response: Response::MutateMDataEntries { res, msg_id },
                    src: Authority::ClientManager(dst),
                }
            },
            Request::ListMDataPermissions { name, tag } => {
                let res = match find_mdata(&self.mdata, &name, tag) {
                    Some(i) => {
                        proof {
                            lemma_mdata_at_index(self.mdata@, i as int);
                        }
                        Ok(crate::mdata::clone_permissions(&self.mdata[i].permissions))
                    },
                    None => Err(ClientError::NoSuchData),
                };
                Event::Response {
                    response: Response::ListMDataPermissions { res, msg_id },
                    src: Authority::NaeManager(name),
                }
            },
            Request::ListMDataUserPermissions { name, tag, user } => {
                let res = match find_mdata(&self.mdata, &name, tag) {
                    Some(i) => {
                        proof {
                            lemma_mdata_at_index(self.mdata@, i as int);
                        }
                        match find_user(&self.mdata[i].permissions, user) {
                            Some(j) => {
                                proof {
                                    crate::data::lemma_user_at_index(
                                        self.mdata@[i as int].permissions@,
                                        j as int,
                                    );
                                }
                                Ok(self.mdata[i].permissions[j].permissions)
                            },
                            None => Err(ClientError::NoSuchKey),
                        }
                    },
                    None => Err(ClientError::NoSuchData),
                };
                Event::Response {
                    response: Response::ListMDataUserPermissions { res, msg_id },
                    src: Authority::NaeManager(name),
                }
            },
            Request::SetMDataUserPermissions { name, tag, user, permissions, version, requester } => {
                let res = match find_mdata(&self.mdata, &name, tag) {
                    Some(i) => {
                        let ghost pre_mdata = self.mdata@;
                        proof {
                            lemma_mdata_at_index(pre_mdata, i as int);
                        }
                        let mut d = blank_mdata();
                        self.mdata.set_and_swap(i, &mut d);
                        let r = d.set_user_permissions(user, &permissions, version, &requester);
                        let ghost d2 = d;
                        self.mdata.set_and_swap(i, &mut d);
                        proof {
                            assert(self.mdata@ =~= pre_mdata.update(i as int, d2));
                            lemma_mdata_update_wf(pre_mdata, i as int, d2);
                        }
                        if r.is_ok() {
                            bump_accounts(&mut self.accounts, &dst);
                        }
                        r
                    },
                    None => Err(ClientError::NoSuchData),
                };
                Event::Response {
                    response: Response::SetMDataUserPermissions { res, msg_id },
                    src: Authority::ClientManager(dst),
                }
            },
            Request::DelMDataUserPermissions { name, tag, user, version, requester } => {
                let res = match find_mdata(&self.mdata, &name, tag) {
                    Some(i) => {
                        let ghost pre_mdata = self.mdata@;
                        proof {
                            lemma_mdata_at_index(pre_mdata, i as int);
                        }
                        let mut d = blank_mdata();
                        self.mdata.set_and_swap(i, &mut d);
                        let r = d.del_user_permissions(user, version, &requester);
                        let ghost d2 = d;
                        self.mdata.set_and_swap(i, &mut d);
                        proof {
                            assert(self.mdata@ =~= pre_mdata.update(i as int, d2));
                            lemma_mdata_update_wf(pre_mdata, i as int, d2);
                        }
                        if r.is_ok() {
                            bump_accounts(&mut self.accounts, &dst);
                        }
                        r
                    },
                    None => Err(ClientError::NoSuchData),
                };
                Event::Response {
                    response: Response::DelMDataUserPermissions { res, msg_id },
                    src: Authority::ClientManager(dst),
                }
            },
            Request::ChangeMDataOwner { name, tag, new_owners, version } => {
                let res = match find_mdata(&self.mdata, &name, tag) {
                    Some(i) => {
                        let ghost pre_mdata = self.mdata@;
                        proof {
                            lemma_mdata_at_index(pre_mdata, i as int);
                        }
                        let mut d = blank_mdata();
                        self.mdata.set_and_swap(i, &mut d);
                        let r = d.change_owner(&new_owners, version);
                        let ghost d2 = d;
                        self.mdata.set_and_swap(i, &mut d);
                        proof {
                            assert(self.mdata@ =~= pre_mdata.update(i as int, d2));
                            lemma_mdata_update_wf(pre_mdata, i as int, d2);
                        }
                        if r.is_ok() {
                            bump_accounts(&mut self.accounts, &dst);
                        }
                        r
                    },
                    None => Err(ClientError::NoSuchData),
                };
                Event::Response {
                    response: Response::ChangeMDataOwner { res, msg_id },
                    src: Authority::ClientManager(dst),
                }
            },
            Request::GetAccountInfo => {
                let res = match find_account(&self.accounts, &dst) {
                    Some(i) => {
                        proof {
                            lemma_account_at_index(self.accounts@, i as int);
                        }
                        let done = self.accounts[i].mutations_done;
                        let available = if done <= ACCOUNT_MUTATION_LIMIT {
                            ACCOUNT_MUTATION_LIMIT - done
                        } else {
                            0
                        };
                        Ok(AccountInfo { mutations_done: done, mutations_available: available })
                    },
                    None => Err(ClientError::NoSuchAccount),
                };
                Event::Response {
                    response: Response::GetAccountInfo { res, msg_id },
                    src: Authority::ClientManager(dst),
                }
            },
            Request::ListAuthKeysAndVersion => {
                let res = match find_account(&self.accounts, &dst) {
                    Some(i) => {
                        proof {
                            lemma_account_at_index(self.accounts@, i as int);
                        }
                        let keys = crate::mdata::clone_owners(&self.accounts[i].auth_keys);
                        Ok((keys, self.accounts[i].keys_version))
                    },
                    None => Err(ClientError::NoSuchAccount),
                };
                Event::Response {
                    response: Response::ListAuthKeysAndVersion { res, msg_id },
                    src: Authority::ClientManager(dst),
                }
            },
            Request::InsAuthKey { key, version } => {
                let res = match find_account(&self.accounts, &dst) {
                    Some(i) => {
                        let ghost pre_accounts = self.accounts@;
                        proof {
                            lemma_account_at_index(pre_accounts, i as int);
                        }
                        let mut a = blank_account();
                        self.accounts.set_and_swap(i, &mut a);
                        let ghost a0 = a;
                        let r: Result<(), ClientError> = if a.keys_version == u64::MAX || version
                            != a.keys_version + 1 {
                            Err(ClientError::InvalidSuccessor)
                        } else {
                            match find_key(&a.auth_keys, &key) {
                                Some(_) => {},
                                None => {
                                    proof {
                                        lemma_keys_push(a0.auth_keys@, key);
                                    }
                                    a.auth_keys.push(key);
                                },
                            }
                            a.keys_version = version;
                            if a.mutations_done < u64::MAX {
                                a.mutations_done = a.mutations_done + 1;
                            }
                            Ok(())
                        };
                        let ghost a2 = a;
                        self.accounts.set_and_swap(i, &mut a);
                        proof {
                            assert(self.accounts@ =~= pre_accounts.update(i as int, a2));
                            lemma_accounts_update_wf(pre_accounts, i as int, a2);
                            if r is Err {
                                assert(self.accounts@ =~= pre_accounts);
                            }
                        }
                        r
                    },
                    None => Err(ClientError::NoSuchAccount),
                };
                Event::Response {
                    response: Response::InsAuthKey { res, msg_id },
                    src: Authority::ClientManager(dst),
                }
            },
            Request::DelAuthKey { key, version } => {
                let res = match find_account(&self.accounts, &dst) {
                    Some(i) => {
                        let ghost pre_accounts = self.accounts@;
                        proof {
                            lemma_account_at_index(pre_accounts, i as int);
                        }
                        let mut a = blank_account();
                        self.accounts.set_and_swap(i, &mut a);
                        let ghost a0 = a;
                        let r: Result<(), ClientError> = if a.keys_version == u64::MAX || version
                            != a.keys_version + 1 {
                            Err(ClientError::InvalidSuccessor)
                        } else {
                            match find_key(&a.auth_keys, &key) {
                                Some(j) => {
                                    proof {
                                        lemma_keys_remove(a0.auth_keys@, j as int);
                                    }
                                    let _removed = a.auth_keys.remove(j);
                                    a.keys_version = version;
                                    if a.mutations_done < u64::MAX {
                                        a.mutations_done = a.mutations_done + 1;
                                    }
                                    Ok(())
                                },
                                None => Err(ClientError::NoSuchKey),
                            }
                        };
                        let ghost a2 = a;
                        self.accounts.set_and_swap(i, &mut a);
                        proof {
                            assert(self.accounts@ =~= pre_accounts.update(i as int, a2));
                            lemma_accounts_update_wf(pre_accounts, i as int, a2);
                            if r is Err {
                                assert(self.accounts@ =~= pre_accounts);
                            }
                        }
                        r
                    },
                    None => Err(ClientError::NoSuchAccount),
                };
                Event::Response {
                    response: Response::DelAuthKey { res, msg_id },
                    src: Authority::ClientManager(dst),
                }
            },
        }
    }

    /// Queue one unit of work.
    pub fn send(&mut self, p: Pending)
        requires
            old(self).wf(),
            request_wf(p.request),
        ensures
            final(self).wf(),
            final(self).pending@ == old(self).pending@.push(p),
            final(self).events@ == old(self).events@,
            final(self).idata@ == old(self).idata@,
            final(self).mdata@ == old(self).mdata@,
            final(self).accounts@ == old(self).accounts@,
            final(self).min_section_size == old(self).min_section_size,
    {
        let ghost pre = self.pending@;
        self.pending.push(p);
        proof {
            assert forall|i: int| 0 <= i < self.pending@.len() implies request_wf(
                (#[trigger] self.pending@[i]).request,
            ) by {
                if i < pre.len() {
                    assert(request_wf(pre[i].request));
                } else {
                    assert(self.pending@[i] == p);
                }
            }
        }
    }

    /// Advance the simulation by one round: process the oldest queued unit
    /// of work, emit its event into the asking client's queue, and report
    /// whether any work was there to do.
    pub fn step(&mut self) -> (progress: bool)
        requires
            old(self).wf(),
        ensures
            final(self).wf(),
            final(self).min_section_size == old(self).min_section_size,
            progress == (old(self).pending@.len() > 0),
            !progress ==> *final(self) == *old(self),
            progress ==> {
                &&& final(self).pending@ == old(self).pending@.subrange(
                    1,
                    old(self).pending@.len() as int,
                )
                &&& final(self).events@.len() == old(self).events@.len() + 1
                &&& final(self).events@.subrange(0, old(self).events@.len() as int) == old(
                    self,
                ).events@
                &&& final(self).events@.last().0 == old(self).pending@[0].client
                &&& respond_post(
                    *old(self),
                    old(self).pending@[0],
                    *final(self),
                    final(self).events@.last().1,
                )
            },
    {
        if self.pending.len() == 0 {
            return false;
        }
        let ghost pre_pending = self.pending@;
        let ghost pre_events = self.events@;
        let p = self.pending.remove(0);
        let client = p.client;
        proof {
            assert(request_wf(pre_pending[0].request));
            assert forall|i: int| 0 <= i < self.pending@.len() implies request_wf(
                (#[trigger] self.pending@[i]).request,
            ) by {
                assert(self.pending@[i] == pre_pending[i + 1]);
                assert(request_wf(pre_pending[i + 1].request));
            }
        }
        let ev = self.respond(p);
        self.events.push((client, ev));
        proof {
            assert(self.events@.subrange(0, pre_events.len() as int) =~= pre_events);
        }
        true
    }

    /// Hand out the oldest event addressed to `client`, removing it from
    /// the queue; `None` when no event is queued for that client.
    pub fn take_event_for(&mut self, client: &Address) -> (r: Option<Event>)
        requires
            old(self).wf(),
        ensures
            final(self).wf(),
            final(self).pending@ == old(self).pending@,
            final(self).idata@ == old(self).idata@,
            final(self).mdata@ == old(self).mdata@,
            final(self).accounts@ == old(self).accounts@,
            final(self).min_section_size == old(self).min_section_size,
            match r {
                Some(ev) => exists|i: int|
                    0 <= i < old(self).events@.len() && (#[trigger] old(self).events@[i]).0
                        == *client && (forall|j: int|
                        0 <= j < i ==> old(self).events@[j].0 != *client) && ev == old(
                        self,
                    ).events@[i].1 && final(self).events@ == old(self).events@.remove(i),
                None => {
                    &&& final(self).events@ == old(self).events@
                    &&& forall|j: int|
                        0 <= j < old(self).events@.len() ==> (#[trigger] old(self).events@[j]).0
                            != *client
                },
            },
    {
        let mut i: usize = 0;
        while i < self.events.len()
            invariant
                i <= self.events@.len(),
                forall|j: int| 0 <= j < i ==> (#[trigger] self.events@[j]).0 != *client,
                self.events@ == old(self).events@,
                self.pending@ == old(self).pending@,
                self.idata@ == old(self).idata@,
                self.mdata@ == old(self).mdata@,
                self.accounts@ == old(self).accounts@,
                self.min_section_size == old(self).min_section_size,
                old(self).wf(),
                self.wf(),
            decreases self.events@.len() - i,
        {
            if self.events[i].0.0 == client.0 {
                let ghost wit = i as int;
                let pair = self.events.remove(i);
                proof {
                    assert(old(self).events@[wit].0 == *client);
                    assert(pair.1 == old(self).events@[wit].1);
                }
                return Some(pair.1);
            }
            i = i + 1;
        }
        None
    }

    /// Discard every queued event addressed to `client`: afterwards the
    /// queue holds exactly everyone else's events, in their old order.
    pub fn flush_events_for(&mut self, client: &Address)
        requires
            old(self).wf(),
        ensures
            final(self).wf(),
            final(self).pending@ == old(self).pending@,
            final(self).idata@ == old(self).idata@,
            final(self).mdata@ == old(self).mdata@,
            final(self).accounts@ == old(self).accounts@,
            final(self).min_section_size == old(self).min_section_size,
            final(self).events@ == old(self).events@.filter(event_not_for(*client)),
            forall|j: int|
                0 <= j < final(self).events@.len() ==> (#[trigger] final(self).events@[j]).0
                    != *client,
            final(self).events@.len() <= old(self).events@.len(),
    {
        let ghost f = event_not_for(*client);
        let mut kept: Vec<(Address, Event)> = Vec::new();
        proof {
            reveal(Seq::filter);
            assert(old(self).events@.subrange(0, 0).filter(f) == old(self).events@.subrange(
                0,
                0,
            ));
            assert(old(self).events@.subrange(0, 0) =~= kept@);
            assert(self.events@ =~= old(self).events@.subrange(
                0,
                old(self).events@.len() as int,
            ));
        }
        while self.events.len() > 0
            invariant
                self.wf(),
                self.pending@ == old(self).pending@,
                self.idata@ == old(self).idata@,
                self.mdata@ == old(self).mdata@,
                self.accounts@ == old(self).accounts@,
                self.min_section_size == old(self).min_section_size,
                self.events@.len() <= old(self).events@.len(),
                self.events@ == old(self).events@.subrange(
                    old(self).events@.len() - self.events@.len(),
                    old(self).events@.len() as int,
                ),
                kept@ == old(self).events@.subrange(
                    0,
                    old(self).events@.len() - self.events@.len(),
                ).filter(event_not_for(*client)),
            decreases self.events@.len(),
        {
            let ghost done = old(self).events@.len() - self.events@.len();
            let ghost s = old(self).events@.subrange(0, done);
            let ghost s2 = old(self).events@.subrange(0, done + 1);
            let e = self.events.remove(0);
            proof {
                assert(e == old(self).events@[done]);
                assert(self.events@ =~= old(self).events@.subrange(
                    done + 1,
                    old(self).events@.len() as int,
                ));
                assert(s2 =~= s.push(e));
                assert(s2.drop_last() =~= s);
                assert(s2.last() == e);
            }
            if e.0.0 != client.0 {
                proof {
                    reveal(Seq::filter);
                    assert(event_not_for(*client)(e));
                    assert(s2.filter(event_not_for(*client)) == s.filter(
                        event_not_for(*client),
                    ).push(e));
                }
                kept.push(e);
            } else {
                proof {
                    reveal(Seq::filter);
                    assert(!event_not_for(*client)(e));
                    assert(s2.filter(event_not_for(*client)) == s.filter(event_not_for(*client)));
                }
            }
        }
        proof {
            assert(old(self).events@.subrange(0, old(self).events@.len() as int) =~= old(
                self,
            ).events@);
            assert(kept@ == old(self).events@.filter(f));
            old(self).events@.lemma_filter_len(f);
            assert forall|j: int| 0 <= j < kept@.len() implies (#[trigger] kept@[j]).0
                != *client by {
                old(self).events@.lemma_filter_pred(f, j);
            }
        }
        self.events = kept;
    }
}

} // verus!
