//! The synchronous test client.
//!
//! The client wraps the asynchronous, round-based simulation into blocking
//! request/response calls: it queues a request under a fresh message
//! identifier, drives the simulation until no participant makes progress,
//! and then inspects the next observed event. Correlation is by message
//! identifier equality alone. Read-style requests drain stale events
//! first; write-style requests never do, since their own response is the
//! next expected event.

use vstd::prelude::*;
use crate::account::{
    account_login_entry_key, encode_account_packet, spec_encode_account_packet, spec_login_key,
    AccountPacket, AccountPacketView,
};
use crate::authority::{spec_client_name_from_key, Address, Authority, PublicKey, client_name_from_key};
use crate::data::{
    clone_bytes, ClientError, Entry, ImmutableData, PermissionSet, User, UserPermission, Value,
    MAX_IMMUTABLE_DATA_SIZE,
};
use crate::mdata::{batch_keys_distinct, ActionItem, MutableData};
use crate::network::{
    accounts_created, change_mdata_owner_post, event_not_for, has_idata, idata_at,
    del_auth_key_post, del_mdata_user_permissions_post,
    get_account_info_post, get_idata_post, get_mdata_shell_post, get_mdata_value_post,
    get_mdata_version_post, has_account, has_mdata, ins_auth_key_post,
    list_auth_keys_and_version_post, list_mdata_entries_post, list_mdata_permissions_post,
    list_mdata_user_permissions_post, mutate_mdata_entries_post, put_idata_post, put_mdata_post,
    request_wf, respond_post, set_mdata_user_permissions_post, store_unchanged, AccountInfo, Event,
    Pending, Request, Response, TestNode,
};
use crate::rng::TestRng;
use crate::TYPE_TAG_SESSION_PACKET;

verus! {

/// A client's full identity. Only the public part matters to the
/// simulation: requests are attributed and addressed by it.
#[derive(Clone, Copy, PartialEq, Eq, Structural, Debug)]
pub struct FullId {
    /// The identity's public signing key.
    pub key: PublicKey,
}

/// The message identifier a response carries.
pub open spec fn spec_response_msg_id(r: Response) -> u64 {
    match r {
        Response::PutIData { msg_id, .. } => msg_id,
        Response::GetIData { msg_id, .. } => msg_id,
        Response::PutMData { msg_id, .. } => msg_id,
        Response::GetMDataVersion { msg_id, .. } => msg_id,
        Response::GetMDataShell { msg_id, .. } => msg_id,
        Response::ListMDataEntries { msg_id, .. } => msg_id,
        Response::GetMDataValue { msg_id, .. } => msg_id,
        Response::MutateMDataEntries { msg_id, .. } => msg_id,
        Response::ListMDataPermissions { msg_id, .. } => msg_id,
        Response::ListMDataUserPermissions { msg_id, .. } => msg_id,
        Response::SetMDataUserPermissions { msg_id, .. } => msg_id,
        Response::DelMDataUserPermissions { msg_id, .. } => msg_id,
        Response::ChangeMDataOwner { msg_id, .. } => msg_id,
        Response::GetAccountInfo { msg_id, .. } => msg_id,
        Response::ListAuthKeysAndVersion { msg_id, .. } => msg_id,
        Response::InsAuthKey { msg_id, .. } => msg_id,
        Response::DelAuthKey { msg_id, .. } => msg_id,
    }
}

/// The message identifier a response carries.
pub fn response_msg_id(r: &Response) -> (m: u64)
    ensures
        m == spec_response_msg_id(*r),
{
    match r {
        Response::PutIData { msg_id, .. } => *msg_id,
        Response::GetIData { msg_id, .. } => *msg_id,
        Response::PutMData { msg_id, .. } => *msg_id,
        Response::GetMDataVersion { msg_id, .. } => *msg_id,
        Response::GetMDataShell { msg_id, .. } => *msg_id,
        Response::ListMDataEntries { msg_id, .. } => *msg_id,
        Response::GetMDataValue { msg_id, .. } => *msg_id,
        Response::MutateMDataEntries { msg_id, .. } => *msg_id,
        Response::ListMDataPermissions { msg_id, .. } => *msg_id,
        Response::ListMDataUserPermissions { msg_id, .. } => *msg_id,
        Response::SetMDataUserPermissions { msg_id, .. } => *msg_id,
        Response::DelMDataUserPermissions { msg_id, .. } => *msg_id,
        Response::ChangeMDataOwner { msg_id, .. } => *msg_id,
        Response::GetAccountInfo { msg_id, .. } => *msg_id,
        Response::ListAuthKeysAndVersion { msg_id, .. } => *msg_id,
        Response::InsAuthKey { msg_id, .. } => *msg_id,
        Response::DelAuthKey { msg_id, .. } => *msg_id,
    }
}

/// Whether an observed event correlates with the request sent under
/// `expected`: it must be a response and carry exactly that message
/// identifier. A response carrying a foreign identifier, or a bare
/// connection event, never correlates — observing one first is a harness
/// contract violation, fatal to the test.
pub fn correlates(expected: u64, ev: &Event) -> (r: bool)
    ensures
        r <==> match *ev {
            Event::Response { response, .. } => spec_response_msg_id(response) == expected,
            _ => false,
        },
{
    match ev {
        Event::Response { response, .. } => response_msg_id(response) == expected,
        _ => false,
    }
}

/// A store-or-fail outcome for a session-packet record can fail with
/// data-exists only when some session-packet record already stands in the
/// store: the reserved tag makes any colliding identity a session packet.
proof fn lemma_session_record_witness(
    pre: TestNode,
    d: MutableData,
    r: Result<(), ClientError>,
)
    requires
        d.tag == TYPE_TAG_SESSION_PACKET,
        r == Result::<(), ClientError>::Err(ClientError::DataExists) ==> has_mdata(
            pre.mdata@,
            d.name,
            d.tag,
        ),
    ensures
        r == Result::<(), ClientError>::Err(ClientError::DataExists) ==> exists|j: int|
            0 <= j < pre.mdata@.len() && (#[trigger] pre.mdata@[j]).tag
                == TYPE_TAG_SESSION_PACKET,
{
    if r == Result::<(), ClientError>::Err(ClientError::DataExists) {
        let j = choose|j: int|
            0 <= j < pre.mdata@.len() && pre.mdata@[j].name == d.name && pre.mdata@[j].tag
                == d.tag;
        assert(0 <= j < pre.mdata@.len() && pre.mdata@[j].tag == TYPE_TAG_SESSION_PACKET);
    }
}

/// Client for use against the simulated network.
pub struct TestClient {
    /// The client's identity.
    pub full_id: FullId,
    /// Where the client's mutation requests are addressed: by default its
    /// own manager group, rebindable to act on another account's behalf.
    pub client_manager: Authority,
    /// The next fresh message identifier.
    pub next_msg_id: u64,
    /// Whether the connection handshake has been observed.
    pub connected: bool,
    /// The client's own random stream.
    pub rng: TestRng,
}

impl TestClient {
    /// The client's own network name, derived from its key.
    pub open spec fn spec_name(&self) -> Address {
        spec_client_name_from_key(self.full_id.key)
    }

    /// The address the client's mutation requests are sent to.
    pub open spec fn manager_name(&self) -> Address {
        self.client_manager.spec_name()
    }

    /// Identity, manager binding and connection state all unchanged.
    pub open spec fn same_identity(&self, other: &TestClient) -> bool {
        &&& self.full_id == other.full_id
        &&& self.client_manager == other.client_manager
        &&& self.connected == other.connected
    }

    /// No queued event is addressed to this client.
    pub open spec fn no_events_for(&self, node: &TestNode) -> bool {
        forall|i: int| 0 <= i < node.events@.len() ==> (#[trigger] node.events@[i]).0 != self.spec_name()
    }

    /// A client with a fresh random identity and its own random stream.
    pub fn new(rng: &mut TestRng) -> (c: TestClient)
        ensures
            c.client_manager == Authority::ClientManager(c.spec_name()),
            c.next_msg_id == 0,
            !c.connected,
    {
        let key = PublicKey(rng.gen_u64());
        let own_rng = TestRng::new(rng.gen_u64());
        Self::with_id(FullId { key }, own_rng)
    }

    /// A client with the given identity, managed by its own manager group
    /// until rebound.
    pub fn with_id(full_id: FullId, rng: TestRng) -> (c: TestClient)
        ensures
            c.full_id == full_id,
            c.client_manager == Authority::ClientManager(spec_client_name_from_key(full_id.key)),
            c.next_msg_id == 0,
            !c.connected,
    {
        let manager = client_name_from_key(&full_id.key);
        TestClient {
            full_id,
            client_manager: Authority::ClientManager(manager),
            next_msg_id: 0,
            connected: false,
            rng,
        }
    }

    /// Rebind the manager group this client addresses its mutations to —
    /// a purely local addressing change.
    pub fn set_client_manager(&mut self, name: Address)
        ensures
            final(self).client_manager == Authority::ClientManager(name),
            final(self).full_id == old(self).full_id,
            final(self).next_msg_id == old(self).next_msg_id,
            final(self).connected == old(self).connected,
    {
        self.client_manager = Authority::ClientManager(name);
    }

    /// The client's full identity.
    pub fn full_id(&self) -> (r: &FullId)
        ensures
            *r == self.full_id,
    {
        &self.full_id
    }

    /// The client's public signing key.
    pub fn signing_public_key(&self) -> (k: &PublicKey)
        ensures
            *k == self.full_id.key,
    {
        &self.full_id.key
    }

    /// The client's own network name.
    pub fn name(&self) -> (n: Address)
        ensures
            n == self.spec_name(),
    {
        client_name_from_key(&self.full_id.key)
    }

    /// The next event addressed to this client, if any.
    pub fn try_recv(&mut self, node: &mut TestNode) -> (r: Option<Event>)
        requires
            old(node).wf(),
        ensures
            final(self).same_identity(old(self)),
            final(self).next_msg_id == old(self).next_msg_id,
            final(node).wf(),
            final(node).pending@ == old(node).pending@,
            store_unchanged(*old(node), *final(node)),
            match r {
                Some(ev) => exists|i: int|
                    0 <= i < old(node).events@.len() && (#[trigger] old(node).events@[i]).0 == old(
                        self,
                    ).spec_name() && (forall|j: int|
                        0 <= j < i ==> old(node).events@[j].0 != old(self).spec_name()) && ev
                        == old(node).events@[i].1 && final(node).events@ == old(
                        node,
                    ).events@.remove(i),
                None => {
                    &&& final(node).events@ == old(node).events@
                    &&& old(self).no_events_for(old(node))
                },
            },
    {
        let me = self.name();
        node.take_event_for(&me)
    }

    /// Advance the simulation by one round.
    pub fn poll_once(&mut self, node: &mut TestNode) -> (progress: bool)
        requires
            old(node).wf(),
        ensures
            final(self).same_identity(old(self)),
            final(self).next_msg_id == old(self).next_msg_id,
            final(node).wf(),
            progress == (old(node).pending@.len() > 0),
            !progress ==> *final(node) == *old(node),
    {
        node.step()
    }

    /// Advance the simulation until no participant makes progress; the
    /// returned count says how many rounds did work. Every queued request
    /// is answered into its client's event queue.
    pub fn poll(&mut self, node: &mut TestNode) -> (rounds: usize)
        requires
            old(node).wf(),
            old(node).pending@.len() < usize::MAX,
        ensures
            final(self).same_identity(old(self)),
            final(self).next_msg_id == old(self).next_msg_id,
            final(node).wf(),
            final(node).pending@.len() == 0,
            rounds == old(node).pending@.len(),
            final(node).events@.len() == old(node).events@.len() + old(node).pending@.len(),
            final(node).events@.subrange(0, old(node).events@.len() as int) == old(node).events@,
            forall|k: int|
                0 <= k < old(node).pending@.len() ==> (#[trigger] final(node).events@[old(
                    node,
                ).events@.len() + k]).0 == old(node).pending@[k].client,
    {
        let mut rounds: usize = 0;
        let mut progress = node.step();
        proof {
            if old(node).pending@.len() > 0 {
                assert(node.events@.subrange(0, old(node).events@.len() as int) =~= old(
                    node,
                ).events@);
            }
            assert(node.pending@ =~= old(node).pending@.subrange(
                old(node).pending@.len() - node.pending@.len(),
                old(node).pending@.len() as int,
            ));
        }
        while progress
            invariant
                node.wf(),
                old(node).pending@.len() < usize::MAX,
                rounds + (if progress { 1int } else { 0int }) <= old(node).pending@.len(),
                node.pending@.len() == old(node).pending@.len() - rounds - (if progress {
                    1int
                } else {
                    0int
                }),
                node.events@.len() == old(node).events@.len() + rounds + (if progress {
                    1int
                } else {
                    0int
                }),
                !progress ==> node.pending@.len() == 0,
                node.events@.subrange(0, old(node).events@.len() as int) == old(node).events@,
                node.pending@ == old(node).pending@.subrange(
                    old(node).pending@.len() - node.pending@.len(),
                    old(node).pending@.len() as int,
                ),
                forall|k: int|
                    0 <= k < rounds + (if progress { 1int } else { 0int })
                        ==> (#[trigger] node.events@[old(node).events@.len() + k]).0 == old(
                        node,
                    ).pending@[k].client,
            decreases node.pending@.len() + (if progress { 1int } else { 0int }),
        {
            rounds = rounds + 1;
            let ghost pre_pending = node.pending@;
            let ghost pre_events = node.events@;
            progress = node.step();
            proof {
                assert(node.events@.subrange(0, old(node).events@.len() as int) =~= old(
                    node,
                ).events@);
                if pre_pending.len() > 0 {
                    assert(node.pending@ =~= old(node).pending@.subrange(
                        old(node).pending@.len() - node.pending@.len(),
                        old(node).pending@.len() as int,
                    ));
                    assert(pre_pending[0] == old(node).pending@[old(node).pending@.len()
                        - pre_pending.len()]);
                }
                let e0 = old(node).events@.len() as int;
                assert forall|k: int|
                    0 <= k < rounds + (if progress {
                        1int
                    } else {
                        0int
                    }) implies (#[trigger] node.events@[e0 + k]).0 == old(
                    node,
                ).pending@[k].client by {
                    if k < rounds {
                        assert(node.events@.subrange(0, pre_events.len() as int) == pre_events);
                        assert(node.events@[e0 + k] == node.events@.subrange(
                            0,
                            pre_events.len() as int,
                        )[e0 + k]);
                        assert(pre_events[e0 + k].0 == old(node).pending@[k].client);
                    } else {
                        assert(node.events@[e0 + k] == node.events@.last());
                        assert(node.events@.last().0 == pre_pending[0].client);
                    }
                }
            }
        }
        rounds
    }

    /// Drain this client's queued events, discarding them without
    /// interpretation.
    fn flush(&mut self, node: &mut TestNode)
        requires
            old(node).wf(),
        ensures
            final(self).same_identity(old(self)),
            final(self).next_msg_id == old(self).next_msg_id,
            final(node).wf(),
            final(node).pending@ == old(node).pending@,
            store_unchanged(*old(node), *final(node)),
            final(node).events@ == old(node).events@.filter(
                event_not_for(old(self).spec_name()),
            ),
            final(self).no_events_for(final(node)),
            final(node).events@.len() <= old(node).events@.len(),
            final(node).min_section_size == old(node).min_section_size,
    {
        let me = self.name();
        node.flush_events_for(&me);
    }

    /// Queue one request under the given message identifier, drive the
    /// simulation to quiescence, and hand back the one event the request
    /// was answered with.
    fn run_request(&self, node: &mut TestNode, dst: Authority, msg_id: u64, req: Request) -> (ev:
        Event)
        requires
            old(node).wf(),
            request_wf(req),
            old(node).pending@.len() == 0,
            forall|i: int|
                0 <= i < old(node).events@.len() ==> (#[trigger] old(node).events@[i]).0
                    != self.spec_name(),
        ensures
            final(node).wf(),
            final(node).pending@.len() == 0,
            final(node).events@ == old(node).events@,
            final(node).min_section_size == old(node).min_section_size,
            respond_post(
                *old(node),
                (Pending { client: self.spec_name(), dst, msg_id, request: req }),
                *final(node),
                ev,
            ),
    {
        let me = self.name();
        let ghost p = (Pending { client: self.spec_name(), dst, msg_id, request: req });
        node.send(Pending { client: me, dst, msg_id, request: req });
        let ghost n0 = *node;
        let mut progress = node.step();
        proof {
            assert(n0.pending@[0] == p);
            assert(node.events@.last() == (me, node.events@.last().1));
        }
        while progress
            invariant
                node.wf(),
                node.pending@.len() == 0,
                node.events@.len() == old(node).events@.len() + 1,
                node.events@.subrange(0, old(node).events@.len() as int) == old(node).events@,
                node.events@.last().0 == self.spec_name(),
                node.min_section_size == old(node).min_section_size,
                respond_post(*old(node), p, *node, node.events@.last().1),
            decreases (if progress { 1int } else { 0int }),
        {
            progress = node.step();
        }
        let ghost evs = node.events@;
        match node.take_event_for(&me) {
            Some(ev) => {
                proof {
                    let i = choose|i: int|
                        0 <= i < evs.len() && (#[trigger] evs[i]).0 == self.spec_name() && (forall|
                            j: int,
                        |
                            0 <= j < i ==> evs[j].0 != self.spec_name()) && ev == evs[i].1
                            && node.events@ == evs.remove(i);
                    if i < old(node).events@.len() {
                        assert(evs[i] == old(node).events@[i]);
                        assert(false);
                    }
                    assert(i == old(node).events@.len());
                    assert(ev == evs.last().1);
                    assert(node.events@ =~= old(node).events@);
                }
                ev
            },
            None => {
                proof {
                    assert(evs.last().0 == self.spec_name());
                    assert(false);
                }
                Event::Terminate
            },
        }
    }

    /// Store an immutable blob and wait for the typed outcome. The blob
    /// must fit the size cap; an oversized one is a caller error here (see
    /// `put_large_sized_idata`).
    pub fn put_idata_response(&mut self, data: ImmutableData, node: &mut TestNode) -> (r: Result<(), ClientError>)
        requires
            old(self).connected,
            old(self).next_msg_id < u64::MAX,
            old(node).wf(),
            old(node).pending@.len() == 0,
            old(self).no_events_for(old(node)),
            data@.len() <= MAX_IMMUTABLE_DATA_SIZE,
        ensures
            final(self).same_identity(old(self)),
            final(self).next_msg_id == old(self).next_msg_id + 1,
            final(node).wf(),
            final(node).pending@.len() == 0,
            final(node).events@ == old(node).events@,
            put_idata_post(*old(node), data, old(self).manager_name(), *final(node), r),
    {
        let dst = self.client_manager;
        let msg_id = self.next_msg_id;
        self.next_msg_id = msg_id + 1;
        let ev = self.run_request(node, dst, msg_id, Request::PutIData { data });
        match ev {
            Event::Response { response: Response::PutIData { res, msg_id: m }, src: _ } => {
                if m != msg_id {
                    proof {
                        assert(false);
                    }
                    return Err(ClientError::NoResponse);
                }
                res
            },
            _ => {
                proof {
                    assert(false);
                }
                Err(ClientError::NoResponse)
            },
        }
    }

    /// Store an immutable blob and try to read the outcome. In this
    /// deterministic simulation every fitting request is answered, so the
    /// outcome is the same as `put_idata_response`'s.
    pub fn put_idata_may_response(&mut self, data: ImmutableData, node: &mut TestNode) -> (r: Result<(), ClientError>)
        requires
            old(self).connected,
            old(self).next_msg_id < u64::MAX,
            old(node).wf(),
            old(node).pending@.len() == 0,
            old(self).no_events_for(old(node)),
            data@.len() <= MAX_IMMUTABLE_DATA_SIZE,
        ensures
            final(self).same_identity(old(self)),
            final(self).next_msg_id == old(self).next_msg_id + 1,
            final(node).wf(),
            final(node).pending@.len() == 0,
            final(node).events@ == old(node).events@,
            put_idata_post(*old(node), data, old(self).manager_name(), *final(node), r),
    {
        let dst = self.client_manager;
        let msg_id = self.next_msg_id;
        self.next_msg_id = msg_id + 1;
        let ev = self.run_request(node, dst, msg_id, Request::PutIData { data });
        match ev {
            Event::Response { response: Response::PutIData { res, msg_id: m }, src: _ } => {
                if m != msg_id {
                    proof {
                        assert(false);
                    }
                    return Err(ClientError::NoResponse);
                }
                res
            },
            _ => {
                proof {
                    assert(false);
                }
                Err(ClientError::NoResponse)
            },
        }
    }

    /// Store a mutable record and wait for the typed outcome.
    pub fn put_mdata_response(&mut self, data: MutableData, node: &mut TestNode) -> (r: Result<(), ClientError>)
        requires
            old(self).connected,
            old(self).next_msg_id < u64::MAX,
            old(node).wf(),
            old(node).pending@.len() == 0,
            old(self).no_events_for(old(node)),
            data.wf(),
        ensures
            final(self).same_identity(old(self)),
            final(self).next_msg_id == old(self).next_msg_id + 1,
            final(node).wf(),
            final(node).pending@.len() == 0,
            final(node).events@ == old(node).events@,
            put_mdata_post(*old(node), data, old(self).full_id.key, old(self).manager_name(), *final(node), r),
    {
        let dst = self.client_manager;
        let requester = self.full_id.key;
        let msg_id = self.next_msg_id;
        self.next_msg_id = msg_id + 1;
        let ev = self.run_request(node, dst, msg_id, Request::PutMData { data, requester });
        match ev {
            Event::Response { response: Response::PutMData { res, msg_id: m }, src: _ } => {
                if m != msg_id {
                    proof {
                        assert(false);
                    }
                    return Err(ClientError::NoResponse);
                }
                res
            },
            _ => {
                proof {
                    assert(false);
                }
                Err(ClientError::NoResponse)
            },
        }
    }

    /// Read a record's shell version and wait for the typed outcome.
    pub fn get_mdata_version_response(&mut self, name: Address, tag: u64, node: &mut TestNode) -> (r: Result<u64, ClientError>)
        requires
            old(self).connected,
            old(self).next_msg_id < u64::MAX,
            old(node).wf(),
            old(node).pending@.len() == 0,
        ensures
            final(self).same_identity(old(self)),
            final(self).next_msg_id == old(self).next_msg_id + 1,
            final(node).wf(),
            final(node).pending@.len() == 0,
            final(node).events@ == old(node).events@.filter(
                event_not_for(old(self).spec_name()),
            ),
            final(self).no_events_for(final(node)),
            final(node).events@.len() <= old(node).events@.len(),
            get_mdata_version_post(*old(node), name, tag, *final(node), r),
    {
        self.flush(node);
        let dst = Authority::NaeManager(name);
        let msg_id = self.next_msg_id;
        self.next_msg_id = msg_id + 1;
        let ev = self.run_request(node, dst, msg_id, Request::GetMDataVersion { name, tag });
        match ev {
            Event::Response { response: Response::GetMDataVersion { res, msg_id: m }, src: _ } => {
                if m != msg_id {
                    proof {
                        assert(false);
                    }
                    return Err(ClientError::NoResponse);
                }
                res
            },
            _ => {
                proof {
                    assert(false);
                }
                Err(ClientError::NoResponse)
            },
        }
    }

    /// Read a record without its entries and wait for the typed outcome.
    pub fn get_mdata_shell_response(&mut self, name: Address, tag: u64, node: &mut TestNode) -> (r: Result<MutableData, ClientError>)
        requires
            old(self).connected,
            old(self).next_msg_id < u64::MAX,
            old(node).wf(),
            old(node).pending@.len() == 0,
        ensures
            final(self).same_identity(old(self)),
            final(self).next_msg_id == old(self).next_msg_id + 1,
            final(node).wf(),
            final(node).pending@.len() == 0,
            final(node).events@ == old(node).events@.filter(
                event_not_for(old(self).spec_name()),
            ),
            final(self).no_events_for(final(node)),
            final(node).events@.len() <= old(node).events@.len(),
            get_mdata_shell_post(*old(node), name, tag, *final(node), r),
    {
        self.flush(node);
        let dst = Authority::NaeManager(name);
        let msg_id = self.next_msg_id;
        self.next_msg_id = msg_id + 1;
        let ev = self.run_request(node, dst, msg_id, Request::GetMDataShell { name, tag });
        match ev {
            Event::Response { response: Response::GetMDataShell { res, msg_id: m }, src: _ } => {
                if m != msg_id {
                    proof {
                        assert(false);
                    }
                    return Err(ClientError::NoResponse);
                }
                res
            },
            _ => {
                proof {
                    assert(false);
                }
                Err(ClientError::NoResponse)
            },
        }
    }

    /// List a record's entries and wait for the typed outcome.
    pub fn list_mdata_entries_response(&mut self, name: Address, tag: u64, node: &mut TestNode) -> (r: Result<Vec<Entry>, ClientError>)
        requires
            old(self).connected,
            old(self).next_msg_id < u64::MAX,
            old(node).wf(),
            old(node).pending@.len() == 0,
        ensures
            final(self).same_identity(old(self)),
            final(self).next_msg_id == old(self).next_msg_id + 1,
            final(node).wf(),
            final(node).pending@.len() == 0,
            final(node).events@ == old(node).events@.filter(
                event_not_for(old(self).spec_name()),
            ),
            final(self).no_events_for(final(node)),
            final(node).events@.len() <= old(node).events@.len(),
            list_mdata_entries_post(*old(node), name, tag, *final(node), r),
    {
        self.flush(node);
        let dst = Authority::NaeManager(name);
        let msg_id = self.next_msg_id;
        self.next_msg_id = msg_id + 1;
        let ev = self.run_request(node, dst, msg_id, Request::ListMDataEntries { name, tag });
        match ev {
            Event::Response { response: Response::ListMDataEntries { res, msg_id: m }, src: _ } => {
                if m != msg_id {
                    proof {
                        assert(false);
                    }
                    return Err(ClientError::NoResponse);
                }
                res
            },
            _ => {
                proof {
                    assert(false);
                }
                Err(ClientError::NoResponse)
            },
        }
    }

    /// Read one entry of a record and wait for the typed outcome.
    pub fn get_mdata_value_response(&mut self, name: Address, tag: u64, key: Vec<u8>, node: &mut TestNode) -> (r: Result<Value, ClientError>)
        requires
            old(self).connected,
            old(self).next_msg_id < u64::MAX,
            old(node).wf(),
            old(node).pending@.len() == 0,
        ensures
            final(self).same_identity(old(self)),
            final(self).next_msg_id == old(self).next_msg_id + 1,
            final(node).wf(),
            final(node).pending@.len() == 0,
            final(node).events@ == old(node).events@.filter(
                event_not_for(old(self).spec_name()),
            ),
            final(self).no_events_for(final(node)),
            final(node).events@.len() <= old(node).events@.len(),
            get_mdata_value_post(*old(node), name, tag, key@, *final(node), r),
    {
        self.flush(node);
        let dst = Authority::NaeManager(name);
        let msg_id = self.next_msg_id;
        self.next_msg_id = msg_id + 1;
        let ev = self.run_request(node, dst, msg_id, Request::GetMDataValue { name, tag, key });
        match ev {
            Event::Response { response: Response::GetMDataValue { res, msg_id: m }, src: _ } => {
                if m != msg_id {
                    proof {
                        assert(false);
                    }
                    return Err(ClientError::NoResponse);
                }
                res
            },
            _ => {
                proof {
                    assert(false);
                }
                Err(ClientError::NoResponse)
            },
        }
    }

    /// Apply an action batch to a record and wait for the typed outcome.
    pub fn mutate_mdata_entries_response(&mut self, name: Address, tag: u64, actions: Vec<ActionItem>, node: &mut TestNode) -> (r: Result<(), ClientError>)
        requires
            old(self).connected,
            old(self).next_msg_id < u64::MAX,
            old(node).wf(),
            old(node).pending@.len() == 0,
            old(self).no_events_for(old(node)),
            batch_keys_distinct(actions@),
        ensures
            final(self).same_identity(old(self)),
            final(self).next_msg_id == old(self).next_msg_id + 1,
            final(node).wf(),
            final(node).pending@.len() == 0,
            final(node).events@ == old(node).events@,
            mutate_mdata_entries_post(*old(node), name, tag, actions@, old(self).full_id.key, old(self).manager_name(), *final(node), r),
    {
        let dst = self.client_manager;
        let requester = self.full_id.key;
        let msg_id = self.next_msg_id;
        self.next_msg_id = msg_id + 1;
        let ev = self.run_request(node, dst, msg_id, Request::MutateMDataEntries { name, tag, actions, requester });
        match ev {
            Event::Response { response: Response::MutateMDataEntries { res, msg_id: m }, src: _ } => {
                if m != msg_id {
                    proof {
                        assert(false);
                    }
                    return Err(ClientError::NoResponse);
                }
                res
            },
            _ => {
                proof {
                    assert(false);
                }
                Err(ClientError::NoResponse)
            },
        }
    }

    /// List a record's permission rules and wait for the typed outcome.
    pub fn list_mdata_permissions_response(&mut self, name: Address, tag: u64, node: &mut TestNode) -> (r: Result<Vec<UserPermission>, ClientError>)
        requires
            old(self).connected,
            old(self).next_msg_id < u64::MAX,
            old(node).wf(),
            old(node).pending@.len() == 0,
        ensures
            final(self).same_identity(old(self)),
            final(self).next_msg_id == old(self).next_msg_id + 1,
            final(node).wf(),
            final(node).pending@.len() == 0,
            final(node).events@ == old(node).events@.filter(
                event_not_for(old(self).spec_name()),
            ),
            final(self).no_events_for(final(node)),
            final(node).events@.len() <= old(node).events@.len(),
            list_mdata_permissions_post(*old(node), name, tag, *final(node), r),
    {
        self.flush(node);
        let dst = Authority::NaeManager(name);
        let msg_id = self.next_msg_id;
        self.next_msg_id = msg_id + 1;
        let ev = self.run_request(node, dst, msg_id, Request::ListMDataPermissions { name, tag });
        match ev {
            Event::Response { response: Response::ListMDataPermissions { res, msg_id: m }, src: _ } => {
                if m != msg_id {
                    proof {
                        assert(false);
                    }
                    return Err(ClientError::NoResponse);
                }
                res
            },
            _ => {
                proof {
                    assert(false);
                }
                Err(ClientError::NoResponse)
            },
        }
    }

    /// List one user's permission rules and wait for the typed outcome.
    pub fn list_mdata_user_permissions_response(&mut self, name: Address, tag: u64, user: User, node: &mut TestNode) -> (r: Result<PermissionSet, ClientError>)
        requires
            old(self).connected,
            old(self).next_msg_id < u64::MAX,
            old(node).wf(),
            old(node).pending@.len() == 0,
        ensures
            final(self).same_identity(old(self)),
            final(self).next_msg_id == old(self).next_msg_id + 1,
            final(node).wf(),
            final(node).pending@.len() == 0,
            final(node).events@ == old(node).events@.filter(
                event_not_for(old(self).spec_name()),
            ),
            final(self).no_events_for(final(node)),
            final(node).events@.len() <= old(node).events@.len(),
            list_mdata_user_permissions_post(*old(node), name, tag, user, *final(node), r),
    {
        self.flush(node);
        let dst = Authority::NaeManager(name);
        let msg_id = self.next_msg_id;
        self.next_msg_id = msg_id + 1;
        let ev = self.run_request(node, dst, msg_id, Request::ListMDataUserPermissions { name, tag, user });
        match ev {
            Event::Response { response: Response::ListMDataUserPermissions { res, msg_id: m }, src: _ } => {
                if m != msg_id {
                    proof {
                        assert(false);
                    }
                    return Err(ClientError::NoResponse);
                }
                res
            },
            _ => {
                proof {
                    assert(false);
                }
                Err(ClientError::NoResponse)
            },
        }
    }

    /// Set one user's permission rules and wait for the typed outcome.
    pub fn set_mdata_user_permissions_response(&mut self, name: Address, tag: u64, user: User, permissions: PermissionSet, version: u64, node: &mut TestNode) -> (r: Result<(), ClientError>)
        requires
            old(self).connected,
            old(self).next_msg_id < u64::MAX,
            old(node).wf(),
            old(node).pending@.len() == 0,
            old(self).no_events_for(old(node)),
        ensures
            final(self).same_identity(old(self)),
            final(self).next_msg_id == old(self).next_msg_id + 1,
            final(node).wf(),
            final(node).pending@.len() == 0,
            final(node).events@ == old(node).events@,
            set_mdata_user_permissions_post(*old(node), name, tag, user, permissions, version, old(self).full_id.key, old(self).manager_name(), *final(node), r),
    {
        let dst = self.client_manager;
        let requester = self.full_id.key;
        let msg_id = self.next_msg_id;
        self.next_msg_id = msg_id + 1;
        let ev = self.run_request(node, dst, msg_id, Request::SetMDataUserPermissions { name, tag, user, permissions, version, requester });
        match ev {
            Event::Response { response: Response::SetMDataUserPermissions { res, msg_id: m }, src: _ } => {
                if m != msg_id {
                    proof {
                        assert(false);
                    }
                    return Err(ClientError::NoResponse);
                }
                res
            },
            _ => {
                proof {
                    assert(false);
                }
                Err(ClientError::NoResponse)
            },
        }
    }

    /// Remove one user's permission rules and wait for the typed outcome.
    pub fn del_mdata_user_permissions_response(&mut self, name: Address, tag: u64, user: User, version: u64, node: &mut TestNode) -> (r: Result<(), ClientError>)
        requires
            old(self).connected,
            old(self).next_msg_id < u64::MAX,
            old(node).wf(),
            old(node).pending@.len() == 0,
            old(self).no_events_for(old(node)),
        ensures
            final(self).same_identity(old(self)),
            final(self).next_msg_id == old(self).next_msg_id + 1,
            final(node).wf(),
            final(node).pending@.len() == 0,
            final(node).events@ == old(node).events@,
            del_mdata_user_permissions_post(*old(node), name, tag, user, version, old(self).full_id.key, old(self).manager_name(), *final(node), r),
    {
        let dst = self.client_manager;
        let requester = self.full_id.key;
        let msg_id = self.next_msg_id;
        self.next_msg_id = msg_id + 1;
        let ev = self.run_request(node, dst, msg_id, Request::DelMDataUserPermissions { name, tag, user, version, requester });
        match ev {
            Event::Response { response: Response::DelMDataUserPermissions { res, msg_id: m }, src: _ } => {
                if m != msg_id {
                    proof {
                        assert(false);
                    }
                    return Err(ClientError::NoResponse);
                }
                res
            },
            _ => {
                proof {
                    assert(false);
                }
                Err(ClientError::NoResponse)
            },
        }
    }

    /// Replace a record's owner set and wait for the typed outcome.
    pub fn change_mdata_owner_response(&mut self, name: Address, tag: u64, new_owners: Vec<PublicKey>, version: u64, node: &mut TestNode) -> (r: Result<(), ClientError>)
        requires
            old(self).connected,
            old(self).next_msg_id < u64::MAX,
            old(node).wf(),
            old(node).pending@.len() == 0,
            old(self).no_events_for(old(node)),
        ensures
            final(self).same_identity(old(self)),
            final(self).next_msg_id == old(self).next_msg_id + 1,
            final(node).wf(),
            final(node).pending@.len() == 0,
            final(node).events@ == old(node).events@,
            change_mdata_owner_post(*old(node), name, tag, new_owners@, version, old(self).manager_name(), *final(node), r),
    {
        let dst = self.client_manager;
        let msg_id = self.next_msg_id;
        self.next_msg_id = msg_id + 1;
        let ev = self.run_request(node, dst, msg_id, Request::ChangeMDataOwner { name, tag, new_owners, version });
        match ev {
            Event::Response { response: Response::ChangeMDataOwner { res, msg_id: m }, src: _ } => {
                if m != msg_id {
                    proof {
                        assert(false);
                    }
                    return Err(ClientError::NoResponse);
                }
                res
            },
            _ => {
                proof {
                    assert(false);
                }
                Err(ClientError::NoResponse)
            },
        }
    }

    /// Read the account's mutation counters and wait for the typed
    /// outcome.
    pub fn get_account_info_response(&mut self, node: &mut TestNode) -> (r: Result<AccountInfo, ClientError>)
        requires
            old(self).connected,
            old(self).next_msg_id < u64::MAX,
            old(node).wf(),
            old(node).pending@.len() == 0,
        ensures
            final(self).same_identity(old(self)),
            final(self).next_msg_id == old(self).next_msg_id + 1,
            final(node).wf(),
            final(node).pending@.len() == 0,
            final(node).events@ == old(node).events@.filter(
                event_not_for(old(self).spec_name()),
            ),
            final(self).no_events_for(final(node)),
            final(node).events@.len() <= old(node).events@.len(),
            get_account_info_post(*old(node), old(self).manager_name(), *final(node), r),
    {
        self.flush(node);
        let dst = self.client_manager;
        let msg_id = self.next_msg_id;
        self.next_msg_id = msg_id + 1;
        let ev = self.run_request(node, dst, msg_id, Request::GetAccountInfo);
        match ev {
            Event::Response { response: Response::GetAccountInfo { res, msg_id: m }, src: _ } => {
                if m != msg_id {
                    proof {
                        assert(false);
                    }
                    return Err(ClientError::NoResponse);
                }
                res
            },
            _ => {
                proof {
                    assert(false);
                }
                Err(ClientError::NoResponse)
            },
        }
    }

    /// List the account's authorised keys and their version, waiting for
    /// the typed outcome.
    pub fn list_auth_keys_and_version_response(&mut self, node: &mut TestNode) -> (r: Result<(Vec<PublicKey>, u64), ClientError>)
        requires
            old(self).connected,
            old(self).next_msg_id < u64::MAX,
            old(node).wf(),
            old(node).pending@.len() == 0,
        ensures
            final(self).same_identity(old(self)),
            final(self).next_msg_id == old(self).next_msg_id + 1,
            final(node).wf(),
            final(node).pending@.len() == 0,
            final(node).events@ == old(node).events@.filter(
                event_not_for(old(self).spec_name()),
            ),
            final(self).no_events_for(final(node)),
            final(node).events@.len() <= old(node).events@.len(),
            list_auth_keys_and_version_post(*old(node), old(self).manager_name(), *final(node), r),
    {
        self.flush(node);
        let dst = self.client_manager;
        let msg_id = self.next_msg_id;
        self.next_msg_id = msg_id + 1;
        let ev = self.run_request(node, dst, msg_id, Request::ListAuthKeysAndVersion);
        match ev {
            Event::Response { response: Response::ListAuthKeysAndVersion { res, msg_id: m }, src: _ } => {
                if m != msg_id {
                    proof {
                        assert(false);
                    }
                    return Err(ClientError::NoResponse);
                }
                res
            },
            _ => {
                proof {
                    assert(false);
                }
                Err(ClientError::NoResponse)
            },
        }
    }

    /// Authorise one key and wait for the typed outcome.
    pub fn ins_auth_key_response(&mut self, key: PublicKey, version: u64, node: &mut TestNode) -> (r: Result<(), ClientError>)
        requires
            old(self).connected,
            old(self).next_msg_id < u64::MAX,
            old(node).wf(),
            old(node).pending@.len() == 0,
            old(self).no_events_for(old(node)),
        ensures
            final(self).same_identity(old(self)),
            final(self).next_msg_id == old(self).next_msg_id + 1,
            final(node).wf(),
            final(node).pending@.len() == 0,
            final(node).events@ == old(node).events@,
            ins_auth_key_post(*old(node), key, version, old(self).manager_name(), *final(node), r),
    {
        let dst = self.client_manager;
        let msg_id = self.next_msg_id;
        self.next_msg_id = msg_id + 1;
        let ev = self.run_request(node, dst, msg_id, Request::InsAuthKey { key, version });
        match ev {
            Event::Response { response: Response::InsAuthKey { res, msg_id: m }, src: _ } => {
                if m != msg_id {
                    proof {
                        assert(false);
                    }
                    return Err(ClientError::NoResponse);
                }
                res
            },
            _ => {
                proof {
                    assert(false);
                }
                Err(ClientError::NoResponse)
            },
        }
    }

    /// Confirm the client's connection: drive the handshake through the
    /// simulation and observe the connection event. All request
    /// operations are only meaningful once this has run.
    pub fn ensure_connected(&mut self, node: &mut TestNode)
        requires
            old(self).next_msg_id < u64::MAX,
            old(node).wf(),
            old(node).pending@.len() == 0,
            old(self).no_events_for(old(node)),
        ensures
            final(self).full_id == old(self).full_id,
            final(self).client_manager == old(self).client_manager,
            final(self).connected,
            final(self).next_msg_id == old(self).next_msg_id + 1,
            final(node).wf(),
            final(node).pending@.len() == 0,
            final(node).events@ == old(node).events@,
            store_unchanged(*old(node), *final(node)),
    {
        let msg_id = self.next_msg_id;
        self.next_msg_id = msg_id + 1;
        let me = self.name();
        let ev = self.run_request(node, Authority::ClientManager(me), msg_id, Request::Connect);
        match ev {
            Event::Connected => {
                self.connected = true;
            },
            _ => {
                proof {
                    assert(false);
                }
                self.connected = true;
            },
        }
    }

    /// Queue an immutable-data store request under the given message
    /// identifier without waiting for anything.
    pub fn put_idata_with_msg_id(&mut self, data: ImmutableData, msg_id: u64, node: &mut TestNode)
        requires
            old(self).connected,
            old(node).wf(),
        ensures
            *final(self) == *old(self),
            final(node).wf(),
            final(node).pending@ == old(node).pending@.push(
                (Pending {
                    client: old(self).spec_name(),
                    dst: old(self).client_manager,
                    msg_id,
                    request: (Request::PutIData { data }),
                }),
            ),
            final(node).events@ == old(node).events@,
            store_unchanged(*old(node), *final(node)),
    {
        let me = self.name();
        node.send(
            Pending {
                client: me,
                dst: self.client_manager,
                msg_id,
                request: Request::PutIData { data },
            },
        );
    }

    /// Queue an immutable-data store request under a fresh message
    /// identifier and hand that identifier back without waiting.
    pub fn put_idata(&mut self, data: ImmutableData, node: &mut TestNode) -> (msg_id: u64)
        requires
            old(self).connected,
            old(self).next_msg_id < u64::MAX,
            old(node).wf(),
        ensures
            msg_id == old(self).next_msg_id,
            final(self).same_identity(old(self)),
            final(self).next_msg_id == old(self).next_msg_id + 1,
            final(node).wf(),
            final(node).pending@ == old(node).pending@.push(
                (Pending {
                    client: old(self).spec_name(),
                    dst: old(self).client_manager,
                    msg_id,
                    request: (Request::PutIData { data }),
                }),
            ),
            final(node).events@ == old(node).events@,
            store_unchanged(*old(node), *final(node)),
    {
        let msg_id = self.next_msg_id;
        self.next_msg_id = msg_id + 1;
        self.put_idata_with_msg_id(data, msg_id, node);
        msg_id
    }

    /// Store an immutable blob under a caller-chosen message identifier
    /// and wait for the typed outcome.
    pub fn put_idata_response_with_msg_id(
        &mut self,
        data: ImmutableData,
        msg_id: u64,
        node: &mut TestNode,
    ) -> (r: Result<(), ClientError>)
        requires
            old(self).connected,
            data@.len() <= MAX_IMMUTABLE_DATA_SIZE,
            old(node).wf(),
            old(node).pending@.len() == 0,
            old(self).no_events_for(old(node)),
        ensures
            *final(self) == *old(self),
            final(node).wf(),
            final(node).pending@.len() == 0,
            final(node).events@ == old(node).events@,
            put_idata_post(*old(node), data, old(self).manager_name(), *final(node), r),
    {
        let dst = self.client_manager;
        let ev = self.run_request(node, dst, msg_id, Request::PutIData { data });
        match ev {
            Event::Response { response: Response::PutIData { res, msg_id: m }, src: _ } => {
                if m != msg_id {
                    proof {
                        assert(false);
                    }
                    return Err(ClientError::NoResponse);
                }
                res
            },
            _ => {
                proof {
                    assert(false);
                }
                Err(ClientError::NoResponse)
            },
        }
    }

    /// Store an immutable blob of any size and wait for the outcome: an
    /// oversized payload terminates the connection, surfaced as an
    /// invalid-operation failure.
    pub fn put_large_sized_idata(&mut self, data: ImmutableData, node: &mut TestNode) -> (r:
        Result<(), ClientError>)
        requires
            old(self).connected,
            old(self).next_msg_id < u64::MAX,
            old(node).wf(),
            old(node).pending@.len() == 0,
            old(self).no_events_for(old(node)),
        ensures
            final(self).same_identity(old(self)),
            final(self).next_msg_id == old(self).next_msg_id + 1,
            final(node).wf(),
            final(node).pending@.len() == 0,
            final(node).events@ == old(node).events@,
            data@.len() > MAX_IMMUTABLE_DATA_SIZE ==> r == Result::<(), ClientError>::Err(
                ClientError::InvalidOperation,
            ) && store_unchanged(*old(node), *final(node)),
            data@.len() <= MAX_IMMUTABLE_DATA_SIZE ==> put_idata_post(
                *old(node),
                data,
                old(self).manager_name(),
                *final(node),
                r,
            ),
    {
        let msg_id = self.next_msg_id;
        self.next_msg_id = msg_id + 1;
        let dst = self.client_manager;
        let ev = self.run_request(node, dst, msg_id, Request::PutIData { data });
        match ev {
            Event::Response { response: Response::PutIData { res, msg_id: m }, src: _ } => {
                if m != msg_id {
                    proof {
                        assert(false);
                    }
                    return Err(ClientError::NoResponse);
                }
                res
            },
            Event::Terminate => Err(ClientError::InvalidOperation),
            _ => {
                proof {
                    assert(false);
                }
                Err(ClientError::NoResponse)
            },
        }
    }

    /// Fetch an immutable blob by address, waiting for the typed outcome
    /// together with the answering authority.
    pub fn get_idata_response_with_src(&mut self, name: Address, node: &mut TestNode) -> (r:
        Result<(ImmutableData, Authority), ClientError>)
        requires
            old(self).connected,
            old(self).next_msg_id < u64::MAX,
            old(node).wf(),
            old(node).pending@.len() == 0,
        ensures
            final(self).same_identity(old(self)),
            final(self).next_msg_id == old(self).next_msg_id + 1,
            final(node).wf(),
            final(node).pending@.len() == 0,
            final(node).events@ == old(node).events@.filter(
                event_not_for(old(self).spec_name()),
            ),
            final(self).no_events_for(final(node)),
            final(node).events@.len() <= old(node).events@.len(),
            store_unchanged(*old(node), *final(node)),
            match r {
                Ok(p) => has_idata(old(node).idata@, name) && p.0@ == idata_at(
                    old(node).idata@,
                    name,
                ) && p.1 == Authority::NaeManager(name),
                Err(e) => e == ClientError::NoSuchData && !has_idata(old(node).idata@, name),
            },
    {
        self.flush(node);
        let msg_id = self.next_msg_id;
        self.next_msg_id = msg_id + 1;
        let dst = Authority::NaeManager(name);
        let ev = self.run_request(node, dst, msg_id, Request::GetIData { name });
        match ev {
            Event::Response { response: Response::GetIData { res, msg_id: m }, src } => {
                if m != msg_id {
                    proof {
                        assert(false);
                    }
                    return Err(ClientError::NoResponse);
                }
                match res {
                    Ok(d) => Ok((d, src)),
                    Err(e) => Err(e),
                }
            },
            _ => {
                proof {
                    assert(false);
                }
                Err(ClientError::NoResponse)
            },
        }
    }

    /// Fetch an immutable blob by address and wait for the typed outcome.
    pub fn get_idata_response(&mut self, name: Address, node: &mut TestNode) -> (r: Result<
        ImmutableData,
        ClientError,
    >)
        requires
            old(self).connected,
            old(self).next_msg_id < u64::MAX,
            old(node).wf(),
            old(node).pending@.len() == 0,
        ensures
            final(self).same_identity(old(self)),
            final(self).next_msg_id == old(self).next_msg_id + 1,
            final(node).wf(),
            final(node).pending@.len() == 0,
            final(node).events@ == old(node).events@.filter(
                event_not_for(old(self).spec_name()),
            ),
            final(self).no_events_for(final(node)),
            final(node).events@.len() <= old(node).events@.len(),
            store_unchanged(*old(node), *final(node)),
            match r {
                Ok(d) => has_idata(old(node).idata@, name) && d@ == idata_at(
                    old(node).idata@,
                    name,
                ),
                Err(e) => e == ClientError::NoSuchData && !has_idata(old(node).idata@, name),
            },
    {
        match self.get_idata_response_with_src(name, node) {
            Ok(p) => Ok(p.0),
            Err(e) => Err(e),
        }
    }

    /// Queue a mutable-data store request under a fresh message
    /// identifier and hand that identifier back without waiting.
    pub fn put_mdata(&mut self, data: MutableData, node: &mut TestNode) -> (msg_id: u64)
        requires
            old(self).connected,
            old(self).next_msg_id < u64::MAX,
            data.wf(),
            old(node).wf(),
        ensures
            msg_id == old(self).next_msg_id,
            final(self).same_identity(old(self)),
            final(self).next_msg_id == old(self).next_msg_id + 1,
            final(node).wf(),
            final(node).pending@ == old(node).pending@.push(
                (Pending {
                    client: old(self).spec_name(),
                    dst: old(self).client_manager,
                    msg_id,
                    request: (Request::PutMData { data, requester: old(self).full_id.key }),
                }),
            ),
            final(node).events@ == old(node).events@,
            store_unchanged(*old(node), *final(node)),
    {
        let msg_id = self.next_msg_id;
        self.next_msg_id = msg_id + 1;
        let me = self.name();
        let requester = self.full_id.key;
        node.send(
            Pending {
                client: me,
                dst: self.client_manager,
                msg_id,
                request: Request::PutMData { data, requester },
            },
        );
        msg_id
    }

    /// Queue a mutate-entries request under a fresh message identifier
    /// and hand that identifier back without waiting.
    pub fn mutate_mdata_entries(
        &mut self,
        name: Address,
        tag: u64,
        actions: Vec<ActionItem>,
        node: &mut TestNode,
    ) -> (msg_id: u64)
        requires
            old(self).connected,
            old(self).next_msg_id < u64::MAX,
            batch_keys_distinct(actions@),
            old(node).wf(),
        ensures
            msg_id == old(self).next_msg_id,
            final(self).same_identity(old(self)),
            final(self).next_msg_id == old(self).next_msg_id + 1,
            final(node).wf(),
            final(node).pending@ == old(node).pending@.push(
                (Pending {
                    client: old(self).spec_name(),
                    dst: old(self).client_manager,
                    msg_id,
                    request: (Request::MutateMDataEntries {
                        name,
                        tag,
                        actions,
                        requester: old(self).full_id.key,
                    }),
                }),
            ),
            final(node).events@ == old(node).events@,
            store_unchanged(*old(node), *final(node)),
    {
        let msg_id = self.next_msg_id;
        self.next_msg_id = msg_id + 1;
        let me = self.name();
        let requester = self.full_id.key;
        node.send(
            Pending {
                client: me,
                dst: self.client_manager,
                msg_id,
                request: Request::MutateMDataEntries { name, tag, actions, requester },
            },
        );
        msg_id
    }

    /// Queue an authorise-key request under a fresh message identifier
    /// and hand that identifier back without waiting.
    pub fn ins_auth_key(&mut self, key: PublicKey, version: u64, node: &mut TestNode) -> (msg_id:
        u64)
        requires
            old(self).connected,
            old(self).next_msg_id < u64::MAX,
            old(node).wf(),
        ensures
            msg_id == old(self).next_msg_id,
            final(self).same_identity(old(self)),
            final(self).next_msg_id == old(self).next_msg_id + 1,
            final(node).wf(),
            final(node).pending@ == old(node).pending@.push(
                (Pending {
                    client: old(self).spec_name(),
                    dst: old(self).client_manager,
                    msg_id,
                    request: (Request::InsAuthKey { key, version }),
                }),
            ),
            final(node).events@ == old(node).events@,
            store_unchanged(*old(node), *final(node)),
    {
        let msg_id = self.next_msg_id;
        self.next_msg_id = msg_id + 1;
        let me = self.name();
        node.send(
            Pending {
                client: me,
                dst: self.client_manager,
                msg_id,
                request: Request::InsAuthKey { key, version },
            },
        );
        msg_id
    }

    /// Queue a withdraw-key request under a fresh message identifier and
    /// hand that identifier back without waiting.
    pub fn del_auth_key(&mut self, key: PublicKey, version: u64, node: &mut TestNode) -> (msg_id:
        u64)
        requires
            old(self).connected,
            old(self).next_msg_id < u64::MAX,
            old(node).wf(),
        ensures
            msg_id == old(self).next_msg_id,
            final(self).same_identity(old(self)),
            final(self).next_msg_id == old(self).next_msg_id + 1,
            final(node).wf(),
            final(node).pending@ == old(node).pending@.push(
                (Pending {
                    client: old(self).spec_name(),
                    dst: old(self).client_manager,
                    msg_id,
                    request: (Request::DelAuthKey { key, version }),
                }),
            ),
            final(node).events@ == old(node).events@,
            store_unchanged(*old(node), *final(node)),
    {
        let msg_id = self.next_msg_id;
        self.next_msg_id = msg_id + 1;
        let me = self.name();
        node.send(
            Pending {
                client: me,
                dst: self.client_manager,
                msg_id,
                request: Request::DelAuthKey { key, version },
            },
        );
        msg_id
    }
    /// Compose the session-packet record an invitation-based account
    /// creation stores: a fresh random address, the reserved tag, the
    /// client as sole owner, and one login entry carrying the framed
    /// invitation payload.
    fn compose_account_data(&mut self, invitation_code: &Vec<u8>) -> (r: Result<
        MutableData,
        ClientError,
    >)
        ensures
            final(self).same_identity(old(self)),
            final(self).next_msg_id == old(self).next_msg_id,
            match r {
                Ok(d) => {
                    &&& d.wf()
                    &&& d.tag == TYPE_TAG_SESSION_PACKET
                    &&& d.version == 0
                    &&& d.owners@.len() == 1
                    &&& d.owners@[0] == old(self).full_id.key
                    &&& d.permissions@.len() == 0
                    &&& d.entries@.len() == 1
                    &&& d.entries@[0].key@ == spec_login_key()
                    &&& d.entries@[0].value.content@ == spec_encode_account_packet(
                        AccountPacketView::WithInvitation { invitation: invitation_code@ },
                    )
                    &&& d.entries@[0].value.entry_version == 0
                },
                Err(_) => false,
            },
    {
        let owner = self.full_id.key;
        let mut owners: Vec<PublicKey> = Vec::new();
        owners.push(owner);
        let content = encode_account_packet(
            &AccountPacket::WithInvitation { invitation: clone_bytes(invitation_code) },
        );
        let mut entries: Vec<Entry> = Vec::new();
        entries.push(
            Entry { key: account_login_entry_key(), value: Value { content, entry_version: 0 } },
        );
        let name = Address(self.rng.gen_u64());
        match MutableData::new(name, TYPE_TAG_SESSION_PACKET, Vec::new(), entries, owners) {
            Ok(d) => Ok(d),
            Err(_) => {
                proof {
                    assert(false);
                }
                Err(ClientError::InvalidOwners)
            },
        }
    }

    /// Create an account: store a fresh, empty session-packet record
    /// owned by this client alone, opening the account at the client's
    /// manager.
    pub fn create_account(&mut self, node: &mut TestNode) -> (r: Result<(), ClientError>)
        requires
            old(self).connected,
            old(self).next_msg_id < u64::MAX,
            old(node).wf(),
            old(node).pending@.len() == 0,
            old(self).no_events_for(old(node)),
        ensures
            final(self).same_identity(old(self)),
            final(self).next_msg_id == old(self).next_msg_id + 1,
            final(node).wf(),
            final(node).pending@.len() == 0,
            final(node).events@ == old(node).events@,
            match r {
                Ok(()) => {
                    &&& !has_account(old(node).accounts@, old(self).manager_name())
                    &&& accounts_created(
                        old(node).accounts@,
                        final(node).accounts@,
                        old(self).manager_name(),
                    )
                    &&& final(node).idata@ == old(node).idata@
                    &&& final(node).mdata@.len() == old(node).mdata@.len() + 1
                    &&& (forall|j: int|
                        0 <= j < old(node).mdata@.len() ==> final(node).mdata@[j] == old(
                            node,
                        ).mdata@[j])
                    &&& final(node).mdata@.last().tag == TYPE_TAG_SESSION_PACKET
                    &&& final(node).mdata@.last().version == 0
                    &&& final(node).mdata@.last().owners@.len() == 1
                    &&& final(node).mdata@.last().owners@[0] == old(self).full_id.key
                    &&& final(node).mdata@.last().permissions@.len() == 0
                    &&& final(node).mdata@.last().entries@.len() == 0
                },
                Err(e) => {
                    &&& store_unchanged(*old(node), *final(node))
                    &&& {
                        ||| (e == ClientError::DataExists && exists|j: int|
                            0 <= j < old(node).mdata@.len() && (#[trigger] old(
                                node,
                            ).mdata@[j]).tag == TYPE_TAG_SESSION_PACKET)
                        ||| (e == ClientError::AccountExists && has_account(
                            old(node).accounts@,
                            old(self).manager_name(),
                        ))
                    }
                },
            },
    {
        let name = Address(self.rng.gen_u64());
        let owner = self.full_id.key;
        let mut owners: Vec<PublicKey> = Vec::new();
        owners.push(owner);
        match MutableData::new(name, TYPE_TAG_SESSION_PACKET, Vec::new(), Vec::new(), owners) {
            Ok(data) => {
                let ghost d = data;
                let r = self.put_mdata_response(data, node);
                proof {
                    lemma_session_record_witness(*old(node), d, r);
                }
                r
            },
            Err(_) => {
                proof {
                    assert(false);
                }
                Err(ClientError::InvalidOwners)
            },
        }
    }

    /// Create an account with an invitation payload and wait for the
    /// typed outcome: the stored session-packet record carries exactly
    /// one login entry whose content frames the invitation.
    pub fn create_account_with_invitation_response(
        &mut self,
        invitation_code: &Vec<u8>,
        node: &mut TestNode,
    ) -> (r: Result<(), ClientError>)
        requires
            old(self).connected,
            old(self).next_msg_id < u64::MAX,
            old(node).wf(),
            old(node).pending@.len() == 0,
            old(self).no_events_for(old(node)),
        ensures
            final(self).same_identity(old(self)),
            final(self).next_msg_id == old(self).next_msg_id + 1,
            final(node).wf(),
            final(node).pending@.len() == 0,
            final(node).events@ == old(node).events@,
            match r {
                Ok(()) => {
                    &&& !has_account(old(node).accounts@, old(self).manager_name())
                    &&& accounts_created(
                        old(node).accounts@,
                        final(node).accounts@,
                        old(self).manager_name(),
                    )
                    &&& final(node).idata@ == old(node).idata@
                    &&& final(node).mdata@.len() == old(node).mdata@.len() + 1
                    &&& (forall|j: int|
                        0 <= j < old(node).mdata@.len() ==> final(node).mdata@[j] == old(
                            node,
                        ).mdata@[j])
                    &&& final(node).mdata@.last().tag == TYPE_TAG_SESSION_PACKET
                    &&& final(node).mdata@.last().version == 0
                    &&& final(node).mdata@.last().owners@.len() == 1
                    &&& final(node).mdata@.last().owners@[0] == old(self).full_id.key
                    &&& final(node).mdata@.last().entries@.len() == 1
                    &&& final(node).mdata@.last().entries@[0].key@ == spec_login_key()
                    &&& final(node).mdata@.last().entries@[0].value.content@
                        == spec_encode_account_packet(
                        AccountPacketView::WithInvitation { invitation: invitation_code@ },
                    )
                    &&& final(node).mdata@.last().entries@[0].value.entry_version == 0
                    &&& final(node).mdata@.last().permissions@.len() == 0
                },
                Err(e) => {
                    &&& store_unchanged(*old(node), *final(node))
                    &&& {
                        ||| (e == ClientError::DataExists && exists|j: int|
                            0 <= j < old(node).mdata@.len() && (#[trigger] old(
                                node,
                            ).mdata@[j]).tag == TYPE_TAG_SESSION_PACKET)
                        ||| (e == ClientError::AccountExists && has_account(
                            old(node).accounts@,
                            old(self).manager_name(),
                        ))
                    }
                },
            },
    {
        match self.compose_account_data(invitation_code) {
            Ok(data) => {
                let ghost d = data;
                let r = self.put_mdata_response(data, node);
                proof {
                    lemma_session_record_witness(*old(node), d, r);
                }
                r
            },
            Err(_) => {
                proof {
                    assert(false);
                }
                Err(ClientError::InvalidOwners)
            },
        }
    }

    /// Queue an invitation-based account creation under a fresh message
    /// identifier and hand that identifier back without waiting.
    pub fn create_account_with_invitation(
        &mut self,
        invitation_code: &Vec<u8>,
        node: &mut TestNode,
    ) -> (msg_id: u64)
        requires
            old(self).connected,
            old(self).next_msg_id < u64::MAX,
            old(node).wf(),
        ensures
            msg_id == old(self).next_msg_id,
            final(self).same_identity(old(self)),
            final(self).next_msg_id == old(self).next_msg_id + 1,
            final(node).wf(),
            final(node).pending@.len() == old(node).pending@.len() + 1,
            final(node).pending@.subrange(0, old(node).pending@.len() as int) == old(
                node,
            ).pending@,
            final(node).pending@.last().client == old(self).spec_name(),
            final(node).pending@.last().dst == old(self).client_manager,
            final(node).pending@.last().msg_id == msg_id,
            match final(node).pending@.last().request {
                Request::PutMData { data, requester } => {
                    &&& requester == old(self).full_id.key
                    &&& data.tag == TYPE_TAG_SESSION_PACKET
                    &&& data.owners@.len() == 1
                    &&& data.owners@[0] == old(self).full_id.key
                    &&& data.entries@.len() == 1
                    &&& data.entries@[0].key@ == spec_login_key()
                    &&& data.entries@[0].value.content@ == spec_encode_account_packet(
                        AccountPacketView::WithInvitation { invitation: invitation_code@ },
                    )
                    &&& data.permissions@.len() == 0
                },
                _ => false,
            },
            final(node).events@ == old(node).events@,
            store_unchanged(*old(node), *final(node)),
    {
        let data = match self.compose_account_data(invitation_code) {
            Ok(d) => d,
            Err(_) => {
                proof {
                    assert(false);
                }
                MutableData {
                    name: Address(0),
                    tag: TYPE_TAG_SESSION_PACKET,
                    version: 0,
                    entries: Vec::new(),
                    permissions: Vec::new(),
                    owners: Vec::new(),
                }
            },
        };
        let msg_id = self.put_mdata(data, node);
        proof {
            assert(node.pending@.subrange(0, old(node).pending@.len() as int) =~= old(
                node,
            ).pending@);
        }
        msg_id
    }

}
} // verus!