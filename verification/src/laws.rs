//! Cross-operation laws of the store and the correlation protocol.

use vstd::prelude::*;
use crate::data::{ClientError, ImmutableData};
use crate::data::spec_idata_name;
use crate::mdata::{batch_valid, entries_after, ActionItem};
use crate::network::{
    get_idata_post, has_idata, has_mdata, idata_at, idata_index, lemma_idata_at_index,
    mdata_index, mutate_mdata_entries_post, put_idata_post, respond_post, Event, Pending,
    TestNode,
};
use crate::authority::{Address, PublicKey};
use crate::test_client::spec_response_msg_id;

verus! {

/// Round trip: storing an immutable blob and then fetching it by its
/// derived address returns byte-identical content.
pub proof fn lemma_idata_round_trip(
    n0: TestNode,
    data: ImmutableData,
    dst: Address,
    n1: TestNode,
    res1: Result<(), ClientError>,
    n2: TestNode,
    res2: Result<ImmutableData, ClientError>,
)
    requires
        n0.wf(),
        n1.wf(),
        put_idata_post(n0, data, dst, n1, res1),
        get_idata_post(n1, spec_idata_name(data@), n2, res2),
    ensures
        match res2 {
            Ok(d) => d@ == data@,
            Err(_) => false,
        },
{
    let nm = spec_idata_name(data@);
    if has_idata(n0.idata@, nm) {
        let i = idata_index(n0.idata@, nm);
        assert(0 <= i < n0.idata@.len() && spec_idata_name(n0.idata@[i]@) == nm);
        assert(n1.idata@ == n0.idata@.update(i, data));
        assert(n1.idata@[i] == data);
        lemma_idata_at_index(n1.idata@, i);
    } else {
        assert(n1.idata@ == n0.idata@.push(data));
        assert(n1.idata@[n0.idata@.len() as int] == data);
        lemma_idata_at_index(n1.idata@, n0.idata@.len() as int);
    }
    assert(has_idata(n1.idata@, nm));
    assert(idata_at(n1.idata@, nm) == data@);
}

/// Success is owed: a mutate-entries request whose action batch is valid
/// against the record's current entries, issued by a requester who may
/// perform every action of it, yields a success outcome, and the record
/// afterwards holds exactly the batch's outcome — every targeted key
/// updated, deleted or inserted as specified and nothing else touched.
pub proof fn lemma_valid_batch_mutates_exactly(
    pre: TestNode,
    name: Address,
    tag: u64,
    actions: Seq<ActionItem>,
    requester: PublicKey,
    dst: Address,
    post: TestNode,
    res: Result<(), ClientError>,
)
    requires
        pre.wf(),
        has_mdata(pre.mdata@, name, tag),
        batch_valid(pre.mdata@[mdata_index(pre.mdata@, name, tag)].entries@, actions),
        pre.mdata@[mdata_index(pre.mdata@, name, tag)].spec_batch_allowed(actions, requester),
        mutate_mdata_entries_post(pre, name, tag, actions, requester, dst, post, res),
    ensures
        res == Result::<(), ClientError>::Ok(()),
        entries_after(
            pre.mdata@[mdata_index(pre.mdata@, name, tag)].entries@,
            actions,
            post.mdata@[mdata_index(pre.mdata@, name, tag)].entries@,
        ),
{
    let i = mdata_index(pre.mdata@, name, tag);
    let d0 = pre.mdata@[i];
    assert(pre.mdata@[i].spec_batch_allowed(actions, requester));
    assert(batch_valid(d0.entries@, actions));
    match res {
        Ok(u) => {
            assert(u == ());
            assert(res == Result::<(), ClientError>::Ok(()));
        },
        Err(e) => {
            assert(e == ClientError::AccessDenied || e == ClientError::InvalidEntryActions);
            assert(false);
        },
    }
}

/// Correlation is by message identifier alone, and it is total: every
/// response the simulation emits for a request carries exactly that
/// request's message identifier, so a response observed for a different
/// identifier can only belong to a different request.
pub proof fn lemma_response_carries_request_msg_id(
    pre: TestNode,
    p: Pending,
    post: TestNode,
    ev: Event,
)
    requires
        respond_post(pre, p, post, ev),
    ensures
        match ev {
            Event::Response { response, .. } => spec_response_msg_id(response) == p.msg_id,
            _ => true,
        },
{
}

} // verus!
