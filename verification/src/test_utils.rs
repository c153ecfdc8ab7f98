//! Randomized workload generators.
//!
//! Every generator takes an explicit random stream and produces
//! structurally valid data only: records with distinct keys and all entry
//! versions at 0, and action batches whose expected versions match what a
//! correctly applied batch requires. Key collisions are retried a bounded
//! number of times and then replaced by a longer random key, which no key
//! in use can equal, so every generator terminates with the requested
//! size.

use vstd::prelude::*;
use crate::authority::{
    spec_client_name_from_key, Address, ClientAuthority, ClientManagerAuthority, PublicKey,
    client_name_from_key,
};
use crate::data::{
    clone_bytes, find_entry, has_entry, keys_distinct, lemma_entry_at_index,
    ClientError, Entry, ImmutableData, Value, MAX_MDATA_ENTRIES,
};
use crate::mdata::{
    action_valid, batch_has, batch_keys_distinct, batch_valid, lemma_entries_push, ActionItem,
    EntryAction, EntryActionView, MutableData,
};
use crate::rng::TestRng;

verus! {

/// How often a generator retries a colliding random key before giving up
/// on that slot.
pub const MAX_KEY_RETRIES: usize = 64;

/// How many rounds a property-style test should run: few in a quick run,
/// more in a full one. The caller decides which, so no hidden environment
/// coupling remains.
pub fn iterations(quick: bool) -> (n: usize)
    ensures
        n == if quick {
            4usize
        } else {
            10usize
        },
{
    if quick {
        4
    } else {
        10
    }
}

/// Generate a random byte vector of the given length.
pub fn gen_vec(size: usize, rng: &mut TestRng) -> (v: Vec<u8>)
    ensures
        v@.len() == size,
{
    let mut v: Vec<u8> = Vec::new();
    let mut i: usize = 0;
    while i < size
        invariant
            i <= size,
            v@.len() == i,
        decreases size - i,
    {
        v.push(rng.gen_u8());
        i = i + 1;
    }
    v
}

/// Generate a random immutable blob of the given length.
pub fn gen_immutable_data(size: usize, rng: &mut TestRng) -> (d: ImmutableData)
    ensures
        d@.len() == size,
{
    ImmutableData::new(gen_vec(size, rng))
}

/// Generate one random entry: key and content lengths uniform in 1..10,
/// content bytes uniform, version 0.
pub fn gen_mutable_data_entry(rng: &mut TestRng) -> (r: (Vec<u8>, Value))
    ensures
        1 <= r.0@.len() < 10,
        1 <= r.1.content@.len() < 10,
        r.1.entry_version == 0,
{
    let key_size = rng.gen_range(1, 10);
    let key = gen_vec(key_size, rng);

    let value_size = rng.gen_range(1, 10);
    let value = Value { content: gen_vec(value_size, rng), entry_version: 0 };

    (key, value)
}

/// Generate one entry whose key is absent from `es`, retrying a bounded
/// number of times; `None` if every try collided.
fn gen_fresh_entry(es: &Vec<Entry>, rng: &mut TestRng) -> (r: Option<Entry>)
    ensures
        match r {
            Some(e) => !has_entry(es@, e.key@) && e.value.entry_version == 0 && 1 <= e.key@.len()
                < 10 && 1 <= e.value.content@.len() < 10,
            None => true,
        },
{
    let mut attempt: usize = 0;
    while attempt < MAX_KEY_RETRIES
        invariant
            attempt <= MAX_KEY_RETRIES,
        decreases MAX_KEY_RETRIES - attempt,
    {
        let (key, value) = gen_mutable_data_entry(rng);
        match find_entry(es, &key) {
            None => {
                return Some(Entry { key, value });
            },
            Some(_) => {},
        }
        attempt = attempt + 1;
    }
    None
}

/// Generate exactly `num` entries with pairwise distinct keys, all at
/// version 0. A colliding random key is retried a bounded number of times
/// and then replaced by a longer random key, which no key in use can
/// equal, so the requested size is always reached.
pub fn gen_mutable_data_entries(num: usize, rng: &mut TestRng) -> (es: Vec<Entry>)
    requires
        num + 16 < usize::MAX,
    ensures
        keys_distinct(es@),
        es@.len() == num,
        forall|i: int|
            0 <= i < es@.len() ==> (#[trigger] es@[i]).value.entry_version == 0
                && 1 <= es@[i].key@.len() && 1 <= es@[i].value.content@.len() < 10,
{
    let mut es: Vec<Entry> = Vec::new();
    // The longest key in use so far: a key longer than this is certainly
    // fresh, whatever it holds.
    let mut cap: usize = 10;
    let mut slot: usize = 0;
    while slot < num
        invariant
            slot <= num,
            es@.len() == slot,
            cap >= 10,
            cap + (num - slot) < usize::MAX,
            keys_distinct(es@),
            forall|i: int| 0 <= i < es@.len() ==> (#[trigger] es@[i]).key@.len() <= cap,
            forall|i: int|
                0 <= i < es@.len() ==> (#[trigger] es@[i]).value.entry_version == 0
                    && 1 <= es@[i].key@.len() && 1 <= es@[i].value.content@.len() < 10,
        decreases num - slot,
    {
        let e: Entry = match gen_fresh_entry(&es, rng) {
            Some(e) => e,
            None => {
                cap = cap + 1;
                let key = gen_vec(cap, rng);
                proof {
                    assert(!has_entry(es@, key@)) by {
                        if has_entry(es@, key@) {
                            let w = choose|w: int|
                                0 <= w < es@.len() && (#[trigger] es@[w].key@) == key@;
                            assert(es@[w].key@.len() <= cap - 1);
                        }
                    }
                }
                let value_size = rng.gen_range(1, 10);
                Entry { key, value: Value { content: gen_vec(value_size, rng), entry_version: 0 } }
            },
        };
        proof {
            lemma_entries_push(es@, e);
        }
        es.push(e);
        slot = slot + 1;
    }
    es
}

/// Generate a mutable record with the given tag, the given single owner, a
/// random address, and exactly `num_entries` random entries, all at
/// version 0 with pairwise distinct keys.
pub fn gen_mutable_data(tag: u64, num_entries: usize, owner: PublicKey, rng: &mut TestRng) -> (d:
    MutableData)
    requires
        num_entries <= MAX_MDATA_ENTRIES,
    ensures
        d.wf(),
        d.tag == tag,
        d.version == 0,
        d.owners@ =~= seq![owner],
        d.permissions@.len() == 0,
        d.entries@.len() == num_entries,
        keys_distinct(d.entries@),
        forall|i: int| 0 <= i < d.entries@.len() ==> (#[trigger] d.entries@[i]).value.entry_version == 0,
{
    let entries = gen_mutable_data_entries(num_entries, rng);
    let mut owners: Vec<PublicKey> = Vec::new();
    owners.push(owner);
    let name = Address(rng.gen_u64());
    match MutableData::new(name, tag, Vec::new(), entries, owners) {
        Ok(d) => d,
        Err(_) => {
            proof {
                assert(false);
            }
            MutableData {
                name,
                tag,
                version: 0,
                entries: Vec::new(),
                permissions: Vec::new(),
                owners: Vec::new(),
            }
        },
    }
}

/// Whether some action of the batch targets `key`.
pub fn batch_contains_key(items: &Vec<ActionItem>, key: &Vec<u8>) -> (r: bool)
    ensures
        r == batch_has(items@, key@),
{
    let mut i: usize = 0;
    while i < items.len()
        invariant
            i <= items@.len(),
            forall|j: int| 0 <= j < i ==> (#[trigger] items@[j]).key@ != key@,
        decreases items@.len() - i,
    {
        if crate::data::bytes_eq(&items[i].key, key) {
            return true;
        }
        i = i + 1;
    }
    proof {
        if batch_has(items@, key@) {
            let j = choose|j: int| 0 <= j < items@.len() && items@[j].key@ == key@;
            assert(items@[j].key@ != key@);
        }
    }
    false
}

/// Generate a 10-byte key absent both from the record and from the batch,
/// retrying a bounded number of times; `None` if every try collided.
fn gen_fresh_insert_key(data: &MutableData, items: &Vec<ActionItem>, rng: &mut TestRng) -> (r:
    Option<Vec<u8>>)
    ensures
        match r {
            Some(key) => !has_entry(data.entries@, key@) && !batch_has(items@, key@) && key@.len()
                == 10,
            None => true,
        },
{
    let mut attempt: usize = 0;
    while attempt < MAX_KEY_RETRIES
        invariant
            attempt <= MAX_KEY_RETRIES,
        decreases MAX_KEY_RETRIES - attempt,
    {
        let key = gen_vec(10, rng);
        match find_entry(&data.entries, &key) {
            None => {
                if !batch_contains_key(items, &key) {
                    return Some(key);
                }
            },
            Some(_) => {},
        }
        attempt = attempt + 1;
    }
    None
}

/// Generate a batch of exactly `count` entry actions that is valid
/// against the record's current entries: a random share of the batch
/// modifies distinct existing keys — each a delete or an update, carrying
/// the successor of the key's current version — and the rest inserts
/// fresh keys at version 0. No key is targeted twice. A colliding random
/// insert key is retried a bounded number of times and then replaced by a
/// longer random key, which no key in use can equal, so the generator
/// always terminates with a full batch.
pub fn gen_mutable_data_entry_actions(data: &MutableData, count: usize, rng: &mut TestRng) -> (r:
    Vec<ActionItem>)
    requires
        data.wf(),
        count + 16 < usize::MAX,
        forall|i: int|
            0 <= i < data.entries@.len() ==> (#[trigger] data.entries@[i]).key@.len() + count
                < usize::MAX,
        forall|i: int|
            0 <= i < data.entries@.len() ==> (#[trigger] data.entries@[i]).value.entry_version
                < u64::MAX,
    ensures
        batch_keys_distinct(r@),
        batch_valid(data.entries@, r@),
        r@.len() == count,
        forall|i: int|
            0 <= i < r@.len() ==> ((#[trigger] r@[i].action@) matches EntryActionView::Ins(v)
                ==> v.entry_version == 0),
{
    let ghost es0 = data.entries@;
    let n = data.entries.len();
    let modify_request = rng.gen_range(0, count + 1);
    let modify_count = if modify_request < n {
        modify_request
    } else {
        n
    };

    // Sample `modify_count` distinct existing entry indices by a partial
    // shuffle of the index pool.
    let mut idxs: Vec<usize> = Vec::new();
    let mut i: usize = 0;
    while i < n
        invariant
            i <= n,
            idxs@.len() == i,
            forall|a: int| 0 <= a < i ==> idxs@[a] == a,
        decreases n - i,
    {
        idxs.push(i);
        i = i + 1;
    }
    let mut i: usize = 0;
    while i < modify_count
        invariant
            modify_count <= n,
            i <= modify_count,
            idxs@.len() == n,
            forall|a: int| 0 <= a < n ==> (#[trigger] idxs@[a]) < n,
            forall|a: int, b: int| 0 <= a < b < n ==> idxs@[a] != idxs@[b],
        decreases modify_count - i,
    {
        let j = rng.gen_range(i, n);
        let ghost s = idxs@;
        let vi = idxs[i];
        let vj = idxs[j];
        idxs.set(i, vj);
        idxs.set(j, vi);
        proof {
            let s2 = idxs@;
            assert(s2 =~= s.update(i as int, vj).update(j as int, vi));
            assert forall|a: int, b: int| 0 <= a < b < n implies s2[a] != s2[b] by {
                let a0: int = if a == i as int {
                    j as int
                } else if a == j as int {
                    i as int
                } else {
                    a
                };
                let b0: int = if b == i as int {
                    j as int
                } else if b == j as int {
                    i as int
                } else {
                    b
                };
                assert(s2[a] == s[a0]);
                assert(s2[b] == s[b0]);
                assert(a0 != b0);
                if a0 < b0 {
                    assert(s[a0] != s[b0]);
                } else {
                    assert(s[b0] != s[a0]);
                }
            }
        }
        i = i + 1;
    }

    // Modify portion: each sampled key gets a delete or an update carrying
    // the successor of its current version.
    let mut items: Vec<ActionItem> = Vec::new();
    let mut i: usize = 0;
    while i < modify_count
        invariant
            modify_count <= n,
            i <= modify_count,
            es0 == data.entries@,
            data.wf(),
            forall|a: int|
                0 <= a < es0.len() ==> (#[trigger] es0[a]).value.entry_version < u64::MAX,
            n == es0.len(),
            idxs@.len() == n,
            forall|a: int| 0 <= a < n ==> (#[trigger] idxs@[a]) < n,
            forall|a: int, b: int| 0 <= a < b < n ==> idxs@[a] != idxs@[b],
            items@.len() == i,
            forall|a: int| 0 <= a < i ==> (#[trigger] items@[a]).key@ == es0[idxs@[a] as int].key@,
            batch_keys_distinct(items@),
            batch_valid(es0, items@),
        decreases modify_count - i,
    {
        let idx = idxs[i];
        let ghost pre = items@;
        let version = data.entries[idx].value.entry_version + 1;
        let key = clone_bytes(&data.entries[idx].key);
        let action = if rng.gen_bool() {
            EntryAction::Del(version)
        } else {
            EntryAction::Update(Value { content: gen_vec(10, rng), entry_version: version })
        };
        let item = ActionItem { key, action };
        proof {
            lemma_entry_at_index(es0, idx as int);
            assert(action_valid(es0, item.key@, item.action@));
            let post = pre.push(item);
            assert forall|a: int| 0 <= a < i implies post[a] == pre[a] by {}
            assert forall|a: int, b: int| 0 <= a < b < post.len() implies post[a].key@
                != post[b].key@ by {
                if b < i {
                    assert(pre[a].key@ != pre[b].key@);
                } else {
                    assert(post[b] == item);
                    assert(post[a].key@ == es0[idxs@[a] as int].key@);
                    assert(idxs@[a] != idxs@[i as int]);
                    let x = idxs@[a] as int;
                    let y = idxs@[i as int] as int;
                    if x < y {
                        assert(es0[x].key@ != es0[y].key@);
                    } else {
                        assert(es0[y].key@ != es0[x].key@);
                    }
                }
            }
            assert forall|a: int| 0 <= a < post.len() implies action_valid(
                es0,
                post[a].key@,
                post[a].action@,
            ) by {
                if a < i {
                    assert(action_valid(es0, pre[a].key@, pre[a].action@));
                }
            }
        }
        items.push(item);
        i = i + 1;
    }

    // The longest key in use so far: a key longer than this is certainly
    // fresh, whatever it holds.
    let mut cap: usize = 10;
    let mut ci: usize = 0;
    while ci < n
        invariant
            es0 == data.entries@,
            n == es0.len(),
            ci <= n,
            cap >= 10,
            cap + count < usize::MAX,
            forall|a: int| 0 <= a < es0.len() ==> (#[trigger] es0[a]).key@.len() + count < usize::MAX,
            forall|a: int| 0 <= a < ci ==> (#[trigger] es0[a]).key@.len() <= cap,
        decreases n - ci,
    {
        if data.entries[ci].key.len() > cap {
            cap = data.entries[ci].key.len();
        }
        ci = ci + 1;
    }

    // Insert portion: fresh keys at version 0. A slot whose random keys
    // all collided falls back to a longer random key.
    let insert_count = count - modify_count;
    let mut k: usize = 0;
    while k < insert_count
        invariant
            es0 == data.entries@,
            data.wf(),
            k <= insert_count,
            modify_count + insert_count == count,
            items@.len() == modify_count + k,
            cap >= 10,
            cap + (insert_count - k) < usize::MAX,
            forall|a: int| 0 <= a < es0.len() ==> (#[trigger] es0[a]).key@.len() <= cap,
            forall|a: int| 0 <= a < items@.len() ==> (#[trigger] items@[a]).key@.len() <= cap,
            batch_keys_distinct(items@),
            batch_valid(es0, items@),
        decreases insert_count - k,
    {
        let key: Vec<u8> = match gen_fresh_insert_key(data, &items, rng) {
            Some(kk) => kk,
            None => {
                cap = cap + 1;
                let kk = gen_vec(cap, rng);
                proof {
                    assert(!has_entry(es0, kk@)) by {
                        if has_entry(es0, kk@) {
                            let w = choose|w: int|
                                0 <= w < es0.len() && (#[trigger] es0[w].key@) == kk@;
                            assert(es0[w].key@.len() <= cap - 1);
                        }
                    }
                    assert(!batch_has(items@, kk@)) by {
                        if batch_has(items@, kk@) {
                            let w = choose|w: int|
                                0 <= w < items@.len() && (#[trigger] items@[w].key@) == kk@;
                            assert(items@[w].key@.len() <= cap - 1);
                        }
                    }
                }
                kk
            },
        };
        let ghost pre = items@;
        let item = ActionItem {
            key,
            action: EntryAction::Ins(Value { content: gen_vec(10, rng), entry_version: 0 }),
        };
        proof {
            assert(action_valid(es0, item.key@, item.action@));
            let post = pre.push(item);
            assert forall|a: int| 0 <= a < pre.len() implies pre[a].key@ != item.key@ by {
                if pre[a].key@ == item.key@ {
                    assert(batch_has(pre, item.key@));
                }
            }
            assert forall|a: int, b: int| 0 <= a < b < post.len() implies post[a].key@
                != post[b].key@ by {
                if b < pre.len() {
                    assert(pre[a].key@ != pre[b].key@);
                } else {
                    assert(post[b] == item);
                    assert(post[a] == pre[a]);
                }
            }
            assert forall|a: int| 0 <= a < post.len() implies action_valid(
                es0,
                post[a].key@,
                post[a].action@,
            ) by {
                if a < pre.len() {
                    assert(action_valid(es0, pre[a].key@, pre[a].action@));
                }
            }
        }
        items.push(item);
        k = k + 1;
    }
    items
}

/// Construct the storage side of the simulation with the given group
/// size: in the real network a group of routing nodes, here one steppable
/// participant.
pub fn new_routing_node(group_size: usize) -> (n: crate::network::TestNode)
    ensures
        n.wf(),
        n.min_section_size == group_size,
        n.idata@.len() == 0,
        n.mdata@.len() == 0,
        n.accounts@.len() == 0,
        n.pending@.len() == 0,
        n.events@.len() == 0,
{
    crate::network::TestNode::new(group_size)
}

/// Generate a random client authority together with its signing key.
pub fn gen_client_authority(rng: &mut TestRng) -> (r: (ClientAuthority, PublicKey))
    ensures
        r.1 == r.0.client_pub_id,
{
    let key = PublicKey(rng.gen_u64());
    let client = ClientAuthority { client_pub_id: key, proxy_node_name: Address(rng.gen_u64()) };
    (client, key)
}

/// Derive the manager authority for the client with the given signing key.
pub fn gen_client_manager_authority(client_key: PublicKey) -> (r: ClientManagerAuthority)
    ensures
        r.0 == spec_client_name_from_key(client_key),
{
    ClientManagerAuthority(client_name_from_key(&client_key))
}

} // verus!
