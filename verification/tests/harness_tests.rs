use sim_harness::account::{
    account_login_entry_key, decode_account_packet, encode_account_packet, AccountPacket,
};
use sim_harness::authority::{Address, Authority, ClientAuthority, ClientManagerAuthority, PublicKey};
use sim_harness::data::{ClientError, Entry, ImmutableData, PermissionSet, User, Value};
use sim_harness::mdata::{ActionKind, EntryAction, EntryActions, MutableData};
use sim_harness::network::{Event, Response, TestNode};
use sim_harness::rng::TestRng;
use sim_harness::test_client::{correlates, FullId, TestClient};
use sim_harness::test_utils::{
    gen_client_authority, gen_client_manager_authority, gen_immutable_data, gen_mutable_data,
    gen_mutable_data_entries, gen_mutable_data_entry, gen_mutable_data_entry_actions, gen_vec,
    iterations,
};
use sim_harness::TYPE_TAG_SESSION_PACKET;

fn connected_client(seed: u64, node: &mut TestNode) -> TestClient {
    let mut rng = TestRng::new(seed);
    let mut client = TestClient::new(&mut rng);
    client.ensure_connected(node);
    assert!(client.connected);
    client
}

fn find_value<'a>(entries: &'a [Entry], key: &[u8]) -> Option<&'a Value> {
    entries.iter().find(|e| e.key.as_slice() == key).map(|e| &e.value)
}

#[test]
fn iterations_quick_and_full() {
    assert_eq!(iterations(true), 4);
    assert_eq!(iterations(false), 10);
}

#[test]
fn gen_vec_has_requested_length() {
    let mut rng = TestRng::new(1);
    let v = gen_vec(17, &mut rng);
    assert_eq!(v.len(), 17);
    assert_eq!(gen_vec(0, &mut rng).len(), 0);
}

#[test]
fn gen_entry_respects_bounds() {
    let mut rng = TestRng::new(2);
    for _ in 0..50 {
        let (key, value) = gen_mutable_data_entry(&mut rng);
        assert!(1 <= key.len() && key.len() < 10);
        assert!(1 <= value.content.len() && value.content.len() < 10);
        assert_eq!(value.entry_version, 0);
    }
}

#[test]
fn generated_records_have_version_zero_and_distinct_keys() {
    let mut rng = TestRng::new(3);
    let owner = PublicKey(7);
    let data = gen_mutable_data(10000, 40, owner, &mut rng);
    assert_eq!(data.tag(), 10000);
    assert_eq!(data.version(), 0);
    assert_eq!(data.owners().as_slice(), &[owner]);
    let entries = data.entries();
    assert_eq!(entries.len(), 40);
    for (i, e) in entries.iter().enumerate() {
        assert_eq!(e.value.entry_version, 0);
        for other in entries.iter().skip(i + 1) {
            assert_ne!(e.key, other.key);
        }
    }
}

#[test]
fn generated_entry_sets_are_distinct() {
    let mut rng = TestRng::new(4);
    let entries = gen_mutable_data_entries(60, &mut rng);
    assert_eq!(entries.len(), 60);
    for (i, e) in entries.iter().enumerate() {
        assert_eq!(e.value.entry_version, 0);
        for other in entries.iter().skip(i + 1) {
            assert_ne!(e.key, other.key);
        }
    }
}

#[test]
fn generated_batches_are_valid_and_exact() {
    let mut rng = TestRng::new(5);
    let owner = PublicKey(9);
    let data = gen_mutable_data(10000, 25, owner, &mut rng);
    let count = 30;
    let actions = gen_mutable_data_entry_actions(&data, count, &mut rng);
    assert_eq!(actions.len(), count);
    for (i, a) in actions.iter().enumerate() {
        for other in actions.iter().skip(i + 1) {
            assert_ne!(a.key, other.key);
        }
        match &a.action {
            EntryAction::Ins(v) => {
                assert!(find_value(data.entries(), &a.key).is_none());
                assert_eq!(v.entry_version, 0);
            }
            EntryAction::Update(v) => {
                let cur = find_value(data.entries(), &a.key).expect("update targets present key");
                assert_eq!(v.entry_version, cur.entry_version + 1);
            }
            EntryAction::Del(ver) => {
                let cur = find_value(data.entries(), &a.key).expect("delete targets present key");
                assert_eq!(*ver, cur.entry_version + 1);
            }
        }
    }
}

#[test]
fn oversized_insert_count_still_terminates() {
    let mut rng = TestRng::new(6);
    let owner = PublicKey(11);
    let data = gen_mutable_data(10000, 5, owner, &mut rng);
    let actions = gen_mutable_data_entry_actions(&data, 500, &mut rng);
    assert_eq!(actions.len(), 500);
    for (i, a) in actions.iter().enumerate() {
        for other in actions.iter().skip(i + 1) {
            assert_ne!(a.key, other.key);
        }
    }
}

#[test]
fn manager_address_derivation_is_deterministic_and_injective() {
    let a = gen_client_manager_authority(PublicKey(42));
    let b = gen_client_manager_authority(PublicKey(42));
    let c = gen_client_manager_authority(PublicKey(43));
    assert_eq!(a.name(), b.name());
    assert_ne!(a.name(), c.name());
}

#[test]
fn client_authority_reports_its_key_and_name() {
    let mut rng = TestRng::new(7);
    let (auth, key) = gen_client_authority(&mut rng);
    assert_eq!(auth.client_key(), key);
    let converted: Authority = auth.clone().into();
    match converted {
        Authority::Client { client_pub_id, .. } => assert_eq!(client_pub_id, key),
        _ => panic!("expected client authority"),
    }
    let mgr: Authority = ClientManagerAuthority(Address(5)).into();
    assert_eq!(mgr, Authority::ClientManager(Address(5)));
    assert_eq!(mgr.name(), Address(5));
}

#[test]
fn immutable_data_is_content_addressed() {
    let d1 = ImmutableData::new(vec![1, 2, 3]);
    let d2 = ImmutableData::new(vec![1, 2, 3]);
    let d3 = ImmutableData::new(vec![1, 2, 4]);
    assert_eq!(d1.name(), d2.name());
    assert_ne!(d1.name(), d3.name());
    assert_eq!(d1.value().as_slice(), &[1, 2, 3]);
}

#[test]
fn idata_round_trip_returns_identical_bytes() {
    let mut node = TestNode::new(8);
    let mut client = connected_client(100, &mut node);
    client.create_account(&mut node).expect("account creation");
    let mut rng = TestRng::new(8);
    let blob = gen_immutable_data(100, &mut rng);
    let bytes = blob.value().clone();
    let name = blob.name();
    client.put_idata_response(blob, &mut node).expect("store");
    let fetched = client.get_idata_response(name, &mut node).expect("fetch");
    assert_eq!(fetched.value(), &bytes);
}

#[test]
fn fetching_unknown_idata_reports_no_such_data() {
    let mut node = TestNode::new(8);
    let mut client = connected_client(101, &mut node);
    let r = client.get_idata_response(Address(12345), &mut node);
    assert!(matches!(r, Err(ClientError::NoSuchData)));
}

#[test]
fn oversized_idata_is_rejected_as_invalid_operation() {
    let mut node = TestNode::new(8);
    let mut client = connected_client(102, &mut node);
    let blob = ImmutableData::new(vec![0u8; 1048577]);
    let r = client.put_large_sized_idata(blob, &mut node);
    assert_eq!(r, Err(ClientError::InvalidOperation));
}

#[test]
fn create_account_opens_exactly_one_account() {
    let mut node = TestNode::new(8);
    let mut client = connected_client(103, &mut node);
    let info_before = client.get_account_info_response(&mut node);
    assert!(matches!(info_before, Err(ClientError::NoSuchAccount)));
    client.create_account(&mut node).expect("account creation");
    let info = client.get_account_info_response(&mut node).expect("account info");
    assert_eq!(info.mutations_done, 1);
    assert_eq!(info.mutations_available, 999);
    let again = client.create_account(&mut node);
    assert_eq!(again, Err(ClientError::AccountExists));
}

#[test]
fn session_packet_record_carries_the_invitation() {
    let mut node = TestNode::new(8);
    let mut client = connected_client(104, &mut node);
    let owner = *client.signing_public_key();
    let invitation = b"golden-ticket".to_vec();
    let content = encode_account_packet(&AccountPacket::WithInvitation {
        invitation: invitation.clone(),
    });
    let entry = Entry {
        key: account_login_entry_key(),
        value: Value { content, entry_version: 0 },
    };
    let name = Address(777);
    let data = MutableData::new(name, TYPE_TAG_SESSION_PACKET, Vec::new(), vec![entry], vec![owner])
        .expect("record");
    client.put_mdata_response(data, &mut node).expect("store session packet");

    let entries = client
        .list_mdata_entries_response(name, TYPE_TAG_SESSION_PACKET, &mut node)
        .expect("list entries");
    assert_eq!(entries.len(), 1);
    assert_eq!(entries[0].key, account_login_entry_key());
    assert_eq!(entries[0].value.entry_version, 0);
    match decode_account_packet(&entries[0].value.content) {
        Some(AccountPacket::WithInvitation { invitation: got }) => assert_eq!(got, invitation),
        other => panic!("unexpected packet: {:?}", other),
    }

    let shell = client
        .get_mdata_shell_response(name, TYPE_TAG_SESSION_PACKET, &mut node)
        .expect("shell");
    assert_eq!(shell.tag(), TYPE_TAG_SESSION_PACKET);
    assert_eq!(shell.owners().as_slice(), &[owner]);
    assert_eq!(shell.entries().len(), 0);
}

#[test]
fn account_packet_round_trips() {
    let p = AccountPacket::WithInvitation { invitation: vec![1, 2, 3] };
    let bytes = encode_account_packet(&p);
    match decode_account_packet(&bytes) {
        Some(AccountPacket::WithInvitation { invitation }) => assert_eq!(invitation, vec![1, 2, 3]),
        other => panic!("unexpected packet: {:?}", other),
    }
    let q = AccountPacket::AccPkt(vec![9]);
    let bytes = encode_account_packet(&q);
    match decode_account_packet(&bytes) {
        Some(AccountPacket::AccPkt(b)) => assert_eq!(b, vec![9]),
        other => panic!("unexpected packet: {:?}", other),
    }
    assert!(decode_account_packet(&Vec::new()).is_none());
    assert!(decode_account_packet(&vec![7, 7]).is_none());
}

#[test]
fn generated_batch_mutates_record_exactly() {
    let mut node = TestNode::new(8);
    let mut client = connected_client(105, &mut node);
    client.create_account(&mut node).expect("account creation");
    let owner = *client.signing_public_key();
    let mut rng = TestRng::new(9);
    let data = gen_mutable_data(10000, 10, owner, &mut rng);
    let name = data.name();
    let tag = data.tag();
    let before = data.entries().iter().map(|e| (e.key.clone(), e.value.entry_version)).collect::<Vec<_>>();
    let actions = gen_mutable_data_entry_actions(&data, 12, &mut rng);
    assert_eq!(actions.len(), 12);
    client.put_mdata_response(data, &mut node).expect("store record");
    client
        .mutate_mdata_entries_response(name, tag, clone_actions(&actions), &mut node)
        .expect("mutation succeeds");

    let after = client.list_mdata_entries_response(name, tag, &mut node).expect("list entries");
    for a in &actions {
        match &a.action {
            EntryAction::Ins(v) => {
                let got = find_value(&after, &a.key).expect("inserted key present");
                assert_eq!(got.content, v.content);
                assert_eq!(got.entry_version, 0);
            }
            EntryAction::Update(v) => {
                let got = find_value(&after, &a.key).expect("updated key present");
                assert_eq!(got.content, v.content);
                assert_eq!(got.entry_version, v.entry_version);
                let old_version = before
                    .iter()
                    .find(|(k, _)| *k == a.key)
                    .map(|(_, ver)| *ver)
                    .expect("updated key existed");
                assert_eq!(got.entry_version, old_version + 1);
            }
            EntryAction::Del(_) => {
                assert!(find_value(&after, &a.key).is_none());
            }
        }
    }
    for (key, ver) in &before {
        if !actions.iter().any(|a| a.key == *key) {
            let got = find_value(&after, key).expect("untargeted key kept");
            assert_eq!(got.entry_version, *ver);
        }
    }
}

fn clone_actions(
    actions: &[sim_harness::mdata::ActionItem],
) -> Vec<sim_harness::mdata::ActionItem> {
    actions
        .iter()
        .map(|a| sim_harness::mdata::ActionItem {
            key: a.key.clone(),
            action: match &a.action {
                EntryAction::Ins(v) => EntryAction::Ins(Value {
                    content: v.content.clone(),
                    entry_version: v.entry_version,
                }),
                EntryAction::Update(v) => EntryAction::Update(Value {
                    content: v.content.clone(),
                    entry_version: v.entry_version,
                }),
                EntryAction::Del(ver) => EntryAction::Del(*ver),
            },
        })
        .collect()
}

#[test]
fn stale_version_mutation_is_rejected() {
    let mut node = TestNode::new(8);
    let mut client = connected_client(106, &mut node);
    let owner = *client.signing_public_key();
    let entry = Entry {
        key: vec![1],
        value: Value { content: vec![2], entry_version: 0 },
    };
    let data = MutableData::new(Address(50), 10000, Vec::new(), vec![entry], vec![owner])
        .expect("record");
    client.put_mdata_response(data, &mut node).expect("store record");
    // An update must carry version current + 1; carrying the current
    // version instead breaks the batch.
    let actions = EntryActions::new().update(vec![1], vec![3], 0).into_actions();
    let r = client.mutate_mdata_entries_response(Address(50), 10000, actions, &mut node);
    assert_eq!(r, Err(ClientError::InvalidEntryActions));
}

#[test]
fn non_owner_without_permission_is_denied() {
    let mut node = TestNode::new(8);
    let mut owner_client = connected_client(107, &mut node);
    let owner = *owner_client.signing_public_key();
    let data = MutableData::new(Address(60), 10000, Vec::new(), Vec::new(), vec![owner])
        .expect("record");
    owner_client.put_mdata_response(data, &mut node).expect("store record");

    let mut other = connected_client(108, &mut node);
    let actions = EntryActions::new().ins(vec![5], vec![6], 0).into_actions();
    let r = other.mutate_mdata_entries_response(Address(60), 10000, actions, &mut node);
    assert_eq!(r, Err(ClientError::AccessDenied));
}

#[test]
fn user_permissions_grant_and_revoke() {
    let mut node = TestNode::new(8);
    let mut owner_client = connected_client(109, &mut node);
    let owner = *owner_client.signing_public_key();
    let data = MutableData::new(Address(70), 10000, Vec::new(), Vec::new(), vec![owner])
        .expect("record");
    owner_client.put_mdata_response(data, &mut node).expect("store record");

    let mut app = connected_client(110, &mut node);
    let app_key = *app.signing_public_key();

    let mut perms = PermissionSet::new();
    perms.insert = true;
    owner_client
        .set_mdata_user_permissions_response(Address(70), 10000, User::Key(app_key), perms, 1, &mut node)
        .expect("set permissions");
    let got = owner_client
        .list_mdata_user_permissions_response(Address(70), 10000, User::Key(app_key), &mut node)
        .expect("list user permissions");
    assert_eq!(got, perms);
    let all = owner_client
        .list_mdata_permissions_response(Address(70), 10000, &mut node)
        .expect("list permissions");
    assert_eq!(all.len(), 1);
    assert_eq!(all[0].user, User::Key(app_key));

    let actions = EntryActions::new().ins(vec![5], vec![6], 0).into_actions();
    app.mutate_mdata_entries_response(Address(70), 10000, actions, &mut node)
        .expect("granted insert succeeds");

    let version = owner_client
        .get_mdata_version_response(Address(70), 10000, &mut node)
        .expect("version");
    assert_eq!(version, 1);

    owner_client
        .del_mdata_user_permissions_response(Address(70), 10000, User::Key(app_key), 2, &mut node)
        .expect("del permissions");
    let actions = EntryActions::new().ins(vec![7], vec![8], 0).into_actions();
    let r = app.mutate_mdata_entries_response(Address(70), 10000, actions, &mut node);
    assert_eq!(r, Err(ClientError::AccessDenied));
}

#[test]
fn owner_change_requires_successor_version() {
    let mut node = TestNode::new(8);
    let mut client = connected_client(111, &mut node);
    let owner = *client.signing_public_key();
    let data = MutableData::new(Address(80), 10000, Vec::new(), Vec::new(), vec![owner])
        .expect("record");
    client.put_mdata_response(data, &mut node).expect("store record");

    let r = client.change_mdata_owner_response(Address(80), 10000, vec![PublicKey(1)], 5, &mut node);
    assert_eq!(r, Err(ClientError::InvalidSuccessor));
    let r = client.change_mdata_owner_response(Address(80), 10000, vec![PublicKey(1), PublicKey(2)], 1, &mut node);
    assert_eq!(r, Err(ClientError::InvalidOwners));
    client
        .change_mdata_owner_response(Address(80), 10000, vec![PublicKey(1)], 1, &mut node)
        .expect("owner change");
    let shell = client.get_mdata_shell_response(Address(80), 10000, &mut node).expect("shell");
    assert_eq!(shell.owners().as_slice(), &[PublicKey(1)]);
    assert_eq!(shell.version(), 1);
}

#[test]
fn storing_the_same_record_identity_twice_fails() {
    let mut node = TestNode::new(8);
    let mut client = connected_client(112, &mut node);
    let owner = *client.signing_public_key();
    let data = MutableData::new(Address(90), 10000, Vec::new(), Vec::new(), vec![owner])
        .expect("record");
    client.put_mdata_response(data, &mut node).expect("store record");
    let again = MutableData::new(Address(90), 10000, Vec::new(), Vec::new(), vec![owner])
        .expect("record");
    let r = client.put_mdata_response(again, &mut node);
    assert_eq!(r, Err(ClientError::DataExists));
}

#[test]
fn record_with_foreign_owner_set_is_rejected() {
    let mut node = TestNode::new(8);
    let mut client = connected_client(113, &mut node);
    let data = MutableData::new(Address(95), 10000, Vec::new(), Vec::new(), vec![PublicKey(1234)])
        .expect("record");
    let r = client.put_mdata_response(data, &mut node);
    assert_eq!(r, Err(ClientError::InvalidOwners));
}

#[test]
fn missing_entry_reports_no_such_entry() {
    let mut node = TestNode::new(8);
    let mut client = connected_client(114, &mut node);
    let owner = *client.signing_public_key();
    let data = MutableData::new(Address(96), 10000, Vec::new(), Vec::new(), vec![owner])
        .expect("record");
    client.put_mdata_response(data, &mut node).expect("store record");
    let r = client.get_mdata_value_response(Address(96), 10000, vec![1, 2], &mut node);
    assert!(matches!(r, Err(ClientError::NoSuchEntry)));
    let r = client.get_mdata_value_response(Address(97), 10000, vec![1, 2], &mut node);
    assert!(matches!(r, Err(ClientError::NoSuchData)));
}

#[test]
fn auth_keys_are_versioned_and_set_like() {
    let mut node = TestNode::new(8);
    let mut client = connected_client(115, &mut node);
    let r = client.ins_auth_key_response(PublicKey(5), 1, &mut node);
    assert_eq!(r, Err(ClientError::NoSuchAccount));
    client.create_account(&mut node).expect("account creation");
    let r = client.ins_auth_key_response(PublicKey(5), 7, &mut node);
    assert_eq!(r, Err(ClientError::InvalidSuccessor));
    client.ins_auth_key_response(PublicKey(5), 1, &mut node).expect("first key");
    client.ins_auth_key_response(PublicKey(6), 2, &mut node).expect("second key");
    let (keys, version) = client.list_auth_keys_and_version_response(&mut node).expect("list");
    assert_eq!(version, 2);
    assert_eq!(keys, vec![PublicKey(5), PublicKey(6)]);
}

#[test]
fn correlation_is_by_message_identifier_alone() {
    let response = Response::PutIData { res: Ok(()), msg_id: 42 };
    let matching = Event::Response {
        response,
        src: Authority::ClientManager(Address(1)),
    };
    assert!(correlates(42, &matching));
    assert!(!correlates(43, &matching));
    assert!(!correlates(42, &Event::Connected));
    assert!(!correlates(42, &Event::Terminate));
}

#[test]
fn duplicate_wait_for_result_never_crosses_identifiers() {
    // Two successive waits each draw a fresh identifier; the simulation
    // answers each request under its own identifier, so neither call can
    // observe the other's response first.
    let mut node = TestNode::new(8);
    let mut client = connected_client(116, &mut node);
    client.create_account(&mut node).expect("account creation");
    let first_id = client.next_msg_id;
    client
        .put_idata_response(ImmutableData::new(vec![1]), &mut node)
        .expect("first store");
    let second_id = client.next_msg_id;
    client
        .put_idata_response(ImmutableData::new(vec![2]), &mut node)
        .expect("second store");
    assert_ne!(first_id, second_id);
}

#[test]
fn fire_and_forget_then_manual_poll() {
    let mut node = TestNode::new(8);
    let mut client = connected_client(117, &mut node);
    let blob = ImmutableData::new(vec![1, 2, 3]);
    let msg_id = client.put_idata(blob, &mut node);
    let rounds = client.poll(&mut node);
    assert_eq!(rounds, 1);
    match client.try_recv(&mut node) {
        Some(Event::Response { response: Response::PutIData { res, msg_id: m }, .. }) => {
            assert_eq!(m, msg_id);
            assert_eq!(res, Ok(()));
        }
        other => panic!("unexpected event: {:?}", other),
    }
    assert!(client.try_recv(&mut node).is_none());
    assert!(!client.poll_once(&mut node));
}

#[test]
fn set_client_manager_rebinds_mutation_target() {
    let mut node = TestNode::new(8);
    let mut owner_client = connected_client(118, &mut node);
    owner_client.create_account(&mut node).expect("account creation");
    let owner_manager = owner_client.client_manager.name();

    let mut app = connected_client(119, &mut node);
    app.set_client_manager(owner_manager);
    assert_eq!(app.client_manager, Authority::ClientManager(owner_manager));
    // Addressed at the owner's manager, the app sees the owner's account.
    let info = app.get_account_info_response(&mut node).expect("account info");
    assert_eq!(info.mutations_done, 1);
}

#[test]
fn with_id_builds_the_expected_identity() {
    let rng = TestRng::new(11);
    let client = TestClient::with_id(FullId { key: PublicKey(21) }, rng);
    assert_eq!(client.full_id().key, PublicKey(21));
    assert_eq!(*client.signing_public_key(), PublicKey(21));
    assert_eq!(client.name(), gen_client_manager_authority(PublicKey(21)).name());
    assert!(!client.connected);
}

#[test]
fn entry_actions_builder_collects_in_order() {
    let actions = EntryActions::new()
        .ins(vec![1], vec![10], 0)
        .update(vec![2], vec![20], 3)
        .del(vec![3], 4)
        .into_actions();
    assert_eq!(actions.len(), 3);
    assert_eq!(actions[0].key, vec![1]);
    assert!(matches!(&actions[0].action, EntryAction::Ins(v) if v.content == vec![10] && v.entry_version == 0));
    assert!(matches!(&actions[1].action, EntryAction::Update(v) if v.content == vec![20] && v.entry_version == 3));
    assert!(matches!(&actions[2].action, EntryAction::Del(4)));
}

#[test]
fn record_permission_checks_follow_the_rules() {
    let owner = PublicKey(1);
    let stranger = PublicKey(2);
    let mut perms = PermissionSet::new();
    perms.update = true;
    let rule = sim_harness::data::UserPermission { user: User::Anyone, permissions: perms };
    let data = MutableData::new(Address(1), 0, vec![rule], Vec::new(), vec![owner]).expect("record");
    assert!(data.is_action_allowed(&owner, ActionKind::Delete));
    assert!(data.is_action_allowed(&stranger, ActionKind::Update));
    assert!(!data.is_action_allowed(&stranger, ActionKind::Insert));
}

#[test]
fn new_routing_node_starts_empty() {
    let node = sim_harness::test_utils::new_routing_node(5);
    assert_eq!(node.min_section_size, 5);
    assert_eq!(node.idata.len(), 0);
    assert_eq!(node.mdata.len(), 0);
    assert_eq!(node.accounts.len(), 0);
    assert_eq!(node.pending.len(), 0);
    assert_eq!(node.events.len(), 0);
}

#[test]
fn put_idata_with_chosen_message_identifier() {
    let mut node = TestNode::new(8);
    let mut client = connected_client(120, &mut node);
    let blob = ImmutableData::new(vec![4, 5]);
    let r = client.put_idata_response_with_msg_id(blob, 9999, &mut node);
    assert_eq!(r, Ok(()));
    let fetched = client
        .get_idata_response(ImmutableData::new(vec![4, 5]).name(), &mut node)
        .expect("fetch");
    assert_eq!(fetched.value().as_slice(), &[4, 5]);
}

#[test]
fn put_idata_may_response_reports_the_outcome() {
    let mut node = TestNode::new(8);
    let mut client = connected_client(121, &mut node);
    let r = client.put_idata_may_response(ImmutableData::new(vec![6]), &mut node);
    assert_eq!(r, Ok(()));
}

#[test]
fn queued_mutation_answers_under_its_own_identifier() {
    let mut node = TestNode::new(8);
    let mut client = connected_client(122, &mut node);
    let owner = *client.signing_public_key();
    let data = MutableData::new(Address(600), 10000, Vec::new(), Vec::new(), vec![owner])
        .expect("record");
    client.put_mdata_response(data, &mut node).expect("store record");
    let actions = EntryActions::new().ins(vec![1], vec![2], 0).into_actions();
    let msg_id = client.mutate_mdata_entries(Address(600), 10000, actions, &mut node);
    let rounds = client.poll(&mut node);
    assert_eq!(rounds, 1);
    let ev = client.try_recv(&mut node).expect("one event");
    assert!(correlates(msg_id, &ev));
    assert!(!correlates(msg_id + 1, &ev));
    match ev {
        Event::Response { response: Response::MutateMDataEntries { res, msg_id: m }, .. } => {
            assert_eq!(m, msg_id);
            assert_eq!(res, Ok(()));
        }
        other => panic!("unexpected event: {:?}", other),
    }
}

#[test]
fn create_account_with_invitation_waits_and_stores() {
    let mut node = TestNode::new(8);
    let mut client = connected_client(123, &mut node);
    let invitation = b"invite-123".to_vec();
    client
        .create_account_with_invitation_response(&invitation, &mut node)
        .expect("account creation with invitation");
    let info = client.get_account_info_response(&mut node).expect("account info");
    assert_eq!(info.mutations_done, 1);
}

#[test]
fn create_account_with_invitation_fire_and_forget() {
    let mut node = TestNode::new(8);
    let mut client = connected_client(124, &mut node);
    let invitation = b"invite-456".to_vec();
    let msg_id = client.create_account_with_invitation(&invitation, &mut node);
    let _ = client.poll(&mut node);
    let ev = client.try_recv(&mut node).expect("one event");
    assert!(correlates(msg_id, &ev));
    match ev {
        Event::Response { response: Response::PutMData { res, .. }, .. } => assert_eq!(res, Ok(())),
        other => panic!("unexpected event: {:?}", other),
    }
}

#[test]
fn del_auth_key_of_unknown_key_fails() {
    let mut node = TestNode::new(8);
    let mut client = connected_client(125, &mut node);
    client.create_account(&mut node).expect("account creation");
    client.ins_auth_key_response(PublicKey(5), 1, &mut node).expect("insert key");
    let msg_id = client.del_auth_key(PublicKey(99), 2, &mut node);
    let _ = client.poll(&mut node);
    let ev = client.try_recv(&mut node).expect("one event");
    assert!(correlates(msg_id, &ev));
    match ev {
        Event::Response { response: Response::DelAuthKey { res, .. }, .. } => {
            assert_eq!(res, Err(ClientError::NoSuchKey));
        }
        other => panic!("unexpected event: {:?}", other),
    }
    client.del_auth_key(PublicKey(5), 2, &mut node);
    let _ = client.poll(&mut node);
    let ev = client.try_recv(&mut node).expect("one event");
    match ev {
        Event::Response { response: Response::DelAuthKey { res, .. }, .. } => assert_eq!(res, Ok(())),
        other => panic!("unexpected event: {:?}", other),
    }
    let (keys, version) = client.list_auth_keys_and_version_response(&mut node).expect("list");
    assert_eq!(version, 2);
    assert!(keys.is_empty());
}

#[test]
fn insert_carrying_nonzero_version_is_rejected() {
    let mut node = TestNode::new(8);
    let mut client = connected_client(126, &mut node);
    let owner = *client.signing_public_key();
    let data = MutableData::new(Address(700), 10000, Vec::new(), Vec::new(), vec![owner])
        .expect("record");
    client.put_mdata_response(data, &mut node).expect("store record");
    let actions = EntryActions::new().ins(vec![1], vec![2], 5).into_actions();
    let r = client.mutate_mdata_entries_response(Address(700), 10000, actions, &mut node);
    assert_eq!(r, Err(ClientError::InvalidEntryActions));
}

#[test]
fn flush_keeps_other_clients_events() {
    let mut node = TestNode::new(8);
    let mut first = connected_client(127, &mut node);
    let mut second = connected_client(128, &mut node);
    // Queue a request for the first client and answer it, so its response
    // sits in the queue.
    let msg_id = first.put_idata(ImmutableData::new(vec![1]), &mut node);
    let _ = first.poll(&mut node);
    // A read by the second client drains only its own stale events.
    let r = second.get_idata_response(Address(424242), &mut node);
    assert!(matches!(r, Err(ClientError::NoSuchData)));
    // The first client's response is still there.
    let ev = first.try_recv(&mut node).expect("response kept");
    assert!(correlates(msg_id, &ev));
}
