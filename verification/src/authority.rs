//! Authority model: who is asking, and which management group must process a
//! client's mutations.
//!
//! Addresses and public keys are plain values of the simulation. The manager
//! address of a client is derived from its signing key by a fixed rule that
//! every participant can recompute, so for a given key there is exactly one
//! manager address, and distinct keys derive distinct addresses.

use vstd::prelude::*;

verus! {

/// A network address (the name of a node, a client or a data record).
#[derive(Clone, Copy, PartialEq, Eq, Structural, Debug)]
pub struct Address(pub u64);

/// A public signing key, opaque to the harness beyond comparison and
/// address derivation.
#[derive(Clone, Copy, PartialEq, Eq, Structural, Debug)]
pub struct PublicKey(pub u64);

/// The address a client's manager group is derived at: a fixed, injective
/// rule applied to the signing key, shared network-wide.
pub open spec fn spec_client_name_from_key(key: PublicKey) -> Address {
    Address(key.0)
}

/// Derive the manager address for a client signing key.
pub fn client_name_from_key(key: &PublicKey) -> (name: Address)
    ensures
        name == spec_client_name_from_key(*key),
{
    Address(key.0)
}

/// Deriving twice from the same key yields the same address, and distinct
/// keys always derive distinct addresses.
pub proof fn lemma_client_name_derivation(k1: PublicKey, k2: PublicKey)
    ensures
        k1 == k2 ==> spec_client_name_from_key(k1) == spec_client_name_from_key(k2),
        k1 != k2 ==> spec_client_name_from_key(k1) != spec_client_name_from_key(k2),
{
}

/// A client identity: the public key material plus the node relaying the
/// client's traffic.
#[derive(Clone, Copy, PartialEq, Eq, Structural, Debug)]
pub struct ClientAuthority {
    pub client_pub_id: PublicKey,
    pub proxy_node_name: Address,
}

impl ClientAuthority {
    /// The client's own network name, derived from its identity.
    pub fn name(&self) -> (name: Address)
        ensures
            name == spec_client_name_from_key(self.client_pub_id),
    {
        client_name_from_key(&self.client_pub_id)
    }

    /// The client's public signing key.
    pub fn client_key(&self) -> (key: PublicKey)
        ensures
            key == self.client_pub_id,
    {
        self.client_pub_id
    }
}

/// The management group responsible for a client's account and mutations,
/// addressed by the name derived from the client's signing key.
#[derive(Clone, Copy, PartialEq, Eq, Structural, Debug)]
pub struct ClientManagerAuthority(pub Address);

impl ClientManagerAuthority {
    /// The manager group's address.
    pub fn name(&self) -> (name: Address)
        ensures
            name == self.0,
    {
        self.0
    }
}

/// The network's generic addressing type: the source or destination of a
/// message.
#[derive(Clone, Copy, PartialEq, Eq, Structural, Debug)]
pub enum Authority {
    /// A single connected client, relayed by a proxy node.
    Client { client_pub_id: PublicKey, proxy_node_name: Address },
    /// The management group of the client whose name is given.
    ClientManager(Address),
    /// The group managing the data record whose name is given.
    NaeManager(Address),
}

impl Authority {
    /// The address this authority stands at.
    pub fn name(&self) -> (name: Address)
        ensures
            name == self.spec_name(),
    {
        match self {
            Authority::Client { client_pub_id, .. } => client_name_from_key(client_pub_id),
            Authority::ClientManager(name) => *name,
            Authority::NaeManager(name) => *name,
        }
    }

    /// The address this authority stands at.
    pub open spec fn spec_name(&self) -> Address {
        match self {
            Authority::Client { client_pub_id, .. } => spec_client_name_from_key(*client_pub_id),
            Authority::ClientManager(name) => *name,
            Authority::NaeManager(name) => *name,
        }
    }
}

impl From<ClientAuthority> for Authority {
    /// A client authority converts losslessly to the client variant.
    fn from(auth: ClientAuthority) -> (r: Authority)
        ensures
            r == (Authority::Client {
                client_pub_id: auth.client_pub_id,
                proxy_node_name: auth.proxy_node_name,
            }),
    {
        Authority::Client {
            client_pub_id: auth.client_pub_id,
            proxy_node_name: auth.proxy_node_name,
        }
    }
}

impl vstd::std_specs::convert::FromSpecImpl<ClientAuthority> for Authority {
    open spec fn obeys_from_spec() -> bool {
        true
    }

    open spec fn from_spec(auth: ClientAuthority) -> Authority {
        Authority::Client {
            client_pub_id: auth.client_pub_id,
            proxy_node_name: auth.proxy_node_name,
        }
    }
}

impl From<ClientManagerAuthority> for Authority {
    /// A manager authority converts losslessly to the manager variant.
    fn from(auth: ClientManagerAuthority) -> (r: Authority)
        ensures
            r == Authority::ClientManager(auth.0),
    {
        Authority::ClientManager(auth.0)
    }
}

impl vstd::std_specs::convert::FromSpecImpl<ClientManagerAuthority> for Authority {
    open spec fn obeys_from_spec() -> bool {
        true
    }

    open spec fn from_spec(auth: ClientManagerAuthority) -> Authority {
        Authority::ClientManager(auth.0)
    }
}

} // verus!
