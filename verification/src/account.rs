//! The session-packet payload: an opaque account packet, optionally
//! carrying an invitation, framed as bytes for storage under the reserved
//! login entry of the session-packet record.

use vstd::prelude::*;

verus! {

/// The key of the reserved login entry of a session-packet record.
pub open spec fn spec_login_key() -> Seq<u8> {
    seq![76u8, 111u8, 103u8, 105u8, 110u8]
}

/// The key of the reserved login entry ("Login" in bytes).
pub fn account_login_entry_key() -> (k: Vec<u8>)
    ensures
        k@ == spec_login_key(),
{
    let mut k: Vec<u8> = Vec::new();
    k.push(76);
    k.push(111);
    k.push(103);
    k.push(105);
    k.push(110);
    proof {
        assert(k@ =~= spec_login_key());
    }
    k
}

/// The payload stored under the login entry at account creation.
#[derive(Debug)]
pub enum AccountPacket {
    /// A plain account packet.
    AccPkt(Vec<u8>),
    /// An account packet created with an invitation.
    WithInvitation {
        /// The opaque invitation payload.
        invitation: Vec<u8>,
    },
}

/// The mathematical model of an account packet.
pub enum AccountPacketView {
    /// A plain account packet.
    AccPkt(Seq<u8>),
    /// An account packet created with an invitation.
    WithInvitation { invitation: Seq<u8> },
}

impl View for AccountPacket {
    type V = AccountPacketView;

    open spec fn view(&self) -> AccountPacketView {
        match self {
            AccountPacket::AccPkt(b) => AccountPacketView::AccPkt(b@),
            AccountPacket::WithInvitation { invitation } => AccountPacketView::WithInvitation {
                invitation: invitation@,
            },
        }
    }
}

/// The byte framing of an account packet: one variant byte, then the
/// payload.
pub open spec fn spec_encode_account_packet(p: AccountPacketView) -> Seq<u8> {
    match p {
        AccountPacketView::AccPkt(b) => seq![0u8] + b,
        AccountPacketView::WithInvitation { invitation } => seq![1u8] + invitation,
    }
}

/// The packet a byte sequence frames, if any.
pub open spec fn spec_decode_account_packet(bytes: Seq<u8>) -> Option<AccountPacketView> {
    if bytes.len() >= 1 && bytes[0] == 0u8 {
        Some(AccountPacketView::AccPkt(bytes.subrange(1, bytes.len() as int)))
    } else if bytes.len() >= 1 && bytes[0] == 1u8 {
        Some(
            AccountPacketView::WithInvitation {
                invitation: bytes.subrange(1, bytes.len() as int),
            },
        )
    } else {
        None
    }
}

/// Decoding an encoded packet gives the packet back: the framing loses
/// nothing.
pub proof fn lemma_account_packet_round_trip(p: AccountPacketView)
    ensures
        spec_decode_account_packet(spec_encode_account_packet(p)) == Some(p),
{
    match p {
        AccountPacketView::AccPkt(b) => {
            let e = seq![0u8] + b;
            assert(e[0] == 0u8);
            assert(e.subrange(1, e.len() as int) =~= b);
        },
        AccountPacketView::WithInvitation { invitation } => {
            let e = seq![1u8] + invitation;
            assert(e[0] == 1u8);
            assert(e.subrange(1, e.len() as int) =~= invitation);
        },
    }
}

/// Frame an account packet as bytes.
pub fn encode_account_packet(p: &AccountPacket) -> (r: Vec<u8>)
    ensures
        r@ == spec_encode_account_packet(p@),
{
    let mut r: Vec<u8> = Vec::new();
    match p {
        AccountPacket::AccPkt(b) => {
            r.push(0);
            let mut i: usize = 0;
            while i < b.len()
                invariant
                    i <= b@.len(),
                    r@ == seq![0u8] + b@.subrange(0, i as int),
                decreases b@.len() - i,
            {
                r.push(b[i]);
                proof {
                    assert(r@ =~= seq![0u8] + b@.subrange(0, i + 1));
                }
                i = i + 1;
            }
            proof {
                assert(r@ =~= seq![0u8] + b@);
            }
        },
        AccountPacket::WithInvitation { invitation } => {
            r.push(1);
            let mut i: usize = 0;
            while i < invitation.len()
                invariant
                    i <= invitation@.len(),
                    r@ == seq![1u8] + invitation@.subrange(0, i as int),
                decreases invitation@.len() - i,
            {
                r.push(invitation[i]);
                proof {
                    assert(r@ =~= seq![1u8] + invitation@.subrange(0, i + 1));
                }
                i = i + 1;
            }
            proof {
                assert(r@ =~= seq![1u8] + invitation@);
            }
        },
    }
    r
}

/// Read an account packet back from its byte framing.
pub fn decode_account_packet(bytes: &Vec<u8>) -> (r: Option<AccountPacket>)
    ensures
        match r {
            Some(p) => spec_decode_account_packet(bytes@) == Some(p@),
            None => spec_decode_account_packet(bytes@) is None,
        },
{
    if bytes.len() == 0 {
        return None;
    }
    let tag = bytes[0];
    if tag > 1 {
        return None;
    }
    let mut payload: Vec<u8> = Vec::new();
    let mut i: usize = 1;
    proof {
        assert(payload@ =~= bytes@.subrange(1, 1));
    }
    while i < bytes.len()
        invariant
            1 <= i <= bytes@.len(),
            payload@ == bytes@.subrange(1, i as int),
        decreases bytes@.len() - i,
    {
        payload.push(bytes[i]);
        proof {
            assert(payload@ =~= bytes@.subrange(1, i + 1));
        }
        i = i + 1;
    }
    proof {
        assert(payload@ =~= bytes@.subrange(1, bytes@.len() as int));
    }
    if tag == 0 {
        Some(AccountPacket::AccPkt(payload))
    } else {
        Some(AccountPacket::WithInvitation { invitation: payload })
    }
}

} // verus!
