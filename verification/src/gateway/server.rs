//! What a connection decides, apart from reading and writing the socket.

use crate::core_types::events::Event;
use crate::core_types::ids::AccountId;
use crate::core_types::le;
use crate::gateway::buffer;
use crate::gateway::buffer::bytes_in;
use crate::gateway::codec;
use crate::gateway::codec::{Codec, CodecError, Front};
use crate::gateway::session;
use bytes::BytesMut;
use vstd::prelude::*;

verus! {

/// Why a client could not be identified.
#[derive(Debug, Clone, Copy, PartialEq, Eq, Structural)]
pub enum AuthError {
    Codec(CodecError),
    /// The payload is not an account number of eight bytes.
    BadPayload,
}

/// The account in the first frame of a connection.
pub open spec fn auth_result(bytes: Seq<u8>) -> Result<Option<AccountId>, AuthError> {
    match codec::front_of(bytes) {
        Front::Incomplete => Ok(None),
        Front::Malformed(e) => Err(AuthError::Codec(e)),
        Front::Frame { payload, .. } => if payload.len() != 8 {
            Err(AuthError::BadPayload)
        } else {
            Ok(Some(AccountId(session::field(payload, 0, 8))))
        },
    }
}

/// Takes the first frame of a connection from `buf`: its payload is the
/// number of the account, little-endian. `Ok(None)` means that the frame is
/// not complete yet. What follows the frame stays in the buffer.
pub fn read_auth_frame(buf: &mut BytesMut) -> (r: Result<Option<AccountId>, AuthError>)
    ensures
        r == auth_result(bytes_in(*old(buf))),
        bytes_in(*final(buf)) == match codec::front_of(bytes_in(*old(buf))) {
            Front::Frame { rest, .. } => rest,
            _ => bytes_in(*old(buf)),
        },
{
    let codec = Codec;
    match codec.decode(buf) {
        Ok(Some(frame)) => {
            if buffer::buffer_len(&frame.payload) != 8 {
                return Err(AuthError::BadPayload);
            }
            let payload = buffer::buffer_slice(&frame.payload);
            proof {
                le::law_le_bytes_roundtrip(payload@.subrange(0, 8));
                le::lemma_le_limits();
            }
            Ok(Some(AccountId::new(codec::read_le(payload, 0, 8))))
        },
        Ok(None) => Ok(None),
        Err(e) => Err(AuthError::Codec(e)),
    }
}

/// The accounts that hear of an event: the owner of the order, or both sides
/// of a trade, the incoming one first.
pub open spec fn event_recipients(ev: Event) -> Seq<AccountId> {
    match ev {
        Event::Accepted { account_id, .. } => seq![account_id],
        Event::Canceled { account_id, .. } => seq![account_id],
        Event::Rejected { account_id, .. } => seq![account_id],
        Event::Modified { account_id, .. } => seq![account_id],
        Event::Filled { fill, .. } => seq![fill.aggressor_account_id, fill.resting_account_id],
        Event::InstrumentHalted { .. } => Seq::empty(),
        Event::InstrumentResumed { .. } => Seq::empty(),
    }
}

/// The accounts that hear of an event.
pub fn recipients(ev: &Event) -> (accounts: Vec<AccountId>)
    ensures
        accounts@ == event_recipients(*ev),
{
    let mut accounts: Vec<AccountId> = Vec::new();
    match ev {
        Event::Accepted { account_id, .. } => accounts.push(*account_id),
        Event::Canceled { account_id, .. } => accounts.push(*account_id),
        Event::Rejected { account_id, .. } => accounts.push(*account_id),
        Event::Modified { account_id, .. } => accounts.push(*account_id),
        Event::Filled { fill, .. } => {
            accounts.push(fill.aggressor_account_id);
            accounts.push(fill.resting_account_id);
        },
        Event::InstrumentHalted { .. } => {},
        Event::InstrumentResumed { .. } => {},
    }
    assert(accounts@ =~= event_recipients(*ev));
    accounts
}

/// The accounts that hear of an event are exactly those whose sessions report
/// it to their clients.
pub proof fn law_recipients_get_reports(ev: Event, account: AccountId)
    ensures
        event_recipients(ev).contains(account) <==> session::Session::concerns(account, ev),
{
    let r = event_recipients(ev);
    if session::Session::concerns(account, ev) {
        if ev is Filled && r[0] != account {
            assert(r[1] == account);
        } else {
            assert(r[0] == account);
        }
    }
}

} // verus!
