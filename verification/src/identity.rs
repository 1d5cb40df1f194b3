//! Who owns what: the transport's client identifiers, and the identity of the
//! simulation instance this code runs in.

use bevy_renet::renet::ClientId;
use vstd::prelude::*;

verus! {

/// The raw value the authority itself is known by.
pub const AUTHORITY_RAW_ID: u64 = 0;

#[verifier::external_type_specification]
#[verifier::external_body]
pub struct ExClientId(ClientId);

/// The 64-bit value a [`ClientId`] wraps.
///
/// `renet` keeps the value in a private field; this is the model of that
/// field. Two identifiers are the same client exactly when their raw values
/// agree.
pub uninterp spec fn client_id_raw(id: ClientId) -> u64;

/// `ClientId::raw` reads the wrapped value back.
pub assume_specification[ ClientId::raw ](id: &ClientId) -> (raw: u64)
    ensures
        raw == client_id_raw(*id),
;

/// `ClientId::from_raw` wraps a value without changing it.
pub assume_specification[ ClientId::from_raw ](value: u64) -> (id: ClientId)
    ensures
        client_id_raw(id) == value,
;

/// The participant on whose behalf this simulation instance runs.
#[derive(Clone, Copy, Debug)]
pub struct LocalPlayer {
    pub client_id: ClientId,
}

impl LocalPlayer {
    /// Whether this instance is the authority.
    pub open spec fn spec_is_authority(&self) -> bool {
        client_id_raw(self.client_id) == AUTHORITY_RAW_ID
    }

    /// Whether `owner` names this participant.
    pub open spec fn spec_owns(&self, owner: ClientId) -> bool {
        client_id_raw(self.client_id) == client_id_raw(owner)
    }

    /// The local player of the authority.
    pub fn authority() -> (player: LocalPlayer)
        ensures
            player.spec_is_authority(),
    {
        LocalPlayer { client_id: ClientId::from_raw(AUTHORITY_RAW_ID) }
    }

    #[verifier::when_used_as_spec(spec_is_authority)]
    pub fn is_authority(&self) -> (r: bool)
        ensures
            r == self.spec_is_authority(),
    {
        self.client_id.raw() == AUTHORITY_RAW_ID
    }

    #[verifier::when_used_as_spec(spec_owns)]
    pub fn owns(&self, owner: ClientId) -> (r: bool)
        ensures
            r == self.spec_owns(owner),
    {
        self.client_id.raw() == owner.raw()
    }
}

} // verus!
