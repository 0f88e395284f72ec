//! The wire envelope: a tagged-union payload together with a message id and
//! an optional correlation id.
//!
//! Every message that crosses a connection is one `Envelope`.  `id` is unique
//! per sender per connection; `responding_to` carries the id of the request
//! this envelope answers, and is absent on anything that is not a response.

use vstd::prelude::*;

verus! {

/// Payload tag of [`Payload::Auth`].
pub const TAG_AUTH: u32 = 0;

/// Payload tag of [`Payload::AuthResponse`].
pub const TAG_AUTH_RESPONSE: u32 = 1;

/// Payload tag of [`Payload::OpenWorktree`].
pub const TAG_OPEN_WORKTREE: u32 = 2;

/// Payload tag of [`Payload::OpenWorktreeResponse`].
pub const TAG_OPEN_WORKTREE_RESPONSE: u32 = 3;

/// Payload tag of [`Payload::UpdateWorktree`].
pub const TAG_UPDATE_WORKTREE: u32 = 4;

/// One variant of the closed union carried by every envelope.
///
/// `Auth` and `OpenWorktree` are request variants: each has an associated
/// response variant that a peer answers with.  `UpdateWorktree` is a
/// fire-and-forget message.  Opaque payload data (such as an access token)
/// is modelled by plain numeric fields; the client never inspects it.
#[derive(Clone, Copy, PartialEq, Eq, Debug)]
pub enum Payload {
    Auth { user_id: u32, access_token: u32 },
    AuthResponse { credentials_valid: bool },
    OpenWorktree { worktree_id: u32 },
    OpenWorktreeResponse { ok: bool },
    UpdateWorktree { worktree_id: u32, version: u32 },
}

impl Payload {
    /// The discriminant tag of this variant.
    pub open spec fn spec_tag(self) -> u32 {
        match self {
            Payload::Auth { .. } => TAG_AUTH,
            Payload::AuthResponse { .. } => TAG_AUTH_RESPONSE,
            Payload::OpenWorktree { .. } => TAG_OPEN_WORKTREE,
            Payload::OpenWorktreeResponse { .. } => TAG_OPEN_WORKTREE_RESPONSE,
            Payload::UpdateWorktree { .. } => TAG_UPDATE_WORKTREE,
        }
    }

    /// Returns the discriminant tag of this variant.
    pub fn tag(&self) -> (t: u32)
        ensures
            t == self.spec_tag(),
    {
        match self {
            Payload::Auth { .. } => TAG_AUTH,
            Payload::AuthResponse { .. } => TAG_AUTH_RESPONSE,
            Payload::OpenWorktree { .. } => TAG_OPEN_WORKTREE,
            Payload::OpenWorktreeResponse { .. } => TAG_OPEN_WORKTREE_RESPONSE,
            Payload::UpdateWorktree { .. } => TAG_UPDATE_WORKTREE,
        }
    }
}

/// Whether `t` is the tag of a request variant, i.e. one with an associated
/// response variant.
pub open spec fn spec_is_request_tag(t: u32) -> bool {
    t == TAG_AUTH || t == TAG_OPEN_WORKTREE
}

/// The tag of the response variant answering the request variant tagged `t`.
pub open spec fn spec_response_tag(t: u32) -> u32 {
    if t == TAG_AUTH {
        TAG_AUTH_RESPONSE
    } else {
        TAG_OPEN_WORKTREE_RESPONSE
    }
}

/// Returns whether `t` tags a request variant.
pub fn is_request_tag(t: u32) -> (r: bool)
    ensures
        r == spec_is_request_tag(t),
{
    t == TAG_AUTH || t == TAG_OPEN_WORKTREE
}

/// Returns the tag of the response variant that answers a request tagged `t`.
pub fn response_tag(t: u32) -> (r: u32)
    requires
        spec_is_request_tag(t),
    ensures
        r == spec_response_tag(t),
{
    if t == TAG_AUTH {
        TAG_AUTH_RESPONSE
    } else {
        TAG_OPEN_WORKTREE_RESPONSE
    }
}

/// The framed wire message: a payload wrapped with the sender's message id
/// and, for responses, the id of the request being answered.
#[derive(Clone, Copy, PartialEq, Eq, Debug)]
pub struct Envelope {
    pub id: u32,
    pub responding_to: Option<u32>,
    pub payload: Payload,
}

} // verus!
