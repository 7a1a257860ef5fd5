//! The policy table: which ingress message kinds each role may send.
//! The table is a pure function of role and message kind; it never changes
//! at run time.

use vstd::prelude::*;

use crate::api::{IngressMessage, IngressView};

verus! {

/// The closed set of roles the table knows.
#[derive(Debug, Clone, Copy, PartialEq, Eq, Structural)]
pub enum Role {
    Anonymous,
    Member,
    Owner,
}

/// The policy table.  Anonymous identities may only identify themselves or
/// leave; members may chat and leave; an owner is unconstrained.
pub open spec fn spec_allows(role: Role, m: IngressView) -> bool {
    match role {
        Role::Anonymous => m is Register || m is Part,
        Role::Member => m is Part || m is Message,
        Role::Owner => true,
    }
}

/// Evaluates the policy table for one role and one request.
pub fn role_allows(role: Role, msg: &IngressMessage) -> (r: bool)
    ensures
        r == spec_allows(role, msg@),
{
    match role {
        Role::Anonymous => match msg {
            IngressMessage::Register(_) => true,
            IngressMessage::Part => true,
            _ => false,
        },
        Role::Member => match msg {
            IngressMessage::Part => true,
            IngressMessage::Message(_) => true,
            _ => false,
        },
        Role::Owner => true,
    }
}

/// One row of the policy table, as a checkable judgement on requests.
pub trait Policy {
    /// The row this policy answers with.
    spec fn spec_allow(&self, m: IngressView) -> bool;

    /// Whether the request is permitted under this policy.
    fn allow(&self, msg: &IngressMessage) -> (r: bool)
        ensures
            r == self.spec_allow(msg@),
    ;
}

/// The row for identities that never registered.
#[derive(Clone)]
pub struct AnonymousPolicy;

impl Policy for AnonymousPolicy {
    open spec fn spec_allow(&self, m: IngressView) -> bool {
        spec_allows(Role::Anonymous, m)
    }

    fn allow(&self, msg: &IngressMessage) -> (r: bool) {
        role_allows(Role::Anonymous, msg)
    }
}

/// The row for ordinary registered members.
#[derive(Clone)]
pub struct DefaultPolicy;

impl Policy for DefaultPolicy {
    open spec fn spec_allow(&self, m: IngressView) -> bool {
        spec_allows(Role::Member, m)
    }

    fn allow(&self, msg: &IngressMessage) -> (r: bool) {
        role_allows(Role::Member, msg)
    }
}

/// The row for the room owner.
#[derive(Clone)]
pub struct OwnerPolicy;

impl Policy for OwnerPolicy {
    open spec fn spec_allow(&self, m: IngressView) -> bool {
        spec_allows(Role::Owner, m)
    }

    fn allow(&self, msg: &IngressMessage) -> (r: bool) {
        role_allows(Role::Owner, msg)
    }
}

} // verus!
