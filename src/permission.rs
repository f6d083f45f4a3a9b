//! Permission tiers that gate each request.

use vstd::prelude::*;
use crate::error::Error;
use crate::messaging::Request;

verus! {

/// The tier a server runs at: `Guest < Admin < Owner`.
#[derive(Debug, Clone, Copy, PartialEq, Eq, Structural)]
pub enum Permission {
    /// May only read.
    Guest,
    /// May read and modify keys, but not flush the store.
    Admin,
    /// May run every command.
    Owner,
}

/// The position of a tier in `Guest < Admin < Owner`.
pub open spec fn rank(p: Permission) -> nat {
    match p {
        Permission::Guest => 0,
        Permission::Admin => 1,
        Permission::Owner => 2,
    }
}

/// The lowest tier that may run a request.
pub open spec fn required_rank(r: Request) -> nat {
    match r {
        Request::Get(_) | Request::Exists(_) | Request::DowngradePermission => 0,
        Request::SetKey(_, _) | Request::Delete(_) | Request::Increment(_, _)
        | Request::Decrement(_, _) | Request::Search(_) => 1,
        Request::Flush => 2,
    }
}

pub open spec fn permits(p: Permission, r: Request) -> bool {
    required_rank(r) <= rank(p)
}

/// One step down: `Owner` to `Admin`, `Admin` to `Guest`, `Guest` stays.
pub open spec fn lowered(p: Permission) -> Permission {
    match p {
        Permission::Guest => Permission::Guest,
        Permission::Admin => Permission::Guest,
        Permission::Owner => Permission::Admin,
    }
}

/// `n` steps down from `p`.
pub open spec fn lowered_times(p: Permission, n: nat) -> Permission
    decreases n,
{
    if n == 0 {
        p
    } else {
        lowered(lowered_times(p, (n - 1) as nat))
    }
}

impl Default for Permission {
    /// Servers start at the highest tier.
    fn default() -> (r: Permission)
        ensures
            r == Permission::Owner,
    {
        Permission::Owner
    }
}

impl Permission {
    /// Whether the request may run at this tier.
    pub fn is_allowed(&self, request: &Request) -> (r: bool)
        ensures
            r == permits(*self, *request),
    {
        match request {
            Request::Get(_) | Request::Exists(_) | Request::DowngradePermission => true,
            Request::SetKey(_, _) | Request::Delete(_) | Request::Increment(_, _)
            | Request::Decrement(_, _) | Request::Search(_) => {
                match self {
                    Permission::Guest => false,
                    _ => true,
                }
            },
            Request::Flush => {
                match self {
                    Permission::Owner => true,
                    _ => false,
                }
            },
        }
    }

    /// `Ok` when the request may run at this tier, else `PermissionFailure`.
    pub fn allowed(&self, request: &Request) -> (r: Result<(), Error>)
        ensures
            r is Ok <==> permits(*self, *request),
            r is Err ==> r == Err::<(), Error>(Error::PermissionFailure),
    {
        if self.is_allowed(request) {
            Ok(())
        } else {
            Err(Error::PermissionFailure)
        }
    }

    /// The tier one step down.
    pub fn lower(&self) -> (r: Permission)
        ensures
            r == lowered(*self),
    {
        match self {
            Permission::Guest => Permission::Guest,
            Permission::Admin => Permission::Guest,
            Permission::Owner => Permission::Admin,
        }
    }
}

/// Lowering never raises a tier, and lowering permits nothing new.
pub proof fn lemma_lower_monotone(p: Permission, r: Request)
    ensures
        rank(lowered(p)) <= rank(p),
        permits(lowered(p), r) ==> permits(p, r),
{
}

/// Lowering any tier twice reaches `Guest`, and `Guest` stays `Guest` from
/// then on.
pub proof fn lemma_lower_reaches_guest(p: Permission, n: nat)
    ensures
        n >= 2 ==> lowered_times(p, n) == Permission::Guest,
        lowered_times(Permission::Guest, n) == Permission::Guest,
    decreases n,
{
    if n > 0 {
        lemma_lower_reaches_guest(p, (n - 1) as nat);
        if n == 2 {
            assert(lowered_times(p, 0) == p);
            assert(lowered_times(p, 1) == lowered(lowered_times(p, 0)));
            assert(lowered_times(p, 2) == lowered(lowered_times(p, 1)));
        }
    }
}

} // verus!
