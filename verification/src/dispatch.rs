//! The choice of what an invocation does, made from its options before any
//! store is touched.

use vstd::prelude::*;
use crate::error::{ErrorKind, StoreError};

verus! {

/// The options of an invocation, as far as they choose what is done.
#[derive(Clone, Copy, Debug, PartialEq, Eq, Structural)]
pub struct Request {
    /// Start a new, empty store.
    pub init: bool,
    /// Copy the store found in a folder.
    pub copy: bool,
    /// Work on the global store, not the local one.
    pub global: bool,
    /// Put a text under the names given.
    pub add: bool,
    /// List the entries of the store.
    pub list: bool,
}

/// What is done to bring the primary store about, before anything else.
#[derive(Clone, Copy, Debug, PartialEq, Eq, Structural)]
pub enum Setup {
    Nothing,
    Copy,
    Init,
}

/// What is done with the primary store.
#[derive(Clone, Copy, Debug, PartialEq, Eq, Structural)]
pub enum Action {
    Add,
    List,
    Lookup,
}

/// The course of an invocation.
#[derive(Clone, Copy, Debug, PartialEq, Eq, Structural)]
pub struct Plan {
    pub setup: Setup,
    pub action: Action,
    /// Whether the global store is read as the fallback of a lookup.
    pub fallback: bool,
}

/// The options ask both to start an empty store and to copy one.
pub open spec fn conflicting(request: Request) -> bool {
    request.init && request.copy
}

/// The course that the options choose: copying comes before starting anew;
/// adding comes before listing, and listing before looking names up. Only a
/// lookup in the local store falls back to the global one.
pub open spec fn plan_of(request: Request) -> Plan {
    let action = if request.add {
        Action::Add
    } else if request.list {
        Action::List
    } else {
        Action::Lookup
    };
    Plan {
        setup: if request.copy {
            Setup::Copy
        } else if request.init {
            Setup::Init
        } else {
            Setup::Nothing
        },
        action,
        fallback: action == Action::Lookup && !request.global,
    }
}

/// Chooses the course of an invocation.
///
/// Fails with `ConflictingFlags` exactly when the options ask both to start
/// an empty store and to copy one.
pub fn dispatch(request: Request) -> (r: Result<Plan, StoreError>)
    ensures
        match r {
            Ok(plan) => !conflicting(request) && plan == plan_of(request),
            Err(e) => {
                &&& conflicting(request)
                &&& e.kind == ErrorKind::ConflictingFlags
                &&& e.message@ == "The argument '--init' cannot be used with '--copy <FOLDER>'"@
            },
        },
{
    if request.init && request.copy {
        return Err(StoreError::conflicting_flags());
    }
    let setup = if request.copy {
        Setup::Copy
    } else if request.init {
        Setup::Init
    } else {
        Setup::Nothing
    };
    let action = if request.add {
        Action::Add
    } else if request.list {
        Action::List
    } else {
        Action::Lookup
    };
    let fallback = match action {
        Action::Lookup => !request.global,
        _ => false,
    };
    Ok(Plan { setup, action, fallback })
}

} // verus!
