//! The fatal conditions around a store, and the rule that decides when a
//! call may go ahead.
//!
//! A store lives in state that outlasts a single call. It is constructed
//! once, and every other call needs it to have been constructed. Whoever
//! keeps that state asks [`permit`] before a call; a refusal ends the call
//! before anything is changed.

use vstd::prelude::*;

verus! {

/// Why a call cannot go ahead.
#[derive(Debug, Clone, Copy, PartialEq, Eq, Structural)]
pub enum StoreError {
    /// An operation was asked for before the store was constructed.
    NotInitialized,
    /// The store was to be constructed over state that already holds one.
    AlreadyInitialized,
    /// The time source gave no value for a record's creation time.
    TimeSourceFailure,
}

/// What is being asked of the store.
#[derive(Debug, Clone, Copy, PartialEq, Eq, Structural)]
pub enum Call {
    /// Constructing the store.
    Construct,
    /// Reading, appending or resetting.
    Operate,
}

impl StoreError {
    /// The message that goes with the error.
    pub open spec fn text(self) -> Seq<char> {
        match self {
            StoreError::NotInitialized => "The contract should be initialized before usage"@,
            StoreError::AlreadyInitialized => "Already initialized"@,
            StoreError::TimeSourceFailure => "The time source gave no value"@,
        }
    }

    /// The message that goes with the error.
    pub fn message(&self) -> (text: &'static str)
        ensures
            text@ == self.text(),
    {
        match self {
            StoreError::NotInitialized => "The contract should be initialized before usage",
            StoreError::AlreadyInitialized => "Already initialized",
            StoreError::TimeSourceFailure => "The time source gave no value",
        }
    }
}

/// Whether `call` may go ahead, given whether a store has been constructed:
/// construction needs that none has been, every other call that one has.
pub open spec fn permitted(call: Call, initialized: bool) -> Result<(), StoreError> {
    match call {
        Call::Construct => if initialized {
            Err(StoreError::AlreadyInitialized)
        } else {
            Ok(())
        },
        Call::Operate => if initialized {
            Ok(())
        } else {
            Err(StoreError::NotInitialized)
        },
    }
}

/// Decides whether `call` may go ahead.
pub fn permit(call: Call, initialized: bool) -> (verdict: Result<(), StoreError>)
    ensures
        verdict == permitted(call, initialized),
{
    match call {
        Call::Construct => if initialized {
            Err(StoreError::AlreadyInitialized)
        } else {
            Ok(())
        },
        Call::Operate => if initialized {
            Ok(())
        } else {
            Err(StoreError::NotInitialized)
        },
    }
}

} // verus!
