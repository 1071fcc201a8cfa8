//! Notification handlers: the entry point of a task for notifications, which are delivered
//! separately from regular IPC.

use vstd::prelude::*;

verus! {

/// A pointer to a userspace notification handler.
#[derive(Clone, Copy, Debug, PartialEq, Eq)]
pub struct Handler(u64);

/// Error returned if a handler could not be created.
#[derive(Clone, Copy, Debug, PartialEq, Eq)]
pub enum NewHandlerError {
    /// The function address is null.
    Null,
}

/// Error returned if a notification could not be sent.
#[derive(Clone, Copy, Debug, PartialEq, Eq)]
pub enum SendError {
    /// The task did not specify a handler and hence cannot receive any notifications.
    NoHandler,
    /// The task is already processing a notification.
    Busy,
}

impl Handler {
    /// The address of the handler.
    pub closed spec fn view(&self) -> u64 {
        self.0
    }

    /// Create a new handler for the function at the given (non-null) address.
    pub fn new(function: u64) -> (r: Result<Self, NewHandlerError>)
        ensures
            function != 0 <==> r is Ok,
            r matches Ok(h) ==> h@ == function,
    {
        if function == 0 {
            Err(NewHandlerError::Null)
        } else {
            Ok(Handler(function))
        }
    }

    /// Return the address of the handler.
    pub fn as_ptr(&self) -> (r: u64)
        ensures
            r == self@,
    {
        self.0
    }
}

} // verus!
