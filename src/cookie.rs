//! Cookies for requests already sent, and the owned replies and errors that
//! retrieving them yields.
//!
//! The blocking retrieval call itself belongs to the connection; this module
//! decides what that call is asked for and what its outcome becomes. Every value
//! here is single-use: retrieval consumes the cookie, and releasing a reply or an
//! error consumes it, so no buffer can be handed to its cleanup routine twice.
use vstd::prelude::*;

verus! {

/// How a reply's buffer must be released once its owner is done with it.
#[derive(Debug, Clone, Copy, PartialEq, Eq, Structural)]
pub enum Cleanup {
    /// A fixed-size record: the generic release is enough.
    Free,
    /// A record with a trailing variable-length region: the message's own wipe
    /// routine must run, or that region leaks.
    Wipe,
}

/// A request that was sent and whose reply has not been retrieved yet.
///
/// In unchecked mode the protocol discards errors: retrieval then always yields
/// a reply, even where the server reported a failure out of band.
pub struct Cookie<H> {
    handle: H,
    checked: bool,
    cleanup: Cleanup,
}

/// A reply that owns its protocol-allocated buffer.
pub struct Reply<T> {
    inner: T,
    cleanup: Cleanup,
}

/// A failure that the server reported for a checked request; it owns the
/// error record.
pub struct ProtocolError<E> {
    raw: E,
}

impl<H> Cookie<H> {
    /// The raw request identifier.
    pub closed spec fn handle_spec(&self) -> H {
        self.handle
    }

    /// Whether errors of this request are reported at retrieval.
    pub closed spec fn checked_spec(&self) -> bool {
        self.checked
    }

    /// The routine that will release the reply's buffer.
    pub closed spec fn cleanup_spec(&self) -> Cleanup {
        self.cleanup
    }

    /// Wraps a raw request identifier.
    pub fn new(handle: H, checked: bool, cleanup: Cleanup) -> (r: Self)
        ensures
            r.handle_spec() == handle,
            r.checked_spec() == checked,
            r.cleanup_spec() == cleanup,
    {
        Cookie { handle, checked, cleanup }
    }

    /// The raw request identifier, to hand to the retrieval call.
    pub fn handle(&self) -> (r: &H)
        ensures
            *r == self.handle_spec(),
    {
        &self.handle
    }

    /// Whether the retrieval call must be given an error slot: only a checked
    /// request gets one.
    pub fn is_checked(&self) -> (r: bool)
        ensures
            r == self.checked_spec(),
    {
        self.checked
    }

    /// The routine that the reply's buffer will need.
    pub fn cleanup(&self) -> (r: Cleanup)
        ensures
            r == self.cleanup_spec(),
    {
        self.cleanup
    }

    /// Turns what the retrieval call delivered into its result, consuming the
    /// cookie. `reply` is the filled reply record and `error` what the call
    /// wrote in the error slot (`None` for a null pointer, or where no slot was
    /// given). A checked request with an error yields that error and builds no
    /// reply; every other outcome yields the reply, owned, with the cookie's
    /// cleanup routine.
    pub fn get_reply<T, E>(self, reply: T, error: Option<E>) -> (r: Result<
        Reply<T>,
        ProtocolError<E>,
    >)
        ensures
            self.checked_spec() && error is Some ==> r is Err && r->Err_0.raw_spec()
                == error->Some_0,
            !self.checked_spec() || error is None ==> r is Ok && r->Ok_0.inner_spec() == reply
                && r->Ok_0.cleanup_spec() == self.cleanup_spec(),
    {
        if self.checked {
            match error {
                Some(e) => {
                    return Err(ProtocolError { raw: e });
                },
                None => {},
            }
        }
        Ok(Reply { inner: reply, cleanup: self.cleanup })
    }
}

impl<T> Reply<T> {
    /// The reply record.
    pub closed spec fn inner_spec(&self) -> T {
        self.inner
    }

    /// The routine that must release the record.
    pub closed spec fn cleanup_spec(&self) -> Cleanup {
        self.cleanup
    }

    /// Borrows the reply record.
    pub fn get(&self) -> (r: &T)
        ensures
            *r == self.inner_spec(),
    {
        &self.inner
    }

    /// The routine that must release the record.
    pub fn cleanup(&self) -> (r: Cleanup)
        ensures
            r == self.cleanup_spec(),
    {
        self.cleanup
    }

    /// Gives up ownership: the record, and the one routine that must now release
    /// it. The reply is consumed, so this happens at most once.
    pub fn release(self) -> (r: (T, Cleanup))
        ensures
            r.0 == self.inner_spec(),
            r.1 == self.cleanup_spec(),
    {
        (self.inner, self.cleanup)
    }
}

impl<E> ProtocolError<E> {
    /// The error record.
    pub closed spec fn raw_spec(&self) -> E {
        self.raw
    }

    /// Borrows the error record.
    pub fn raw(&self) -> (r: &E)
        ensures
            *r == self.raw_spec(),
    {
        &self.raw
    }

    /// Gives up ownership of the error record, consuming the error.
    pub fn into_raw(self) -> (r: E)
        ensures
            r == self.raw_spec(),
    {
        self.raw
    }
}

} // verus!
