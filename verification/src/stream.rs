//! The stream that work is queued on.

use vstd::prelude::*;

use crate::driver::session::{drained, Session};
use crate::error::{check, AclError};

verus! {

/// A stream, by the driver's handle.
#[derive(Debug, Clone, Copy, PartialEq, Eq, Structural)]
pub struct AscendStream {
    pub raw: usize,
}

impl AscendStream {
    /// Take the driver's answer to creating a stream.
    pub fn new(code: i32, raw: usize) -> (r: Result<AscendStream, AclError>)
        ensures
            r == (if code == 0 {
                Ok(AscendStream { raw })
            } else {
                Err(AclError { code, op: "aclrtCreateStream" })
            }),
    {
        match check(code, "aclrtCreateStream") {
            Ok(_) => Ok(AscendStream { raw }),
            Err(e) => Err(e),
        }
    }

    pub fn handle(&self) -> (raw: usize)
        ensures
            raw == self.raw,
    {
        self.raw
    }

    /// Take the driver's answer to waiting for the stream. Once it has drained,
    /// everything that has been given back is to be freed.
    pub fn synchronize(&self, session: &mut Session, code: i32) -> (r: Result<
        Vec<usize>,
        AclError,
    >)
        requires
            old(session).wf(),
        ensures
            drained(*old(session), *final(session), code, "aclrtSynchronizeStream", r),
    {
        session.drained(code, "aclrtSynchronizeStream")
    }

    /// Whether there is a stream to destroy.
    pub fn is_open(&self) -> (open: bool)
        ensures
            open == (self.raw != 0),
    {
        self.raw != 0
    }
}

} // verus!
