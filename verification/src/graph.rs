//! Capturing the work on a stream as a graph, and replaying it.
//!
//! Between the begin and the end of a capture, what is queued on the stream becomes
//! the graph instead of being run. The graph is then replayed by one launch.

use vstd::prelude::*;

use crate::error::{check, AclError};
use crate::stream::AscendStream;

verus! {

pub const ACL_MODEL_RI_CAPTURE_MODE_GLOBAL: i32 = 0;

pub const ACL_MODEL_RI_CAPTURE_MODE_THREAD_LOCAL: i32 = 1;

pub const ACL_MODEL_RI_CAPTURE_MODE_RELAXED: i32 = 2;

/// Which threads a capture keeps from unsafe calls.
#[derive(Debug, Clone, Copy, PartialEq, Eq, Structural)]
pub enum CaptureMode {
    Global,
    ThreadLocal,
    Relaxed,
}

/// The driver's number of a capture mode.
pub open spec fn mode_number(mode: CaptureMode) -> i32 {
    match mode {
        CaptureMode::Global => ACL_MODEL_RI_CAPTURE_MODE_GLOBAL,
        CaptureMode::ThreadLocal => ACL_MODEL_RI_CAPTURE_MODE_THREAD_LOCAL,
        CaptureMode::Relaxed => ACL_MODEL_RI_CAPTURE_MODE_RELAXED,
    }
}

impl CaptureMode {
    pub fn as_acl(self) -> (number: i32)
        ensures
            number == mode_number(self),
    {
        match self {
            CaptureMode::Global => ACL_MODEL_RI_CAPTURE_MODE_GLOBAL,
            CaptureMode::ThreadLocal => ACL_MODEL_RI_CAPTURE_MODE_THREAD_LOCAL,
            CaptureMode::Relaxed => ACL_MODEL_RI_CAPTURE_MODE_RELAXED,
        }
    }
}

/// A call to the driver about graphs.
#[derive(Debug, Clone, Copy, PartialEq, Eq, Structural)]
pub enum GraphCall {
    CaptureBegin { stream: usize, mode: i32 },
    CaptureEnd { stream: usize },
    Abort { stream: usize },
    ExecuteAsync { graph: usize, stream: usize },
    SynchronizeStream { stream: usize },
    Destroy { graph: usize },
}

/// The name that a failure of the call is reported under.
pub open spec fn graph_call_name(call: GraphCall) -> &'static str {
    match call {
        GraphCall::CaptureBegin { stream, mode } => "aclmdlRICaptureBegin",
        GraphCall::CaptureEnd { stream } => "aclmdlRICaptureEnd",
        GraphCall::Abort { stream } => "aclmdlRIAbort",
        GraphCall::ExecuteAsync { graph, stream } => "aclmdlRIExecuteAsync",
        GraphCall::SynchronizeStream { stream } => "aclrtSynchronizeStream",
        GraphCall::Destroy { graph } => "aclmdlRIDestroy",
    }
}

/// Read the driver's answer to a call.
pub fn finish(call: GraphCall, code: i32) -> (r: Result<(), AclError>)
    ensures
        r == (if code == 0 {
            Ok(())
        } else {
            Err(AclError { code, op: graph_call_name(call) })
        }),
{
    match call {
        GraphCall::CaptureBegin { .. } => check(code, "aclmdlRICaptureBegin"),
        GraphCall::CaptureEnd { .. } => check(code, "aclmdlRICaptureEnd"),
        GraphCall::Abort { .. } => check(code, "aclmdlRIAbort"),
        GraphCall::ExecuteAsync { .. } => check(code, "aclmdlRIExecuteAsync"),
        GraphCall::SynchronizeStream { .. } => check(code, "aclrtSynchronizeStream"),
        GraphCall::Destroy { .. } => check(code, "aclmdlRIDestroy"),
    }
}

/// A captured graph. It is replayed on the stream it was captured on.
#[derive(Debug, Clone, Copy, PartialEq, Eq, Structural)]
pub struct AscendGraph {
    pub ri: usize,
    pub stream: usize,
}

impl AscendGraph {
    /// Launch the whole graph.
    pub fn replay(&self) -> (call: GraphCall)
        ensures
            call == (GraphCall::ExecuteAsync { graph: self.ri, stream: self.stream }),
    {
        GraphCall::ExecuteAsync { graph: self.ri, stream: self.stream }
    }

    /// After the launch has answered, wait for the graph to complete.
    pub fn replay_sync(&self, code: i32) -> (r: Result<GraphCall, AclError>)
        ensures
            r == (if code == 0 {
                Ok(GraphCall::SynchronizeStream { stream: self.stream })
            } else {
                Err(AclError { code, op: "aclmdlRIExecuteAsync" })
            }),
    {
        let launched = self.replay();
        match finish(launched, code) {
            Ok(_) => Ok(GraphCall::SynchronizeStream { stream: self.stream }),
            Err(e) => Err(e),
        }
    }

    /// What is left to do once the graph is no longer needed.
    pub fn destroy(&self) -> (call: Option<GraphCall>)
        ensures
            call == (if self.ri == 0 {
                None
            } else {
                Some(GraphCall::Destroy { graph: self.ri })
            }),
    {
        if self.ri == 0 {
            None
        } else {
            Some(GraphCall::Destroy { graph: self.ri })
        }
    }
}

/// Begin a capture. No other capture may be open.
pub fn begin(stream: &AscendStream, mode: CaptureMode) -> (call: GraphCall)
    ensures
        call == (GraphCall::CaptureBegin { stream: stream.raw, mode: mode_number(mode) }),
{
    GraphCall::CaptureBegin { stream: stream.handle(), mode: mode.as_acl() }
}

/// End a capture.
pub fn end(stream: &AscendStream) -> (call: GraphCall)
    ensures
        call == (GraphCall::CaptureEnd { stream: stream.raw }),
{
    GraphCall::CaptureEnd { stream: stream.handle() }
}

/// Read the driver's answer to the end of a capture.
pub fn captured(stream: &AscendStream, code: i32, ri: usize) -> (r: Result<AscendGraph, AclError>)
    ensures
        r == (if code == 0 {
            Ok(AscendGraph { ri, stream: stream.raw })
        } else {
            Err(AclError { code, op: "aclmdlRICaptureEnd" })
        }),
{
    match finish(end(stream), code) {
        Ok(_) => Ok(AscendGraph { ri, stream: stream.handle() }),
        Err(e) => Err(e),
    }
}

/// Abort a capture, which leaves the stream usable.
pub fn abort(stream: &AscendStream) -> (call: GraphCall)
    ensures
        call == (GraphCall::Abort { stream: stream.raw }),
{
    GraphCall::Abort { stream: stream.handle() }
}

} // verus!
