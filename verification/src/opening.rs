//! Opening a device.

use vstd::prelude::*;

use crate::driver::session::{drained, Session};
use crate::error::{check, AclError};

verus! {

/// Initialising the runtime, which a process may do only once: the code of the first
/// attempt decides.
#[derive(Debug, Clone, Copy, PartialEq, Eq, Structural)]
pub struct RuntimeInit {
    pub code: Option<i32>,
}

impl RuntimeInit {
    /// Note the code of an attempt.
    pub fn tried(&mut self, code: i32)
        ensures
            final(self).code == Some(
                match old(self).code {
                    Some(first) => first,
                    None => code,
                },
            ),
    {
        match self.code {
            Some(_) => {},
            None => {
                self.code = Some(code);
            },
        }
    }
}

/// A call to the driver while a device is being opened.
#[derive(Debug, Clone, Copy, PartialEq, Eq, Structural)]
pub enum OpenCall {
    Init,
    SetDevice { id: i32 },
    CreateContext { id: i32 },
    ResetDevice { id: i32 },
}

/// How far the opening of a device has got.
#[derive(Debug, Clone, Copy)]
pub enum OpenNext {
    Do(OpenCall),
    /// The device is open, under the driver's handle of its context.
    Opened(OpenDevice),
    Failed(AclError),
}

/// An open device.
#[derive(Debug, Clone, Copy, PartialEq, Eq, Structural)]
pub struct OpenDevice {
    pub id: i32,
    pub raw: usize,
}

/// What the opening of a device waits for.
#[derive(Debug, Clone, Copy)]
pub enum OpenPhase {
    Init { device_id: usize },
    SetDevice { id: i32 },
    CreateContext { id: i32 },
    /// The device is being given back after a failure.
    Reset { error: AclError },
}

/// Once the runtime is up, the device is selected, where its number is one that the
/// driver takes.
pub open spec fn select(device_id: usize) -> (OpenPhase, OpenNext) {
    if device_id <= i32::MAX {
        (
            OpenPhase::SetDevice { id: device_id as i32 },
            OpenNext::Do(OpenCall::SetDevice { id: device_id as i32 }),
        )
    } else {
        (
            OpenPhase::Init { device_id },
            OpenNext::Failed(AclError { code: (-1) as i32, op: "device_id overflow" }),
        )
    }
}

/// How opening a device begins, given the code of an earlier initialisation.
pub open spec fn opening(init: RuntimeInit, device_id: usize) -> (OpenPhase, OpenNext) {
    match init.code {
        None => (OpenPhase::Init { device_id }, OpenNext::Do(OpenCall::Init)),
        Some(code) => if code == 0 {
            select(device_id)
        } else {
            (
                OpenPhase::Init { device_id },
                OpenNext::Failed(AclError { code, op: "aclInit" }),
            )
        },
    }
}

/// How opening a device goes on after an answer. A device that was selected but got
/// no context is given back.
pub open spec fn reopening(phase: OpenPhase, code: i32, raw: usize) -> (OpenPhase, OpenNext) {
    match phase {
        OpenPhase::Init { device_id } => if code == 0 {
            select(device_id)
        } else {
            (phase, OpenNext::Failed(AclError { code, op: "aclInit" }))
        },
        OpenPhase::SetDevice { id } => if code == 0 {
            (OpenPhase::CreateContext { id }, OpenNext::Do(OpenCall::CreateContext { id }))
        } else {
            (phase, OpenNext::Failed(AclError { code, op: "aclrtSetDevice" }))
        },
        OpenPhase::CreateContext { id } => if code == 0 {
            (phase, OpenNext::Opened(OpenDevice { id, raw }))
        } else {
            (
                OpenPhase::Reset { error: AclError { code, op: "aclrtCreateContext" } },
                OpenNext::Do(OpenCall::ResetDevice { id }),
            )
        },
        OpenPhase::Reset { error } => (phase, OpenNext::Failed(error)),
    }
}

fn select_device(device_id: usize) -> (out: (OpenPhase, OpenNext))
    ensures
        out == select(device_id),
{
    if device_id <= i32::MAX as usize {
        let id: i32 = device_id as i32;
        (OpenPhase::SetDevice { id }, OpenNext::Do(OpenCall::SetDevice { id }))
    } else {
        (
            OpenPhase::Init { device_id },
            OpenNext::Failed(AclError { code: -1, op: "device_id overflow" }),
        )
    }
}

/// Begin to open a device.
pub fn open_device(init: RuntimeInit, device_id: usize) -> (out: (OpenPhase, OpenNext))
    ensures
        out == opening(init, device_id),
{
    match init.code {
        None => (OpenPhase::Init { device_id }, OpenNext::Do(OpenCall::Init)),
        Some(code) => match check(code, "aclInit") {
            Ok(_) => select_device(device_id),
            Err(e) => (OpenPhase::Init { device_id }, OpenNext::Failed(e)),
        },
    }
}

/// Go on opening a device after the driver's answer: a code, and the handle of a
/// context where one was created.
pub fn open_next(phase: OpenPhase, code: i32, raw: usize) -> (out: (OpenPhase, OpenNext))
    ensures
        out == reopening(phase, code, raw),
{
    match phase {
        OpenPhase::Init { device_id } => match check(code, "aclInit") {
            Ok(_) => select_device(device_id),
            Err(e) => (phase, OpenNext::Failed(e)),
        },
        OpenPhase::SetDevice { id } => match check(code, "aclrtSetDevice") {
            Ok(_) => (
                OpenPhase::CreateContext { id },
                OpenNext::Do(OpenCall::CreateContext { id }),
            ),
            Err(e) => (phase, OpenNext::Failed(e)),
        },
        OpenPhase::CreateContext { id } => match check(code, "aclrtCreateContext") {
            Ok(_) => (phase, OpenNext::Opened(OpenDevice { id, raw })),
            Err(e) => (OpenPhase::Reset { error: e }, OpenNext::Do(OpenCall::ResetDevice { id })),
        },
        OpenPhase::Reset { error } => (phase, OpenNext::Failed(error)),
    }
}

impl OpenDevice {
    pub fn device_id(&self) -> (id: usize)
        requires
            self.id >= 0,
        ensures
            id == self.id,
    {
        self.id as usize
    }

    /// Read the driver's answer to making the context current on a thread.
    pub fn set_current(&self, code: i32) -> (r: Result<(), AclError>)
        ensures
            r == (if code == 0 {
                Ok(())
            } else {
                Err(AclError { code, op: "aclrtSetCurrentContext" })
            }),
    {
        check(code, "aclrtSetCurrentContext")
    }

    /// Read the driver's answer to waiting for the device. Once it has come to rest,
    /// everything that has been given back is to be freed.
    pub fn synchronize(&self, session: &mut Session, code: i32) -> (r: Result<
        Vec<usize>,
        AclError,
    >)
        requires
            old(session).wf(),
        ensures
            drained(*old(session), *final(session), code, "aclrtSynchronizeDevice", r),
    {
        session.drained(code, "aclrtSynchronizeDevice")
    }
}

/// A device that was selected is open in the end, or it was given back: where opening
/// fails after the device was selected, the driver was told to reset that device.
pub proof fn lemma_given_back(id: i32, code: i32, raw: usize, reset: i32)
    ensures
        ({
            let (phase, next) = reopening(OpenPhase::CreateContext { id }, code, raw);
            if code == 0 {
                next == OpenNext::Opened(OpenDevice { id, raw })
            } else {
                &&& next == OpenNext::Do(OpenCall::ResetDevice { id })
                &&& reopening(phase, reset, 0).1 == OpenNext::Failed(
                    AclError { code, op: "aclrtCreateContext" },
                )
            }
        }),
{
}

/// The first initialisation decides for good: whatever is tried later, a process whose
/// first attempt failed opens no device, and one whose first attempt succeeded never
/// initialises again.
pub proof fn lemma_init_sticks(init: RuntimeInit, first: i32, device_id: usize)
    requires
        init.code == Some(first),
    ensures
        first != 0 ==> opening(init, device_id).1 == OpenNext::Failed(
            AclError { code: first, op: "aclInit" },
        ),
        opening(init, device_id).1 != OpenNext::Do(OpenCall::Init),
{
}

/// A device whose number the driver takes is opened by bringing the runtime up, selecting
/// the device and creating its context, in this order; a runtime that is up already is not
/// brought up again.
pub proof fn lemma_open_order(device_id: usize, raw: usize, other: usize)
    requires
        device_id <= i32::MAX,
    ensures
        ({
            let id = device_id as i32;
            let (p0, first) = opening(RuntimeInit { code: None }, device_id);
            let (p1, second) = reopening(p0, 0, other);
            let (p2, third) = reopening(p1, 0, other);
            let (p3, last) = reopening(p2, 0, raw);
            &&& first == OpenNext::Do(OpenCall::Init)
            &&& second == OpenNext::Do(OpenCall::SetDevice { id })
            &&& third == OpenNext::Do(OpenCall::CreateContext { id })
            &&& last == OpenNext::Opened(OpenDevice { id, raw })
            &&& opening(RuntimeInit { code: Some(0) }, device_id) == (p1, second)
        }),
{
}

} // verus!
