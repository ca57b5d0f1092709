//! The fused adaptive norm kernel: `y = x / rms(x) * scale + shift` for every row,
//! in one launch. It lives in a library of its own.

use vstd::prelude::*;

use crate::device::{DeviceBuffer, DevicePtr};
use crate::error::AclError;
use crate::library::Library;
use crate::stream::AscendStream;

verus! {

/// Whether the fused kernel can be used.
pub fn available(library: &Library) -> (yes: bool)
    ensures
        yes == (*library == Library::Loaded),
{
    match library {
        Library::Loaded => true,
        _ => false,
    }
}

/// A launch of the fused kernel. `x` and `y` are `[rows, cols]`, `scale` and `shift`
/// are single rows; `eps` is a single-precision pattern.
#[derive(Debug, Clone, Copy, PartialEq, Eq, Structural)]
pub struct AdaRmsCall {
    pub x: DevicePtr,
    pub scale: DevicePtr,
    pub shift: DevicePtr,
    pub y: DevicePtr,
    pub rows: i32,
    pub cols: i32,
    pub eps: u32,
    pub cores: i32,
    pub stream: usize,
    pub diag: i32,
}

/// The address of a buffer.
pub open spec fn pointer(b: DeviceBuffer) -> DevicePtr {
    DevicePtr { base: b.base, offset: b.offset }
}

/// Launch the fused kernel, where its library is loaded. Nothing waits for the
/// stream, so the launch may be captured. `diag` selects a diagnostic variant.
pub fn run(
    library: &Library,
    stream: &AscendStream,
    x: &DeviceBuffer,
    scale: &DeviceBuffer,
    shift: &DeviceBuffer,
    y: &DeviceBuffer,
    rows: i32,
    cols: i32,
    eps: u32,
    cores: i32,
    diag: i32,
) -> (r: Result<AdaRmsCall, AclError>)
    ensures
        r == (if *library == Library::Loaded {
            Ok(
                AdaRmsCall {
                    x: pointer(*x),
                    scale: pointer(*scale),
                    shift: pointer(*shift),
                    y: pointer(*y),
                    rows,
                    cols,
                    eps,
                    cores,
                    stream: stream.raw,
                    diag,
                },
            )
        } else {
            Err(AclError { code: (-1) as i32, op: "ada_rms load" })
        }),
{
    if !available(library) {
        return Err(AclError { code: -1, op: "ada_rms load" });
    }
    Ok(
        AdaRmsCall {
            x: x.as_ptr(),
            scale: scale.as_ptr(),
            shift: shift.as_ptr(),
            y: y.as_ptr(),
            rows,
            cols,
            eps,
            cores,
            stream: stream.handle(),
            diag,
        },
    )
}

/// Read what came of a launch: no code where the library has no such function.
pub fn launched(code: Option<i32>) -> (r: Result<(), AclError>)
    ensures
        r == (match code {
            None => Err::<(), AclError>(AclError { code: (-1) as i32, op: "ada_rms dlsym" }),
            Some(rc) => if rc == 0 {
                Ok(())
            } else {
                Err(AclError { code: rc, op: "ada_rms_norm_run" })
            },
        }),
{
    match code {
        None => Err(AclError { code: -1, op: "ada_rms dlsym" }),
        Some(rc) => if rc != 0 {
            Err(AclError { code: rc, op: "ada_rms_norm_run" })
        } else {
            Ok(())
        },
    }
}

} // verus!
