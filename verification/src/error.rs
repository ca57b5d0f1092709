//! Error types of the library.

use vstd::prelude::*;
use vstd::string::StringExecFns;

use crate::text::{append_decimal, decimal};

verus! {

/// An error code of the runtime and the call that gave it. Zero is success.
#[derive(Debug, Clone, Copy, PartialEq, Eq)]
pub struct AclError {
    pub code: i32,
    pub op: &'static str,
}

impl AclError {
    /// `aclError {code} at {op}`.
    pub open spec fn text(&self) -> Seq<char> {
        "aclError "@ + decimal(self.code as int) + " at "@ + self.op@
    }

    pub fn message(&self) -> (text: String)
        ensures
            text@ == self.text(),
    {
        let mut text = String::new();
        text.append("aclError ");
        append_decimal(&mut text, self.code as i64);
        text.append(" at ");
        text.append(self.op);
        assert(text@ =~= self.text());
        text
    }
}

/// Success for code zero, else an error that names the call.
pub fn check(code: i32, op: &'static str) -> (r: Result<(), AclError>)
    ensures
        r == (if code == 0 {
            Ok(())
        } else {
            Err(AclError { code, op })
        }),
{
    if code == 0 {
        Ok(())
    } else {
        Err(AclError { code, op })
    }
}

/// Where a tensor lives.
#[derive(Debug, Clone, Copy, PartialEq, Eq, Structural)]
pub enum Device {
    Cpu,
    Ascend(usize),
    /// A device of another backend.
    Other(usize),
}

/// Errors of the model layer.
#[derive(Debug)]
pub enum Error {
    Other(String),
    UnsupportedDevice(Device),
}

/// What an [`Error`] says.
pub enum ErrorView {
    Other(Seq<char>),
    UnsupportedDevice(Device),
}

impl View for Error {
    type V = ErrorView;

    open spec fn view(&self) -> ErrorView {
        match *self {
            Error::Other(text) => ErrorView::Other(text@),
            Error::UnsupportedDevice(device) => ErrorView::UnsupportedDevice(device),
        }
    }
}

/// The first of two errors, in the order in which they would be found.
pub open spec fn first_error(first: Option<ErrorView>, second: Option<ErrorView>) -> Option<
    ErrorView,
> {
    match first {
        Some(e) => Some(e),
        None => second,
    }
}

/// The first error of a sequence.
pub open spec fn first_of(errors: Seq<Option<ErrorView>>) -> Option<ErrorView>
    decreases errors.len(),
{
    if errors.len() == 0 {
        None
    } else {
        first_error(errors[0], first_of(errors.skip(1)))
    }
}

/// Where all before position `i` is well, the first error is the one at `i`.
pub proof fn lemma_first_of(errors: Seq<Option<ErrorView>>, i: int)
    requires
        0 <= i <= errors.len(),
        forall|j: int| 0 <= j < i ==> (#[trigger] errors[j]) is None,
    ensures
        i == errors.len() ==> first_of(errors) is None,
        i < errors.len() && errors[i] is Some ==> first_of(errors) == errors[i],
    decreases errors.len(),
{
    if errors.len() > 0 && i > 0 {
        let rest = errors.skip(1);
        assert forall|j: int| 0 <= j < i - 1 implies (#[trigger] rest[j]) is None by {
            assert(rest[j] == errors[j + 1]);
        }
        lemma_first_of(rest, i - 1);
        assert(errors[0] is None);
    }
}

/// Where there is no first error, all is well.
pub proof fn lemma_first_of_none(errors: Seq<Option<ErrorView>>)
    requires
        first_of(errors) is None,
    ensures
        forall|j: int| 0 <= j < errors.len() ==> (#[trigger] errors[j]) is None,
    decreases errors.len(),
{
    if errors.len() > 0 {
        lemma_first_of_none(errors.skip(1));
        assert forall|j: int| 0 <= j < errors.len() implies (#[trigger] errors[j]) is None by {
            if j > 0 {
                assert(errors.skip(1)[j - 1] == errors[j]);
            }
        }
    }
}

/// An error with this text.
pub fn other(text: &str) -> (e: Error)
    ensures
        e@ == ErrorView::Other(text@),
{
    let mut owned = String::new();
    owned.append(text);
    assert(owned@ =~= text@);
    Error::Other(owned)
}

/// A runtime error as the model layer reports it.
pub open spec fn bridged(e: AclError) -> ErrorView {
    ErrorView::Other("aclnn: "@ + e.text())
}

/// Report a runtime error to the model layer.
pub fn acl_err(e: AclError) -> (error: Error)
    ensures
        error@ == bridged(e),
{
    let mut text = String::new();
    text.append("aclnn: ");
    let inner = e.message();
    text.append(inner.as_str());
    assert(text@ =~= "aclnn: "@ + e.text());
    Error::Other(text)
}

/// Carry a runtime result into the model layer.
pub fn acl<T>(r: Result<T, AclError>) -> (out: Result<T, Error>)
    ensures
        match r {
            Ok(v) => out == Ok::<T, Error>(v),
            Err(e) => out matches Err(error) && error@ == bridged(e),
        },
{
    match r {
        Ok(v) => Ok(v),
        Err(e) => Err(acl_err(e)),
    }
}

} // verus!
