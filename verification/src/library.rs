//! Shared libraries that are loaded when they are first needed.

use vstd::prelude::*;
use vstd::string::StringExecFns;

verus! {

/// What came of loading a library. The first attempt decides: a library is not
/// looked for again.
#[derive(Debug, Clone, Copy, PartialEq, Eq, Structural)]
pub enum Library {
    Untried,
    Loaded,
    Missing,
}

impl Library {
    /// Whether an attempt to load the library is still to be made.
    pub fn is_untried(&self) -> (untried: bool)
        ensures
            untried == (*self == Library::Untried),
    {
        match self {
            Library::Untried => true,
            _ => false,
        }
    }

    /// Note what came of an attempt.
    pub fn tried(&mut self, found: bool)
        ensures
            *final(self) == (if *old(self) != Library::Untried {
                *old(self)
            } else if found {
                Library::Loaded
            } else {
                Library::Missing
            }),
    {
        if self.is_untried() {
            *self =
            if found {
                Library::Loaded
            } else {
                Library::Missing
            };
        }
    }
}

/// Where a library is: where the environment says, else at its default place.
pub fn library_path(given: Option<String>, default: &str) -> (path: String)
    ensures
        path@ == (match given {
            Some(text) => text@,
            None => default@,
        }),
{
    match given {
        Some(text) => text,
        None => {
            let mut text = String::new();
            text.append(default);
            assert(text@ =~= default@);
            text
        },
    }
}

} // verus!
