//! Scanner and precedence-climbing parser for a small expression language, with
//! line-annotated diagnostics.
use vstd::prelude::*;

pub mod error;
pub mod expr;
pub mod lex;
pub mod parser;
pub mod text;
pub mod token;

verus! {

/// Handle of the front end; it holds no state of its own.
pub struct RLox {
    _inner: i32,
}

impl RLox {
    /// The handle's one field.
    pub closed spec fn inner(&self) -> i32 {
        self._inner
    }

    pub fn default() -> (r: Self)
        ensures
            r.inner() == 0,
    {
        RLox { _inner: 0 }
    }
}

} // verus!
