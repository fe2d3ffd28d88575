use vstd::prelude::*;

use crate::error::ErrorNode;
use crate::report::{pretty_error_debug, report};

verus! {

impl ErrorNode {
    /// The error's display text: its own message.
    pub fn to_string(&self) -> (r: String)
        ensures
            r@ == self@[0],
    {
        String::from_str(self.message())
    }

    /// The error's debug text: the report of its whole causal chain.
    pub fn to_debug_string(&self) -> (r: String)
        requires
            self@.len() <= usize::MAX,
        ensures
            r@ == report(self@),
    {
        let mut out = String::new();
        pretty_error_debug(self, &mut out);
        out
    }
}

/// Owns an error and renders the report of its causal chain as its own debug
/// text. The wrapped error is the wrapper's cause.
pub struct Wrapper<E>(pub E);

impl<E> Wrapper<E> {
    /// Wraps `err`.
    pub fn new(err: E) -> (r: Self)
        ensures
            r.0 == err,
    {
        Wrapper(err)
    }

    /// The wrapper's cause: the wrapped error.
    pub fn source(&self) -> (r: Option<&E>)
        ensures
            r == Some(&self.0),
    {
        Some(&self.0)
    }
}

impl<E> From<E> for Wrapper<E> {
    fn from(value: E) -> (r: Self) {
        Wrapper(value)
    }
}

impl<E> vstd::std_specs::convert::FromSpecImpl<E> for Wrapper<E> {
    open spec fn obeys_from_spec() -> bool {
        true
    }

    open spec fn from_spec(v: E) -> Self {
        Wrapper(v)
    }
}

impl Wrapper<ErrorNode> {
    /// The wrapper's display text: the wrapped error's message.
    pub fn to_string(&self) -> (r: String)
        ensures
            r@ == self.0@[0],
    {
        self.0.to_string()
    }

    /// The wrapper's debug text: the report of the wrapped error's chain.
    pub fn to_debug_string(&self) -> (r: String)
        requires
            self.0@.len() <= usize::MAX,
        ensures
            r@ == report(self.0@),
    {
        self.0.to_debug_string()
    }
}

/// Borrows an error and renders the report of its causal chain as its own
/// display text.
pub struct Display<'a, E>(pub &'a E);

impl<'a, E> Display<'a, E> {
    /// Wraps the reference `err`.
    pub fn new(err: &'a E) -> (r: Self)
        ensures
            r.0 == err,
    {
        Display(err)
    }
}

impl<'a, E> From<&'a E> for Display<'a, E> {
    fn from(value: &'a E) -> (r: Self) {
        Display(value)
    }
}

impl<'a, E> vstd::std_specs::convert::FromSpecImpl<&'a E> for Display<'a, E> {
    open spec fn obeys_from_spec() -> bool {
        true
    }

    open spec fn from_spec(v: &'a E) -> Self {
        Display(v)
    }
}

impl<'a> Display<'a, ErrorNode> {
    /// The display text: the report of the borrowed error's chain.
    pub fn to_string(&self) -> (r: String)
        requires
            self.0@.len() <= usize::MAX,
        ensures
            r@ == report(self.0@),
    {
        self.0.to_debug_string()
    }
}

} // verus!
