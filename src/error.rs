use vstd::prelude::*;

verus! {

/// An error with its message and, optionally, the error that caused it.
pub struct ErrorNode {
    pub message: String,
    pub source: Option<Box<ErrorNode>>,
}

/// The messages along the causal chain that starts at `e`: `e`'s own message
/// first, then its cause's, and so on until an error without a cause.
pub open spec fn chain_of(e: ErrorNode) -> Seq<Seq<char>>
    decreases e,
{
    seq![e.message@] + match e.source {
        Some(cause) => chain_of(*cause),
        None => Seq::empty(),
    }
}

/// The messages of the chain that starts at `e`, or none when there is no error.
pub open spec fn chain_from(e: Option<&ErrorNode>) -> Seq<Seq<char>> {
    match e {
        Some(e) => chain_of(*e),
        None => Seq::empty(),
    }
}

impl View for ErrorNode {
    type V = Seq<Seq<char>>;

    open spec fn view(&self) -> Seq<Seq<char>> {
        chain_of(*self)
    }
}

impl ErrorNode {
    /// An error with no cause.
    pub fn new(message: String) -> (r: ErrorNode)
        ensures
            r@ == seq![message@],
            r.source is None,
    {
        ErrorNode { message, source: None }
    }

    /// An error caused by `source`.
    pub fn with_source(message: String, source: ErrorNode) -> (r: ErrorNode)
        ensures
            r@ == seq![message@] + source@,
            r.source == Some(Box::new(source)),
    {
        ErrorNode { message, source: Some(Box::new(source)) }
    }

    /// The error's own message.
    pub fn message(&self) -> (r: &str)
        ensures
            r@ == self.message@,
            r@ == self@[0],
    {
        self.message.as_str()
    }

    /// The error that caused this one, if any.
    pub fn source(&self) -> (r: Option<&ErrorNode>)
        ensures
            chain_from(r) == self@.drop_first(),
            r is Some <==> self.source is Some,
            r is Some <==> self@.len() > 1,
    {
        match &self.source {
            Some(cause) => {
                assert(chain_of(**cause).len() > 0);
                Some(&**cause)
            },
            None => None,
        }
    }
}

/// Walks a causal chain, yielding each error in turn.
pub struct Chain<'a> {
    pub next: Option<&'a ErrorNode>,
}

impl<'a> View for Chain<'a> {
    type V = Seq<Seq<char>>;

    /// The messages of the errors still to be yielded.
    open spec fn view(&self) -> Seq<Seq<char>> {
        chain_from(self.next)
    }
}

impl<'a> Chain<'a> {
    pub fn new(start: Option<&'a ErrorNode>) -> (r: Chain<'a>)
        ensures
            r@ == chain_from(start),
    {
        Chain { next: start }
    }

    /// Yields the next error of the chain, or `None` once it is exhausted.
    pub fn next(&mut self) -> (r: Option<&'a ErrorNode>)
        ensures
            old(self)@.len() == 0 ==> r is None && final(self)@ == old(self)@,
            old(self)@.len() > 0 ==> r is Some && r->0@ == old(self)@ && final(self)@
                == old(self)@.drop_first(),
    {
        match self.next {
            Some(error) => {
                self.next = error.source();
                assert(error@[0] == error.message@);
                Some(error)
            },
            None => None,
        }
    }
}

} // verus!
