use std::error::Error;
use std::fmt;

use pretty_error_debug::{Display, ErrorNode, Wrapper};

/// The chain of `error` and its causes, as the library models it.
fn node_of(error: &dyn Error) -> ErrorNode {
    let mut messages = Vec::new();
    let mut next = Some(error);
    while let Some(e) = next {
        messages.push(e.to_string());
        next = e.source();
    }
    let mut node = ErrorNode::new(messages.pop().unwrap());
    while let Some(message) = messages.pop() {
        node = ErrorNode::with_source(message, node);
    }
    node
}

#[derive(Debug, Clone, Copy)]
enum RootError {
    Reasons,
}

impl fmt::Display for RootError {
    fn fmt(&self, f: &mut fmt::Formatter<'_>) -> fmt::Result {
        match self {
            RootError::Reasons => f.write_str("Reasons"),
        }
    }
}

impl Error for RootError {}

#[derive(Debug, Clone, Copy)]
enum InnerError {
    Cause { root: RootError },
}

impl fmt::Display for InnerError {
    fn fmt(&self, f: &mut fmt::Formatter<'_>) -> fmt::Result {
        match self {
            InnerError::Cause { root } => f.write_str(&format!("Failed because of {:?}", root)),
        }
    }
}

impl Error for InnerError {
    fn source(&self) -> Option<&(dyn Error + 'static)> {
        match self {
            InnerError::Cause { root } => Some(root),
        }
    }
}

impl From<RootError> for InnerError {
    fn from(root: RootError) -> Self {
        InnerError::Cause { root }
    }
}

#[derive(Clone, Copy)]
enum OuterError {
    Inner(InnerError),
}

impl fmt::Debug for OuterError {
    fn fmt(&self, f: &mut fmt::Formatter<'_>) -> fmt::Result {
        f.write_str(&node_of(self).to_debug_string())
    }
}

impl fmt::Display for OuterError {
    fn fmt(&self, f: &mut fmt::Formatter<'_>) -> fmt::Result {
        match self {
            OuterError::Inner(_) => f.write_str("Got an InnerError"),
        }
    }
}

impl Error for OuterError {
    fn source(&self) -> Option<&(dyn Error + 'static)> {
        match self {
            OuterError::Inner(cause) => Some(cause),
        }
    }
}

impl From<InnerError> for OuterError {
    fn from(cause: InnerError) -> Self {
        OuterError::Inner(cause)
    }
}

#[derive(Debug, Clone, Copy)]
enum SimpleOuterError {
    Inner(InnerError),
}

impl fmt::Display for SimpleOuterError {
    fn fmt(&self, f: &mut fmt::Formatter<'_>) -> fmt::Result {
        match self {
            SimpleOuterError::Inner(_) => f.write_str("Got an InnerError"),
        }
    }
}

impl Error for SimpleOuterError {
    fn source(&self) -> Option<&(dyn Error + 'static)> {
        match self {
            SimpleOuterError::Inner(cause) => Some(cause),
        }
    }
}

impl From<InnerError> for SimpleOuterError {
    fn from(cause: InnerError) -> Self {
        SimpleOuterError::Inner(cause)
    }
}

fn root() -> Result<(), RootError> {
    Err(RootError::Reasons)
}

fn inner() -> Result<(), InnerError> {
    root().map_err(InnerError::from)
}

fn outer() -> Result<(), OuterError> {
    inner().map_err(OuterError::from)
}

fn simple_outer() -> Result<(), SimpleOuterError> {
    inner().map_err(SimpleOuterError::Inner)
}

const EXPECTED: &str = "\
Got an InnerError

Caused by:
    1: Failed because of Reasons
    2: Reasons\
";

#[test]
fn test_derive() {
    let outcome = format!("{:?}", outer().unwrap_err());
    assert_eq!(EXPECTED, &outcome);
}

#[test]
fn test_wrapper() {
    let outcome = Wrapper::from(node_of(&simple_outer().unwrap_err())).to_debug_string();
    assert_eq!(EXPECTED, &outcome);
}

#[test]
fn test_display() {
    let outcome = Display(&node_of(&simple_outer().unwrap_err())).to_string();
    assert_eq!(EXPECTED, &outcome);
}
