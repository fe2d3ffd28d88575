//! Renders an error and the chain of its causes as an indented, human-readable report.
//!
//! An error is modelled by [`ErrorNode`]: a message and, optionally, the error
//! that caused it. [`pretty_error_debug`] writes the message, then, when there
//! is a cause, a `Caused by:` section with one indented block per cause.

mod error;
mod indent;
mod report;
mod wrapper;

pub use error::{chain_from, chain_of, Chain, ErrorNode};
pub use indent::{
    block, decimal, digit_char, fragment, join, label, lemma_block_lines, lemma_fragments_concat,
    lemma_label_width, ordinal_of, pad, reindent, right_aligned, spaces, Indented,
};
pub use report::{
    cause_blocks, caused_by, concat_all, lemma_no_cause, lemma_numbered_causes,
    lemma_report_deterministic, lemma_single_cause, numbered_entry, numbering, pretty_error_debug,
    report,
};
pub use wrapper::{Display, Wrapper};
