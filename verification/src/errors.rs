//! Parse failures: the offset at which matching stopped and the chain of
//! production labels leading there, so a failure pinpoints both the
//! production path and the source offset.

use vstd::prelude::*;
use vstd::string::StringExecFns;

verus! {

/// A structured parse failure: the offset at which matching stopped, and
/// the chain of production labels leading there, innermost first.
#[derive(Debug)]
pub struct ParseError {
    pub offset: usize,
    pub contexts: Vec<String>,
}

impl ParseError {
    pub fn new(offset: usize, label: &str) -> (r: ParseError)
        ensures
            r.offset == offset,
            r.contexts@.len() == 1,
            r.contexts@[0]@ == label@,
    {
        let mut contexts: Vec<String> = Vec::new();
        contexts.push(String::from_str(label));
        ParseError { offset, contexts }
    }

    /// Extends the context chain with the label of an enclosing
    /// production.
    pub fn context(self, label: &str) -> (r: ParseError)
        ensures
            r.offset == self.offset,
            r.contexts@.len() == self.contexts@.len() + 1,
            r.contexts@.subrange(0, self.contexts@.len() as int) == self.contexts@,
            r.contexts@[self.contexts@.len() as int]@ == label@,
    {
        let ParseError { offset, mut contexts } = self;
        let ghost old_contexts = contexts@;
        contexts.push(String::from_str(label));
        proof {
            assert(contexts@.subrange(0, old_contexts.len() as int) =~= old_contexts);
        }
        ParseError { offset, contexts }
    }
}

} // verus!
