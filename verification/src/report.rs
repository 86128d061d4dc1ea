//! An error as the program reports it: what was being done, and the error
//! that caused it, if any.

use vstd::prelude::*;

use crate::text::concat;

verus! {

/// An error: its context, and the message of the error that caused it.
#[derive(Debug)]
pub struct ErrorReport {
    pub context: String,
    pub cause: Option<String>,
}

impl ErrorReport {
    /// The report is `context` alone.
    pub open spec fn is_plain(&self, context: Seq<char>) -> bool {
        self.context@ == context && self.cause is None
    }

    /// The report is `context`, caused by an error reading `cause`.
    pub open spec fn is_caused(&self, context: Seq<char>, cause: Seq<char>) -> bool {
        &&& self.context@ == context
        &&& self.cause matches Some(c) && c@ == cause
    }

    /// The one-line form: the context, then `: ` and the cause when there is one.
    pub open spec fn text(&self) -> Seq<char> {
        match self.cause {
            Some(c) => self.context@ + ": "@ + c@,
            None => self.context@,
        }
    }

    /// The one-line form of the report.
    pub fn message(&self) -> (res: String)
        ensures
            res@ == self.text(),
    {
        match &self.cause {
            Some(c) => {
                let mut s = concat(self.context.as_str(), ": ");
                s.append(c.as_str());
                s
            },
            None => self.context.clone(),
        }
    }
}

} // verus!
