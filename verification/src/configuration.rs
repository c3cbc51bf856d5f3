//! Operator-facing configuration of a pipeline run: which context (collect
//! or archive-only) and which collection (data set) to process.
//!
//! The selection is driven by a textual argument.  The interactive prompt
//! that re-asks on invalid input is I/O and lives with the binary; it
//! validates with [`parse_selection`] and only then calls the choosers.

use vstd::prelude::*;
use vstd::string::*;

use crate::text::{nat_of_string, parse_usize, parses_as_nat, trim_str, trimmed};

verus! {

/// Input arguments of the program.
pub struct InuputArguments {
    pub context: Option<String>,
    pub collection: Option<String>,
    pub search_term: Option<String>,
}

/// Selection of the run context and the target collection.
pub struct DataPipelineConfiguration<'a> {
    pub contexts: [&'a str; 2],
    pub collections: [&'a str; 2],
}

/// The argument selects an entry of a menu with `limit` entries: it is
/// present and its trimmed text is a numeral below `limit`.
pub open spec fn arg_selects(arg: Option<String>, limit: int) -> bool {
    match arg {
        Some(v) => parses_as_nat(trimmed(v@)) && nat_of_string(trimmed(v@)) < limit,
        None => false,
    }
}

/// The menu index the argument selects.
pub open spec fn arg_selection(arg: Option<String>) -> int {
    match arg {
        Some(v) => nat_of_string(trimmed(v@)),
        None => 0,
    }
}

/// Parses a menu reply: the trimmed input as a numeral below `limit`.
pub fn parse_selection(input: &str, limit: usize) -> (r: Option<usize>)
    ensures
        match r {
            Some(n) => parses_as_nat(trimmed(input@)) && n == nat_of_string(trimmed(input@)) && n
                < limit,
            None => !parses_as_nat(trimmed(input@)) || nat_of_string(trimmed(input@)) >= limit,
        },
{
    let t = trim_str(input);
    match parse_usize(t.as_str()) {
        Some(n) => {
            if n < limit {
                Some(n)
            } else {
                None
            }
        },
        None => None,
    }
}

impl<'a> DataPipelineConfiguration<'a> {
    /// Program constructor.
    pub fn new(contexts: [&'a str; 2], collections: [&'a str; 2]) -> (r:
        DataPipelineConfiguration<'a>)
        ensures
            r.contexts == contexts,
            r.collections == collections,
    {
        DataPipelineConfiguration { contexts, collections }
    }

    /// Resolves the context argument to the index of the selected context.
    /// The caller has already validated the argument (an unreadable or
    /// out-of-range one is re-prompted interactively before this point).
    pub fn choose_context(&self, context_arg: Option<String>) -> (r: usize)
        requires
            arg_selects(context_arg, self.contexts@.len() as int),
        ensures
            r == arg_selection(context_arg),
            r < self.contexts@.len(),
    {
        match context_arg {
            Some(v) => {
                let t = trim_str(v.as_str());
                match parse_usize(t.as_str()) {
                    Some(n) => n,
                    None => {
                        proof {
                            assert(false);
                        }
                        0
                    },
                }
            },
            None => {
                proof {
                    assert(false);
                }
                0
            },
        }
    }

    /// Resolves the collection argument to the index of the selected
    /// collection, under the same validation as [`Self::choose_context`].
    pub fn choose_collection(&self, collection_arg: Option<String>) -> (r: usize)
        requires
            arg_selects(collection_arg, self.collections@.len() as int),
        ensures
            r == arg_selection(collection_arg),
            r < self.collections@.len(),
    {
        match collection_arg {
            Some(v) => {
                let t = trim_str(v.as_str());
                match parse_usize(t.as_str()) {
                    Some(n) => n,
                    None => {
                        proof {
                            assert(false);
                        }
                        0
                    },
                }
            },
            None => {
                proof {
                    assert(false);
                }
                0
            },
        }
    }
}

} // verus!
