//! Stages: the number of bells a method is rung on, identified by its
//! conventional lower-case name ("singles", "major", ...), and the resolution
//! of a method title to the stage named by its trailing token.

use vstd::prelude::*;
use crate::text::{last_token, last_token_start, lemma_last_token, lower_seq, str_eq,
    token_lower_eq};

verus! {

/// A stage: how many bells a method is defined over.
#[derive(Debug, Clone, Copy, PartialEq, Eq, Structural, Hash)]
pub struct Stage {
    pub num_bells: u64,
}

/// The stage name table: maps a lower-case conventional name to its stage.
pub open spec fn stage_of_name(n: Seq<char>) -> Option<Stage> {
    if n == "singles"@ {
        Some(Stage { num_bells: 3 })
    } else if n == "minimus"@ {
        Some(Stage { num_bells: 4 })
    } else if n == "doubles"@ {
        Some(Stage { num_bells: 5 })
    } else if n == "minor"@ {
        Some(Stage { num_bells: 6 })
    } else if n == "triples"@ {
        Some(Stage { num_bells: 7 })
    } else if n == "major"@ {
        Some(Stage { num_bells: 8 })
    } else if n == "caters"@ {
        Some(Stage { num_bells: 9 })
    } else if n == "royal"@ {
        Some(Stage { num_bells: 10 })
    } else if n == "cinques"@ {
        Some(Stage { num_bells: 11 })
    } else if n == "maximus"@ {
        Some(Stage { num_bells: 12 })
    } else if n == "sextuples"@ {
        Some(Stage { num_bells: 13 })
    } else if n == "fourteen"@ {
        Some(Stage { num_bells: 14 })
    } else if n == "septuples"@ {
        Some(Stage { num_bells: 15 })
    } else if n == "sixteen"@ {
        Some(Stage { num_bells: 16 })
    } else {
        None
    }
}

/// The stage a title resolves to: the one named, case-insensitively, by the
/// title's last space-delimited token, if any.
pub open spec fn spec_resolve_title_stage(t: Seq<char>) -> Option<Stage> {
    stage_of_name(lower_seq(last_token(t)))
}

impl Stage {
    /// Looks a stage up by its canonical lower-case name.
    pub fn from_lower_case_name(name: &str) -> (r: Option<Stage>)
        ensures
            r == stage_of_name(name@),
    {
        if str_eq(name, "singles") {
            Some(Stage { num_bells: 3 })
        } else if str_eq(name, "minimus") {
            Some(Stage { num_bells: 4 })
        } else if str_eq(name, "doubles") {
            Some(Stage { num_bells: 5 })
        } else if str_eq(name, "minor") {
            Some(Stage { num_bells: 6 })
        } else if str_eq(name, "triples") {
            Some(Stage { num_bells: 7 })
        } else if str_eq(name, "major") {
            Some(Stage { num_bells: 8 })
        } else if str_eq(name, "caters") {
            Some(Stage { num_bells: 9 })
        } else if str_eq(name, "royal") {
            Some(Stage { num_bells: 10 })
        } else if str_eq(name, "cinques") {
            Some(Stage { num_bells: 11 })
        } else if str_eq(name, "maximus") {
            Some(Stage { num_bells: 12 })
        } else if str_eq(name, "sextuples") {
            Some(Stage { num_bells: 13 })
        } else if str_eq(name, "fourteen") {
            Some(Stage { num_bells: 14 })
        } else if str_eq(name, "septuples") {
            Some(Stage { num_bells: 15 })
        } else if str_eq(name, "sixteen") {
            Some(Stage { num_bells: 16 })
        } else {
            None
        }
    }
}

/// Resolves a title to a candidate stage: lower-case its last
/// space-delimited token and look that name up in the stage table.
pub fn resolve_title_stage(title: &str) -> (r: Option<Stage>)
    ensures
        r == spec_resolve_title_stage(title@),
{
    let start = last_token_start(title);
    proof {
        lemma_last_token(title@, start as int);
    }
    if token_lower_eq(title, start, "singles") {
        Some(Stage { num_bells: 3 })
    } else if token_lower_eq(title, start, "minimus") {
        Some(Stage { num_bells: 4 })
    } else if token_lower_eq(title, start, "doubles") {
        Some(Stage { num_bells: 5 })
    } else if token_lower_eq(title, start, "minor") {
        Some(Stage { num_bells: 6 })
    } else if token_lower_eq(title, start, "triples") {
        Some(Stage { num_bells: 7 })
    } else if token_lower_eq(title, start, "major") {
        Some(Stage { num_bells: 8 })
    } else if token_lower_eq(title, start, "caters") {
        Some(Stage { num_bells: 9 })
    } else if token_lower_eq(title, start, "royal") {
        Some(Stage { num_bells: 10 })
    } else if token_lower_eq(title, start, "cinques") {
        Some(Stage { num_bells: 11 })
    } else if token_lower_eq(title, start, "maximus") {
        Some(Stage { num_bells: 12 })
    } else if token_lower_eq(title, start, "sextuples") {
        Some(Stage { num_bells: 13 })
    } else if token_lower_eq(title, start, "fourteen") {
        Some(Stage { num_bells: 14 })
    } else if token_lower_eq(title, start, "septuples") {
        Some(Stage { num_bells: 15 })
    } else if token_lower_eq(title, start, "sixteen") {
        Some(Stage { num_bells: 16 })
    } else {
        None
    }
}

} // verus!
