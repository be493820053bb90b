//! Symbol definitions of the form `label = expression`.

use std::str::FromStr;

use vstd::prelude::*;

use crate::text::{
    chars_of, find_char, index_of, lemma_index_of_at, slice, trim, trim_bounds, trim_end,
    trim_end_bound,
};

verus! {

/// A definition that binds a label to an unevaluated expression.
#[derive(Debug, PartialEq, Eq)]
pub struct Definition {
    pub label: String,
    pub expression: String,
}

/// How `s` reads as a definition: split at the first `=`, the label is the
/// text before it without its trailing whitespace (leading whitespace stays),
/// and the expression is the trimmed text after it; neither may be empty.
pub open spec fn definition_spec(s: Seq<char>) -> Option<(Seq<char>, Seq<char>)> {
    match index_of(s, '=') {
        Some(i) => {
            let label = trim_end(s.subrange(0, i));
            let expression = trim(s.subrange(i + 1, s.len() as int));
            if label.len() > 0 && expression.len() > 0 {
                Some((label, expression))
            } else {
                None
            }
        },
        None => None,
    }
}

impl Definition {
    /// Reads `label = expression`.
    pub fn parse(s: &str) -> (r: Result<Definition, ()>)
        ensures
            match definition_spec(s@) {
                Some((l, e)) => r matches Ok(d) && d.label@ == l && d.expression@ == e,
                None => r is Err,
            },
    {
        let cs = chars_of(s);
        let n = cs.len();
        let eq = find_char(&cs, '=', 0, n);
        proof {
            lemma_index_of_at(s@, '=', eq as int);
        }
        if eq == n {
            return Err(());
        }
        let b = trim_end_bound(&cs, 0, eq);
        let (c, d) = trim_bounds(&cs, eq + 1, n);
        if b == 0 || c == d {
            return Err(());
        }
        Ok(Definition { label: slice(s, 0, b), expression: slice(s, c, d) })
    }
}

impl FromStr for Definition {
    type Err = ();

    fn from_str(s: &str) -> (r: Result<Definition, ()>)
        ensures
            match definition_spec(s@) {
                Some((l, e)) => r matches Ok(d) && d.label@ == l && d.expression@ == e,
                None => r is Err,
            },
    {
        Definition::parse(s)
    }
}

} // verus!
