//! Assembler directives of the form `.operation operand`.

use std::str::FromStr;

use vstd::prelude::*;

use crate::text::{
    chars_of, lemma_trim_start_at, lemma_word_len_at, slice, space, trim_start, word_len,
};

verus! {

/// A directive: its name after the dot, and its operand text.
#[derive(Debug, PartialEq, Eq)]
pub struct Directive {
    pub operation: String,
    pub operand: String,
}

/// How `s` reads as a directive. Past leading whitespace comes a `.`, then the
/// operation, a non-empty run of characters that are no space, then
/// whitespace, then the operand: the non-empty rest of the text, trailing
/// whitespace included.
pub open spec fn directive_spec(s: Seq<char>) -> Option<(Seq<char>, Seq<char>)> {
    let t = trim_start(s);
    if t.len() > 0 && t[0] == '.' {
        let w = word_len(t.subrange(1, t.len() as int)) as int;
        let operand = trim_start(t.subrange(1 + w, t.len() as int));
        if w > 0 && operand.len() > 0 {
            Some((t.subrange(1, 1 + w), operand))
        } else {
            None
        }
    } else {
        None
    }
}

impl Directive {
    /// Reads `.operation operand`.
    pub fn parse(s: &str) -> (r: Result<Directive, ()>)
        ensures
            match directive_spec(s@) {
                Some((op, arg)) => r matches Ok(d) && d.operation@ == op && d.operand@ == arg,
                None => r is Err,
            },
    {
        let cs = chars_of(s);
        let n = cs.len();
        let mut a: usize = 0;
        while a < n && space(cs[a])
            invariant
                a <= n == cs@.len(),
                forall|k: int| 0 <= k < a ==> crate::text::is_space(cs@[k]),
            decreases n - a,
        {
            a = a + 1;
        }
        proof {
            lemma_trim_start_at(s@, a as int);
        }
        if a == n || cs[a] != '.' {
            return Err(());
        }
        let mut b: usize = a + 1;
        while b < n && !space(cs[b])
            invariant
                a < b <= n == cs@.len(),
                forall|k: int| a < k < b ==> !crate::text::is_space(cs@[k]),
            decreases n - b,
        {
            b = b + 1;
        }
        let mut c: usize = b;
        while c < n && space(cs[c])
            invariant
                b <= c <= n == cs@.len(),
                forall|k: int| b <= k < c ==> crate::text::is_space(cs@[k]),
            decreases n - c,
        {
            c = c + 1;
        }
        proof {
            let t = s@.subrange(a as int, n as int);
            let u = t.subrange(1, t.len() as int);
            assert forall|k: int| 0 <= k < b - a - 1 implies !crate::text::is_space(u[k]) by {
                assert(u[k] == cs@[a + 1 + k]);
            }
            lemma_word_len_at(u, b - a - 1);
            let rest = t.subrange(b - a, t.len() as int);
            assert forall|k: int| 0 <= k < c - b implies crate::text::is_space(rest[k]) by {
                assert(rest[k] == cs@[b + k]);
            }
            lemma_trim_start_at(rest, c - b);
            assert(t.subrange(1, b - a) =~= s@.subrange(a + 1, b as int));
            assert(rest.subrange(c - b, rest.len() as int) =~= s@.subrange(c as int, n as int));
        }
        if b == a + 1 || c == n {
            return Err(());
        }
        Ok(Directive { operation: slice(s, a + 1, b), operand: slice(s, c, n) })
    }
}

impl FromStr for Directive {
    type Err = ();

    fn from_str(s: &str) -> (r: Result<Directive, ()>)
        ensures
            match directive_spec(s@) {
                Some((op, arg)) => r matches Ok(d) && d.operation@ == op && d.operand@ == arg,
                None => r is Err,
            },
    {
        Directive::parse(s)
    }
}

} // verus!
