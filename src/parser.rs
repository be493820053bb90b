//! Splitting one source line into label, instruction and comment.

use vstd::prelude::*;

use crate::text::{
    chars_of, find_char, index_of, lemma_index_of_at, lemma_index_of_found, lemma_trim_is_slice,
    slice, trim, trim_bounds,
};

verus! {

/// One source line, split into its three optional parts.
#[derive(Debug, PartialEq, Eq)]
pub struct Line {
    /// Text before the label delimiter `:`, trimmed.
    pub label: Option<String>,
    /// Text between the label and the comment, trimmed; never empty.
    pub instruction: Option<String>,
    /// Text after the comment delimiter `;`, exactly as written.
    pub comment: Option<String>,
}

/// The parts of a line as character sequences.
pub struct LineView {
    pub label: Option<Seq<char>>,
    pub instruction: Option<Seq<char>>,
    pub comment: Option<Seq<char>>,
}

impl View for Line {
    type V = LineView;

    open spec fn view(&self) -> LineView {
        LineView {
            label: self.label.deep_view(),
            instruction: self.instruction.deep_view(),
            comment: self.comment.deep_view(),
        }
    }
}

/// Where the code of line `s` ends: at the first `;`, or at the end.
pub open spec fn code_end(s: Seq<char>) -> int {
    match index_of(s, ';') {
        Some(i) => i,
        None => s.len() as int,
    }
}

/// A `:` at `i` followed by `+` or `-` begins a relative branch target such
/// as `:+`, and delimits no label.
pub open spec fn starts_branch_target(s: Seq<char>, i: int) -> bool {
    i + 1 < s.len() && (s[i + 1] == '+' || s[i + 1] == '-')
}

/// The position of the label delimiter: the first `:` before any `;`, unless
/// it begins a relative branch target.
pub open spec fn label_colon(s: Seq<char>) -> Option<int> {
    match index_of(s.subrange(0, code_end(s)), ':') {
        Some(i) => if starts_branch_target(s, i) {
            None
        } else {
            Some(i)
        },
        None => None,
    }
}

/// Where the instruction region of `s` begins.
pub open spec fn instruction_start(s: Seq<char>) -> int {
    match label_colon(s) {
        Some(i) => i + 1,
        None => 0,
    }
}

/// How line `s` splits.
pub open spec fn split_spec(s: Seq<char>) -> LineView {
    let body = trim(s.subrange(instruction_start(s), code_end(s)));
    LineView {
        label: match label_colon(s) {
            Some(i) => Some(trim(s.subrange(0, i))),
            None => None,
        },
        instruction: if body.len() == 0 {
            None
        } else {
            Some(body)
        },
        comment: match index_of(s, ';') {
            Some(i) => Some(s.subrange(i + 1, s.len() as int)),
            None => None,
        },
    }
}

impl Line {
    /// Splits one line of source into label, instruction and comment. A `:`
    /// directly followed by `+` or `-`, as in `beq :+`, belongs to the
    /// instruction.
    pub fn from(line: &str) -> (r: Line)
        ensures
            r@ == split_spec(line@),
    {
        let cs = chars_of(line);
        let n = cs.len();
        let semi = find_char(&cs, ';', 0, n);
        let colon = find_char(&cs, ':', 0, semi);
        proof {
            lemma_index_of_at(line@, ';', semi as int);
            let code = line@.subrange(0, semi as int);
            lemma_index_of_at(code, ':', colon as int);
        }
        let branch_target = colon < semi && colon + 1 < n && (cs[colon + 1] == '+' || cs[colon + 1] == '-');
        let is_label = colon < semi && !branch_target;
        let mut start: usize = 0;
        let mut label: Option<String> = None;
        if is_label {
            let (a, b) = trim_bounds(&cs, 0, colon);
            label = Some(slice(line, a, b));
            start = colon + 1;
        }
        let (a, b) = trim_bounds(&cs, start, semi);
        let instruction = if a < b {
            Some(slice(line, a, b))
        } else {
            None
        };
        let comment = if semi < n {
            Some(slice(line, semi + 1, n))
        } else {
            None
        };
        Line { label, instruction, comment }
    }
}

impl Default for Line {
    /// A line with none of its parts.
    fn default() -> (r: Line)
        ensures
            r@ == (LineView { label: None, instruction: None, comment: None }),
    {
        Line { label: None, instruction: None, comment: None }
    }
}

/// Every part of a split line is a run of the line's own characters, and the
/// label, the instruction and the comment stand in this order without overlap:
/// the positions returned bound the label in `s[a..b]`, the instruction in
/// `s[c..d]` and the comment in `s[e..]`.
pub proof fn lemma_split_parts_are_slices(s: Seq<char>) -> (r: (int, int, int, int, int))
    ensures
        0 <= r.0 <= r.1 <= r.2 <= r.3 <= r.4 <= s.len(),
        split_spec(s).label matches Some(l) ==> l == s.subrange(r.0, r.1),
        split_spec(s).instruction matches Some(t) ==> t == s.subrange(r.2, r.3),
        split_spec(s).comment matches Some(m) ==> m == s.subrange(r.4, s.len() as int),
{
    lemma_index_of_found(s, ';');
    let end = code_end(s);
    lemma_index_of_found(s.subrange(0, end), ':');
    let (a, b) = match label_colon(s) {
        Some(i) => lemma_trim_is_slice(s, 0, i),
        None => (0, 0),
    };
    let (c, d) = lemma_trim_is_slice(s, instruction_start(s), end);
    let e = match index_of(s, ';') {
        Some(i) => i + 1,
        None => s.len() as int,
    };
    (a, b, c, d, e)
}

/// A comment split off a line comes back unchanged, and alone, from splitting
/// `;` followed by it.
pub proof fn lemma_comment_resplit(s: Seq<char>)
    ensures
        split_spec(s).comment matches Some(m) ==> split_spec(seq![';'] + m) == (LineView {
            label: None,
            instruction: None,
            comment: Some(m),
        }),
{
    if let Some(m) = split_spec(s).comment {
        let t = seq![';'] + m;
        assert(t[0] == ';');
        assert(index_of(t, ';') == Some(0int));
        assert(t.subrange(0, 0) =~= Seq::<char>::empty());
        assert(t.subrange(1, t.len() as int) =~= m);
    }
}

} // verus!
