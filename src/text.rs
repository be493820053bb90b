//! Characters, whitespace and trimming, on the `Seq<char>` view of strings.

use vstd::prelude::*;

verus! {

/// Unicode `White_Space`: the characters that `\s` and `str::trim` treat as
/// whitespace.
pub open spec fn is_space(c: char) -> bool {
    ||| '\t' <= c <= '\r'
    ||| c == ' '
    ||| c == '\u{85}'
    ||| c == '\u{a0}'
    ||| c == '\u{1680}'
    ||| '\u{2000}' <= c <= '\u{200a}'
    ||| c == '\u{2028}'
    ||| c == '\u{2029}'
    ||| c == '\u{202f}'
    ||| c == '\u{205f}'
    ||| c == '\u{3000}'
}

/// Executable test for [`is_space`].
pub fn space(c: char) -> (r: bool)
    ensures
        r == is_space(c),
{
    ('\t' <= c && c <= '\r') || c == ' ' || c == '\u{85}' || c == '\u{a0}' || c == '\u{1680}'
        || ('\u{2000}' <= c && c <= '\u{200a}') || c == '\u{2028}' || c == '\u{2029}'
        || c == '\u{202f}' || c == '\u{205f}' || c == '\u{3000}'
}

/// The characters of `s`, in order.
pub fn chars_of(s: &str) -> (r: Vec<char>)
    ensures
        r@ == s@,
{
    let mut r: Vec<char> = Vec::new();
    for c in it: s.chars()
        invariant
            it.seq() == s@,
            r@ == it.seq().take(it.index() as int),
    {
        r.push(c);
    }
    r
}

/// `s` without its leading whitespace.
pub open spec fn trim_start(s: Seq<char>) -> Seq<char>
    decreases s.len(),
{
    if s.len() > 0 && is_space(s[0]) {
        trim_start(s.drop_first())
    } else {
        s
    }
}

/// `s` without its trailing whitespace.
pub open spec fn trim_end(s: Seq<char>) -> Seq<char>
    decreases s.len(),
{
    if s.len() > 0 && is_space(s.last()) {
        trim_end(s.drop_last())
    } else {
        s
    }
}

/// `s` without its surrounding whitespace.
pub open spec fn trim(s: Seq<char>) -> Seq<char> {
    trim_end(trim_start(s))
}

/// Position of the first `c` in `s`, if there is one.
pub open spec fn index_of(s: Seq<char>, c: char) -> Option<int>
    decreases s.len(),
{
    if s.len() == 0 {
        None
    } else if s[0] == c {
        Some(0)
    } else {
        match index_of(s.drop_first(), c) {
            Some(i) => Some(i + 1),
            None => None,
        }
    }
}

/// Trimming the front stops at the first character that is no space.
pub proof fn lemma_trim_start_at(s: Seq<char>, i: int)
    requires
        0 <= i <= s.len(),
        forall|k: int| 0 <= k < i ==> is_space(s[k]),
        i == s.len() || !is_space(s[i]),
    ensures
        trim_start(s) == s.subrange(i, s.len() as int),
    decreases i,
{
    if i == 0 {
        assert(s.subrange(0, s.len() as int) =~= s);
    } else {
        let t = s.drop_first();
        assert forall|k: int| 0 <= k < i - 1 implies is_space(t[k]) by {
            assert(t[k] == s[k + 1]);
        }
        lemma_trim_start_at(t, i - 1);
        assert(t.subrange(i - 1, t.len() as int) =~= s.subrange(i, s.len() as int));
    }
}

/// Trimming the back stops after the last character that is no space.
pub proof fn lemma_trim_end_at(s: Seq<char>, j: int)
    requires
        0 <= j <= s.len(),
        forall|k: int| j <= k < s.len() ==> is_space(s[k]),
        j == 0 || !is_space(s[j - 1]),
    ensures
        trim_end(s) == s.subrange(0, j),
    decreases s.len() - j,
{
    if j == s.len() {
        assert(s.subrange(0, j) =~= s);
    } else {
        let t = s.drop_last();
        lemma_trim_end_at(t, j);
        assert(t.subrange(0, j) =~= s.subrange(0, j));
    }
}

/// The first `c` is where a search that met no `c` before stops.
pub proof fn lemma_index_of_at(s: Seq<char>, c: char, i: int)
    requires
        0 <= i <= s.len(),
        forall|k: int| 0 <= k < i ==> s[k] != c,
        i == s.len() || s[i] == c,
    ensures
        index_of(s, c) == (if i < s.len() { Some(i) } else { None::<int> }),
    decreases i,
{
    if i > 0 {
        let t = s.drop_first();
        assert forall|k: int| 0 <= k < i - 1 implies t[k] != c by {
            assert(t[k] == s[k + 1]);
        }
        lemma_index_of_at(t, c, i - 1);
    }
}

/// How many characters at the front of `s` are no space.
pub open spec fn word_len(s: Seq<char>) -> nat
    decreases s.len(),
{
    if s.len() > 0 && !is_space(s[0]) {
        1 + word_len(s.drop_first())
    } else {
        0
    }
}

/// A word ends at the first space.
pub proof fn lemma_word_len_at(s: Seq<char>, i: int)
    requires
        0 <= i <= s.len(),
        forall|k: int| 0 <= k < i ==> !is_space(s[k]),
        i == s.len() || is_space(s[i]),
    ensures
        word_len(s) == i,
    decreases i,
{
    if i > 0 {
        let t = s.drop_first();
        assert forall|k: int| 0 <= k < i - 1 implies !is_space(t[k]) by {
            assert(t[k] == s[k + 1]);
        }
        lemma_word_len_at(t, i - 1);
    }
}

/// A found position holds the character searched for.
pub proof fn lemma_index_of_found(s: Seq<char>, c: char)
    ensures
        index_of(s, c) matches Some(i) ==> 0 <= i < s.len() && s[i] == c,
    decreases s.len(),
{
    if s.len() > 0 && s[0] != c {
        lemma_index_of_found(s.drop_first(), c);
    }
}

/// Trimming `s[lo..hi]` leaves `s[a..b]` for some `lo <= a <= b <= hi`.
pub proof fn lemma_trim_is_slice(s: Seq<char>, lo: int, hi: int) -> (r: (int, int))
    requires
        0 <= lo <= hi <= s.len(),
    ensures
        lo <= r.0 <= r.1 <= hi,
        trim(s.subrange(lo, hi)) == s.subrange(r.0, r.1),
    decreases hi - lo,
{
    let x = s.subrange(lo, hi);
    if x.len() > 0 && is_space(x[0]) {
        assert(x.drop_first() =~= s.subrange(lo + 1, hi));
        lemma_trim_is_slice(s, lo + 1, hi)
    } else {
        assert(trim_start(x) == x);
        if x.len() > 0 && is_space(x.last()) {
            let y = x.drop_last();
            assert(y =~= s.subrange(lo, hi - 1));
            assert(trim_start(y) == y) by {
                if y.len() > 0 {
                    assert(y[0] == x[0]);
                }
            }
            lemma_trim_is_slice(s, lo, hi - 1)
        } else {
            (lo, hi)
        }
    }
}

/// Bounds `(a, b)` of `cs[lo..hi]` with its surrounding whitespace cut off.
pub fn trim_bounds(cs: &Vec<char>, lo: usize, hi: usize) -> (r: (usize, usize))
    requires
        lo <= hi <= cs@.len(),
    ensures
        lo <= r.0 <= r.1 <= hi,
        cs@.subrange(r.0 as int, r.1 as int) == trim(cs@.subrange(lo as int, hi as int)),
{
    let mut a: usize = lo;
    while a < hi && space(cs[a])
        invariant
            lo <= a <= hi <= cs@.len(),
            forall|k: int| lo <= k < a ==> is_space(cs@[k]),
        decreases hi - a,
    {
        a = a + 1;
    }
    let mut b: usize = hi;
    while b > a && space(cs[b - 1])
        invariant
            lo <= a <= b <= hi <= cs@.len(),
            forall|k: int| b <= k < hi ==> is_space(cs@[k]),
        decreases b - a,
    {
        b = b - 1;
    }
    proof {
        let s = cs@.subrange(lo as int, hi as int);
        lemma_trim_start_at(s, a - lo);
        let u = s.subrange(a - lo, s.len() as int);
        assert(u =~= cs@.subrange(a as int, hi as int));
        lemma_trim_end_at(u, b - a);
        assert(u.subrange(0, b - a) =~= cs@.subrange(a as int, b as int));
    }
    (a, b)
}

/// End of `cs[lo..hi]` with its trailing whitespace cut off.
pub fn trim_end_bound(cs: &Vec<char>, lo: usize, hi: usize) -> (r: usize)
    requires
        lo <= hi <= cs@.len(),
    ensures
        lo <= r <= hi,
        cs@.subrange(lo as int, r as int) == trim_end(cs@.subrange(lo as int, hi as int)),
{
    let mut b: usize = hi;
    while b > lo && space(cs[b - 1])
        invariant
            lo <= b <= hi <= cs@.len(),
            forall|k: int| b <= k < hi ==> is_space(cs@[k]),
        decreases b - lo,
    {
        b = b - 1;
    }
    proof {
        let u = cs@.subrange(lo as int, hi as int);
        lemma_trim_end_at(u, b - lo);
        assert(u.subrange(0, b - lo) =~= cs@.subrange(lo as int, b as int));
    }
    b
}

/// Position of the first `c` in `cs[lo..hi]`, or `hi` where there is none.
pub fn find_char(cs: &Vec<char>, c: char, lo: usize, hi: usize) -> (r: usize)
    requires
        lo <= hi <= cs@.len(),
    ensures
        lo <= r <= hi,
        r < hi ==> cs@[r as int] == c,
        forall|k: int| lo <= k < r ==> cs@[k] != c,
{
    let mut i: usize = lo;
    while i < hi && cs[i] != c
        invariant
            lo <= i <= hi <= cs@.len(),
            forall|k: int| lo <= k < i ==> cs@[k] != c,
        decreases hi - i,
    {
        i = i + 1;
    }
    i
}

/// The characters `s[from..to]` as a new string.
pub fn slice(s: &str, from: usize, to: usize) -> (r: String)
    requires
        from <= to <= s@.len(),
    ensures
        r@ == s@.subrange(from as int, to as int),
{
    s.substring_char(from, to).to_owned()
}

} // verus!
