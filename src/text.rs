//! Character-level helpers shared by the record parsers.

use vstd::prelude::*;
use vstd::std_specs::iter::IteratorSpec;

verus! {

/// The separator ` -> ` starts at position `i` of `s`.
pub open spec fn sep_at(s: Seq<char>, i: int) -> bool {
    &&& 0 <= i
    &&& i + 4 <= s.len()
    &&& s[i] == ' '
    &&& s[i + 1] == '-'
    &&& s[i + 2] == '>'
    &&& s[i + 3] == ' '
}

/// The first position at or after `i` where the separator starts.
pub open spec fn sep_from(s: Seq<char>, i: int) -> Option<int>
    decreases s.len() - i,
{
    if i < 0 || i + 4 > s.len() {
        None
    } else if sep_at(s, i) {
        Some(i)
    } else {
        sep_from(s, i + 1)
    }
}

/// The position of the first separator in `s`, if there is one.
pub open spec fn first_sep(s: Seq<char>) -> Option<int> {
    sep_from(s, 0)
}

/// `s` contains the separator ` -> `.
pub open spec fn has_sep(s: Seq<char>) -> bool {
    first_sep(s) is Some
}

/// What stands before and after the first separator of `s`.
pub open spec fn split_at_sep(s: Seq<char>) -> Option<(Seq<char>, Seq<char>)> {
    match first_sep(s) {
        Some(k) => Some((s.take(k), s.skip(k + 4))),
        None => None,
    }
}

/// `s` starts with four spaces of indentation.
pub open spec fn is_indented(s: Seq<char>) -> bool {
    &&& s.len() >= 4
    &&& s[0] == ' '
    &&& s[1] == ' '
    &&& s[2] == ' '
    &&& s[3] == ' '
}

/// `c` occurs in `s` at position `from` or later.
pub open spec fn has_char_from(s: Seq<char>, from: int, c: char) -> bool {
    exists|j: int| from <= j < s.len() && #[trigger] s[j] == c
}

/// The position of the last `:` among the first `n` characters of `s`, or -1.
pub open spec fn colon_before(s: Seq<char>, n: int) -> int
    decreases n,
{
    if n <= 0 {
        -1
    } else if s[n - 1] == ':' {
        n - 1
    } else {
        colon_before(s, n - 1)
    }
}

/// What follows the last `:` of `s`; all of `s` when it holds none.
pub open spec fn after_last_colon(s: Seq<char>) -> Seq<char> {
    s.skip(colon_before(s, s.len() as int) + 1)
}

/// Relies on `String::push`: the character is appended at the end.
#[verifier::external_body]
fn push_char(s: &mut String, c: char)
    ensures
        final(s)@ == old(s)@.push(c),
{
    s.push(c)
}

/// The characters of `s`, in order.
pub fn chars_of(s: &str) -> (r: Vec<char>)
    ensures
        r@ == s@,
{
    let n = s.unicode_len();
    let mut it = s.chars();
    let mut r: Vec<char> = Vec::new();
    let mut i: usize = 0;
    while i < n
        invariant
            n == s@.len(),
            i == r@.len(),
            r@ + it.remaining() == s@,
        decreases n - i,
    {
        match it.next() {
            Some(c) => {
                r.push(c);
            },
            None => {},
        }
        i = i + 1;
    }
    assert(r@ =~= s@);
    r
}

/// A string holding `v[lo..hi]`.
pub fn string_of(v: &Vec<char>, lo: usize, hi: usize) -> (r: String)
    requires
        lo <= hi <= v@.len(),
    ensures
        r@ == v@.subrange(lo as int, hi as int),
{
    let mut r = String::new();
    let mut i: usize = lo;
    while i < hi
        invariant
            lo <= i <= hi <= v@.len(),
            r@ == v@.subrange(lo as int, i as int),
        decreases hi - i,
    {
        push_char(&mut r, v[i]);
        assert(v@.subrange(lo as int, i + 1) =~= v@.subrange(lo as int, i as int).push(v@[i as int]));
        i = i + 1;
    }
    r
}

/// Finds the first separator of `s`.
pub fn find_sep(s: &Vec<char>) -> (r: Option<usize>)
    ensures
        match r {
            Some(k) => first_sep(s@) == Some(k as int) && sep_at(s@, k as int),
            None => first_sep(s@) is None,
        },
{
    let n = s.len();
    let mut i: usize = 0;
    while i < n && n - i >= 4
        invariant
            n == s@.len(),
            i <= n,
            first_sep(s@) == sep_from(s@, i as int),
        decreases n - i,
    {
        if s[i] == ' ' && s[i + 1] == '-' && s[i + 2] == '>' && s[i + 3] == ' ' {
            return Some(i);
        }
        i = i + 1;
    }
    None
}

/// Whether `s` starts with four spaces.
pub fn indented(s: &Vec<char>) -> (r: bool)
    ensures
        r == is_indented(s@),
{
    s.len() >= 4 && s[0] == ' ' && s[1] == ' ' && s[2] == ' ' && s[3] == ' '
}

/// Whether `c` occurs in `s` at position `from` or later.
pub fn has_char(s: &Vec<char>, from: usize, c: char) -> (r: bool)
    ensures
        r == has_char_from(s@, from as int, c),
{
    let mut i: usize = from;
    while i < s.len()
        invariant
            from <= i,
            forall|j: int| from <= j < i && j < s@.len() ==> s@[j] != c,
        decreases s@.len() - i,
    {
        if s[i] == c {
            return true;
        }
        i = i + 1;
    }
    false
}

/// The position just after the last `:` of `s`, or 0 when it holds none.
pub fn after_colon(s: &Vec<char>) -> (r: usize)
    ensures
        r as int == colon_before(s@, s@.len() as int) + 1,
        r <= s@.len(),
{
    let mut j: usize = s.len();
    while j > 0
        invariant
            j <= s@.len(),
            colon_before(s@, s@.len() as int) == colon_before(s@, j as int),
        decreases j,
    {
        if s[j - 1] == ':' {
            return j;
        }
        j = j - 1;
    }
    0
}

} // verus!
