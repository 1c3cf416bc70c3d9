//! The mathematical model of a scan: where entries end and what each one holds.

use vstd::prelude::*;
use crate::classify::{name_char, name_start_char, whitespace};

verus! {

/// The first position in `[i, b)` that is not white space, or `b`.
pub open spec fn skip_ws(s: Seq<char>, i: int, b: int) -> int
    decreases b - i,
{
    if 0 <= i < b && whitespace(s[i]) {
        skip_ws(s, i + 1, b)
    } else {
        i
    }
}

/// The least `m` in `[a, k]` such that `s[m..k]` is all white space.
pub open spec fn back_ws(s: Seq<char>, a: int, k: int) -> int
    decreases k - a,
{
    if a < k && whitespace(s[k - 1]) {
        back_ws(s, a, k - 1)
    } else {
        k
    }
}

/// The first position in `[i, b)` that holds `c`, or `b`.
pub open spec fn find_in(s: Seq<char>, c: char, i: int, b: int) -> int
    decreases b - i,
{
    if i >= b {
        b
    } else if s[i] == c {
        i
    } else {
        find_in(s, c, i + 1, b)
    }
}

/// The end of the run of name characters that starts at `i`.
pub open spec fn name_end(s: Seq<char>, i: int) -> int
    decreases s.len() - i,
{
    if 0 <= i < s.len() && name_char(s[i]) {
        name_end(s, i + 1)
    } else {
        i
    }
}

/// The bounds of `s[a..b]` with white space removed from both ends.
pub open spec fn trimmed(s: Seq<char>, a: int, b: int) -> (int, int) {
    let x = skip_ws(s, a, b);
    (x, back_ws(s, x, b))
}

/// `t` with white space removed from both ends.
pub open spec fn trim(t: Seq<char>) -> Seq<char> {
    let (x, y) = trimmed(t, 0, t.len() as int);
    t.subrange(x, y)
}

/// Whether the text from `p` on, once leading white space is skipped, is empty,
/// starts with a semicolon, or starts with a cookie name followed (after
/// optional white space) by `=`.
pub open spec fn starts_entry(s: Seq<char>, p: int) -> bool {
    let q = skip_ws(s, p, s.len() as int);
    q >= s.len() || s[q] == ';' || (name_start_char(s[q]) && {
        let n = skip_ws(s, name_end(s, q), s.len() as int);
        n < s.len() && s[n] == '='
    })
}

/// A semicolon at `k` that ends an entry rather than belonging to a value.
pub open spec fn is_separator(s: Seq<char>, k: int) -> bool {
    0 <= k < s.len() && s[k] == ';' && starts_entry(s, k + 1)
}

/// Where the entry that starts at `i` ends: the first true separator at or
/// after `i`, or the end of the input.
pub open spec fn entry_end(s: Seq<char>, i: int) -> int
    decreases s.len() - i,
{
    if i >= s.len() {
        s.len() as int
    } else if is_separator(s, i) {
        i
    } else {
        entry_end(s, i + 1)
    }
}

/// The name and value that the span `t` holds, if it holds a `name=value`
/// form with a non-empty name.
pub open spec fn parse_entry(t: Seq<char>) -> Option<(Seq<char>, Seq<char>)> {
    let c = trim(t);
    let eq = find_in(c, '=', 0, c.len() as int);
    if eq >= c.len() {
        None
    } else {
        let name = trim(c.subrange(0, eq));
        if name.len() == 0 {
            None
        } else {
            Some((name, trim(c.subrange(eq + 1, c.len() as int))))
        }
    }
}

/// Where the scan goes on after the entry that starts at `i`.
pub open spec fn next_cursor(s: Seq<char>, i: int) -> int {
    let e = entry_end(s, i);
    if e < s.len() {
        e + 1
    } else {
        s.len() as int
    }
}

/// The name/value pairs that a scan from position `i` yields, in order.
pub open spec fn entries(s: Seq<char>, i: int) -> Seq<(Seq<char>, Seq<char>)>
    decreases s.len() - i,
    via entries_decreases
{
    if i < 0 || i >= s.len() {
        Seq::empty()
    } else {
        let rest = entries(s, next_cursor(s, i));
        match parse_entry(s.subrange(i, entry_end(s, i))) {
            Some(p) => seq![p] + rest,
            None => rest,
        }
    }
}

#[via_fn]
proof fn entries_decreases(s: Seq<char>, i: int) {
    if 0 <= i < s.len() {
        lemma_entry_end_bounds(s, i);
    }
}

/// The name/value pairs of a whole header value.
pub open spec fn header_entries(s: Seq<char>) -> Seq<(Seq<char>, Seq<char>)> {
    entries(s, 0)
}

pub proof fn lemma_skip_ws(s: Seq<char>, i: int, b: int)
    requires
        0 <= i <= b <= s.len(),
    ensures
        i <= skip_ws(s, i, b) <= b,
        forall|k: int| i <= k < skip_ws(s, i, b) ==> whitespace(#[trigger] s[k]),
        skip_ws(s, i, b) < b ==> !whitespace(s[skip_ws(s, i, b)]),
    decreases b - i,
{
    if i < b && whitespace(s[i]) {
        lemma_skip_ws(s, i + 1, b);
    }
}

pub proof fn lemma_back_ws(s: Seq<char>, a: int, k: int)
    requires
        0 <= a <= k <= s.len(),
    ensures
        a <= back_ws(s, a, k) <= k,
        forall|m: int| back_ws(s, a, k) <= m < k ==> whitespace(#[trigger] s[m]),
        back_ws(s, a, k) > a ==> !whitespace(s[back_ws(s, a, k) - 1]),
    decreases k - a,
{
    if a < k && whitespace(s[k - 1]) {
        lemma_back_ws(s, a, k - 1);
    }
}

pub proof fn lemma_find_in(s: Seq<char>, c: char, i: int, b: int)
    requires
        0 <= i <= b <= s.len(),
    ensures
        i <= find_in(s, c, i, b) <= b,
        forall|k: int| i <= k < find_in(s, c, i, b) ==> #[trigger] s[k] != c,
        find_in(s, c, i, b) < b ==> s[find_in(s, c, i, b)] == c,
    decreases b - i,
{
    if i < b && s[i] != c {
        lemma_find_in(s, c, i + 1, b);
    }
}

pub proof fn lemma_entry_end_bounds(s: Seq<char>, i: int)
    requires
        0 <= i <= s.len(),
    ensures
        i <= entry_end(s, i) <= s.len(),
        entry_end(s, i) < s.len() ==> is_separator(s, entry_end(s, i)),
        forall|k: int| i <= k < entry_end(s, i) ==> !is_separator(s, k),
    decreases s.len() - i,
{
    if i < s.len() && !is_separator(s, i) {
        lemma_entry_end_bounds(s, i + 1);
    }
}

/// Positions that hold no semicolon can be passed over when looking for the
/// end of an entry.
pub proof fn lemma_entry_end_skip(s: Seq<char>, i: int, j: int)
    requires
        0 <= i <= j <= s.len(),
        forall|k: int| i <= k < j ==> s[k] != ';',
    ensures
        entry_end(s, i) == entry_end(s, j),
    decreases j - i,
{
    if i < j {
        lemma_entry_end_skip(s, i + 1, j);
    }
}

proof fn lemma_skip_ws_sub(s: Seq<char>, a: int, b: int, k: int)
    requires
        0 <= a <= k <= b <= s.len(),
    ensures
        skip_ws(s.subrange(a, b), k - a, b - a) == skip_ws(s, k, b) - a,
    decreases b - k,
{
    if k < b && whitespace(s[k]) {
        lemma_skip_ws_sub(s, a, b, k + 1);
    }
}

proof fn lemma_back_ws_sub(s: Seq<char>, a: int, b: int, x: int, k: int)
    requires
        0 <= a <= x <= k <= b <= s.len(),
    ensures
        back_ws(s.subrange(a, b), x - a, k - a) == back_ws(s, x, k) - a,
    decreases k - x,
{
    if x < k && whitespace(s[k - 1]) {
        lemma_back_ws_sub(s, a, b, x, k - 1);
    }
}

/// Trimming a span of `s` is taking the span between the trimmed bounds.
pub proof fn lemma_trim_sub(s: Seq<char>, a: int, b: int)
    requires
        0 <= a <= b <= s.len(),
    ensures
        a <= trimmed(s, a, b).0 <= trimmed(s, a, b).1 <= b,
        trim(s.subrange(a, b)) == s.subrange(trimmed(s, a, b).0, trimmed(s, a, b).1),
{
    let x = skip_ws(s, a, b);
    lemma_skip_ws(s, a, b);
    lemma_back_ws(s, x, b);
    lemma_skip_ws_sub(s, a, b, a);
    lemma_back_ws_sub(s, a, b, x, b);
    assert(trim(s.subrange(a, b)) =~= s.subrange(x, back_ws(s, x, b)));
}

/// Looking for `c` in a span of `s` finds it at the same place.
pub proof fn lemma_find_sub(s: Seq<char>, c: char, a: int, b: int, k: int)
    requires
        0 <= a <= k <= b <= s.len(),
    ensures
        find_in(s.subrange(a, b), c, k - a, b - a) == find_in(s, c, k, b) - a,
    decreases b - k,
{
    if k < b && s[k] != c {
        lemma_find_sub(s, c, a, b, k + 1);
    }
}

} // verus!
