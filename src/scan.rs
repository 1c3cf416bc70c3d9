//! The boundary scanner: executable counterparts of the model, over the
//! characters of a header value.

use vstd::prelude::*;
use crate::classify::{is_name_char, is_name_start_char, is_whitespace};
use crate::model::{
    back_ws, entry_end, find_in, lemma_entry_end_bounds, lemma_entry_end_skip, lemma_find_in,
    lemma_find_sub, lemma_skip_ws, lemma_trim_sub, name_end, parse_entry, skip_ws, starts_entry,
};

verus! {

/// The first position in `[i, b)` that is not white space, or `b`.
pub fn skip_whitespace(s: &Vec<char>, i: usize, b: usize) -> (r: usize)
    requires
        i <= b <= s@.len(),
    ensures
        r == skip_ws(s@, i as int, b as int),
        i <= r <= b,
{
    let mut k = i;
    while k < b && is_whitespace(s[k])
        invariant
            i <= k <= b <= s@.len(),
            skip_ws(s@, k as int, b as int) == skip_ws(s@, i as int, b as int),
        decreases b - k,
    {
        k = k + 1;
    }
    k
}

/// The least `m` in `[a, k]` such that `s[m..k]` is all white space.
pub fn skip_whitespace_back(s: &Vec<char>, a: usize, k: usize) -> (r: usize)
    requires
        a <= k <= s@.len(),
    ensures
        r == back_ws(s@, a as int, k as int),
        a <= r <= k,
{
    let mut m = k;
    while a < m && is_whitespace(s[m - 1])
        invariant
            a <= m <= k <= s@.len(),
            back_ws(s@, a as int, m as int) == back_ws(s@, a as int, k as int),
        decreases m - a,
    {
        m = m - 1;
    }
    m
}

/// The first position in `[i, b)` that holds `c`, or `b`.
pub fn find_char(s: &Vec<char>, c: char, i: usize, b: usize) -> (r: usize)
    requires
        i <= b <= s@.len(),
    ensures
        r == find_in(s@, c, i as int, b as int),
        i <= r <= b,
{
    let mut k = i;
    while k < b && s[k] != c
        invariant
            i <= k <= b <= s@.len(),
            find_in(s@, c, k as int, b as int) == find_in(s@, c, i as int, b as int),
        decreases b - k,
    {
        k = k + 1;
    }
    k
}

/// The end of the run of cookie-name characters that starts at `i`.
pub fn name_run_end(s: &Vec<char>, i: usize) -> (r: usize)
    requires
        i <= s@.len(),
    ensures
        r == name_end(s@, i as int),
        i <= r <= s@.len(),
{
    let mut k = i;
    while k < s.len() && is_name_char(s[k])
        invariant
            i <= k <= s@.len(),
            name_end(s@, k as int) == name_end(s@, i as int),
        decreases s@.len() - k,
    {
        k = k + 1;
    }
    k
}

/// Whether a semicolon just before `p` is followed by what ends an entry:
/// nothing but white space, another semicolon, or the start of a new
/// `name=value` entry.
pub fn starts_new_entry(s: &Vec<char>, p: usize) -> (r: bool)
    requires
        p <= s@.len(),
    ensures
        r == starts_entry(s@, p as int),
{
    let len = s.len();
    let q = skip_whitespace(s, p, len);
    proof {
        lemma_skip_ws(s@, p as int, len as int);
    }
    if q >= len || s[q] == ';' {
        true
    } else if is_name_start_char(s[q]) {
        let m = name_run_end(s, q);
        let n = skip_whitespace(s, m, len);
        n < len && s[n] == '='
    } else {
        false
    }
}

/// Given a semicolon at `start` that belongs to a value, the position where
/// the entry really ends: the next semicolon that passes the same test, or the
/// end of the input.
pub fn find_real_separator(s: &Vec<char>, start: usize) -> (r: usize)
    requires
        start < s@.len(),
    ensures
        r == entry_end(s@, start as int + 1),
{
    let len = s.len();
    let mut i = start + 1;
    while i < len
        invariant
            start < i <= len == s@.len(),
            entry_end(s@, i as int) == entry_end(s@, start as int + 1),
        decreases len - i,
    {
        if s[i] == ';' && starts_new_entry(s, i + 1) {
            return i;
        }
        i = i + 1;
    }
    len
}

/// Where the entry that starts at `i` ends.
pub fn resolve_entry_end(s: &Vec<char>, i: usize) -> (r: usize)
    requires
        i <= s@.len(),
    ensures
        r == entry_end(s@, i as int),
        i <= r <= s@.len(),
{
    let len = s.len();
    let j = find_char(s, ';', i, len);
    proof {
        lemma_find_in(s@, ';', i as int, len as int);
        lemma_entry_end_skip(s@, i as int, j as int);
        lemma_entry_end_bounds(s@, i as int);
    }
    if j >= len {
        len
    } else if starts_new_entry(s, j + 1) {
        j
    } else {
        find_real_separator(s, j)
    }
}

/// The name and value bounds of the span `s[i..e]`, if it holds a
/// `name=value` form with a non-empty name.
pub fn parse_span(s: &Vec<char>, i: usize, e: usize) -> (r: Option<((usize, usize), (usize, usize))>)
    requires
        i <= e <= s@.len(),
    ensures
        match (r, parse_entry(s@.subrange(i as int, e as int))) {
            (Some((n, v)), Some((name, value))) => {
                &&& n.0 <= n.1 <= s@.len()
                &&& v.0 <= v.1 <= s@.len()
                &&& name == s@.subrange(n.0 as int, n.1 as int)
                &&& value == s@.subrange(v.0 as int, v.1 as int)
            },
            (None, None) => true,
            _ => false,
        },
{
    let ghost t = s@.subrange(i as int, e as int);
    let x = skip_whitespace(s, i, e);
    let y = skip_whitespace_back(s, x, e);
    proof {
        lemma_trim_sub(s@, i as int, e as int);
    }
    let ghost c = t.subrange(x - i, y - i);
    assert(c =~= s@.subrange(x as int, y as int));
    let eq = find_char(s, '=', x, y);
    proof {
        lemma_find_sub(s@, '=', x as int, y as int, x as int);
        lemma_find_in(s@, '=', x as int, y as int);
    }
    if eq >= y {
        return None;
    }
    let nx = skip_whitespace(s, x, eq);
    let ny = skip_whitespace_back(s, nx, eq);
    let vx = skip_whitespace(s, eq + 1, y);
    let vy = skip_whitespace_back(s, vx, y);
    proof {
        assert(c.subrange(0, eq - x) =~= s@.subrange(x as int, eq as int));
        assert(c.subrange(eq - x + 1, c.len() as int) =~= s@.subrange(eq + 1, y as int));
        lemma_trim_sub(s@, x as int, eq as int);
        lemma_trim_sub(s@, eq + 1, y as int);
    }
    if nx >= ny {
        return None;
    }
    Some(((nx, ny), (vx, vy)))
}

} // verus!
