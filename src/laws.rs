//! Properties of the scan as a whole.

use vstd::prelude::*;
use crate::classify::whitespace;
use crate::model::{
    back_ws, entries, entry_end, find_in, header_entries, lemma_back_ws, lemma_entry_end_bounds,
    lemma_find_in, lemma_find_sub, lemma_skip_ws, lemma_trim_sub, next_cursor, parse_entry,
    skip_ws, trim, trimmed,
};

verus! {

proof fn lemma_skip_ws_prefix(s: Seq<char>, i: int, x: int, b: int)
    requires
        0 <= i <= x <= b <= s.len(),
        forall|k: int| i <= k < x ==> whitespace(#[trigger] s[k]),
    ensures
        skip_ws(s, i, b) == skip_ws(s, x, b),
    decreases x - i,
{
    if i < x {
        lemma_skip_ws_prefix(s, i + 1, x, b);
    }
}

proof fn lemma_back_ws_suffix(s: Seq<char>, a: int, b: int, b2: int)
    requires
        0 <= a <= b <= b2 <= s.len(),
        forall|k: int| b <= k < b2 ==> whitespace(#[trigger] s[k]),
    ensures
        back_ws(s, a, b2) == back_ws(s, a, b),
    decreases b2 - b,
{
    if b < b2 {
        lemma_back_ws_suffix(s, a, b, b2 - 1);
    }
}

/// White space before a span does not change what trimming it gives.
proof fn lemma_trim_prefix_ws(s: Seq<char>, a: int, x: int, b: int)
    requires
        0 <= a <= x <= b <= s.len(),
        forall|k: int| a <= k < x ==> whitespace(#[trigger] s[k]),
    ensures
        trim(s.subrange(a, b)) == trim(s.subrange(x, b)),
{
    lemma_trim_sub(s, a, b);
    lemma_trim_sub(s, x, b);
    lemma_skip_ws_prefix(s, a, x, b);
}

/// White space after a span does not change what trimming it gives.
proof fn lemma_trim_suffix_ws(s: Seq<char>, a: int, b: int, b2: int)
    requires
        0 <= a <= b <= b2 <= s.len(),
        forall|k: int| b <= k < b2 ==> whitespace(#[trigger] s[k]),
    ensures
        trim(s.subrange(a, b)) == trim(s.subrange(a, b2)),
{
    lemma_trim_sub(s, a, b);
    lemma_trim_sub(s, a, b2);
    lemma_skip_ws(s, a, b);
    lemma_skip_ws(s, a, b2);
    let z = skip_ws(s, a, b);
    if z < b {
        lemma_skip_ws_prefix(s, a, z, b2);
        lemma_skip_ws_prefix(s, a, z, b);
        lemma_back_ws_suffix(s, z, b, b2);
    } else {
        lemma_skip_ws_prefix(s, a, b, b2);
        lemma_skip_ws(s, b, b2);
        lemma_back_ws(s, b, b);
        lemma_back_ws(s, b2, b2);
        assert(trim(s.subrange(a, b)) =~= Seq::<char>::empty());
        assert(trim(s.subrange(a, b2)) =~= Seq::<char>::empty());
    }
}

/// A header value without semicolons that holds one `name=value` form with a
/// non-empty name yields exactly that entry: the name is the trimmed text
/// before the first `=`, the value the trimmed text after it.
pub proof fn law_single_entry(s: Seq<char>)
    requires
        !s.contains(';'),
        find_in(s, '=', 0, s.len() as int) < s.len(),
        trim(s.subrange(0, find_in(s, '=', 0, s.len() as int))).len() > 0,
    ensures
        header_entries(s) == seq![
            (
                trim(s.subrange(0, find_in(s, '=', 0, s.len() as int))),
                trim(s.subrange(find_in(s, '=', 0, s.len() as int) + 1, s.len() as int)),
            ),
        ],
{
    let len = s.len() as int;
    let e = find_in(s, '=', 0, len);
    lemma_find_in(s, '=', 0, len);
    lemma_entry_end_bounds(s, 0);
    if entry_end(s, 0) < len {
        assert(s.contains(';'));
    }
    assert(s.subrange(0, len) =~= s);
    let (x, y) = trimmed(s, 0, len);
    lemma_trim_sub(s, 0, len);
    lemma_skip_ws(s, 0, len);
    lemma_back_ws(s, x, len);
    let c = trim(s);
    assert(c == s.subrange(x, y));
    lemma_find_in(s, '=', x, y);
    lemma_find_sub(s, '=', x, y, x);
    assert(x <= e < y) by {
        if e < x {
            assert(whitespace(s[e]));
        }
        if e >= y {
            assert(whitespace(s[e]));
        }
    }
    let f = find_in(s, '=', x, y);
    assert(f == e) by {
        if f < e {
            assert(s[f] == '=');
        }
        if f > e {
            assert(s[e] != '=');
        }
    }
    assert(c.subrange(0, e - x) =~= s.subrange(x, e));
    assert(c.subrange(e - x + 1, c.len() as int) =~= s.subrange(e + 1, y));
    lemma_trim_prefix_ws(s, 0, x, e);
    lemma_trim_suffix_ws(s, e + 1, y, len);
    assert(entries(s, len) =~= Seq::empty());
    assert(parse_entry(s) == Some(
        (trim(s.subrange(0, e)), trim(s.subrange(e + 1, len))),
    ));
    assert(header_entries(s) =~= seq![(trim(s.subrange(0, e)), trim(s.subrange(e + 1, len)))]);
}

/// Trimming leaves no white space at either end.
pub proof fn lemma_trim_ends(t: Seq<char>)
    ensures
        trim(t).len() > 0 ==> !whitespace(trim(t)[0]) && !whitespace(trim(t).last()),
{
    let len = t.len() as int;
    lemma_skip_ws(t, 0, len);
    let x = skip_ws(t, 0, len);
    lemma_back_ws(t, x, len);
}

/// A name that is not empty, and a name and value with no white space at
/// either end.
pub open spec fn clean_entry(p: (Seq<char>, Seq<char>)) -> bool {
    let (name, value) = p;
    &&& name.len() > 0
    &&& !whitespace(name[0])
    &&& !whitespace(name.last())
    &&& value.len() > 0 ==> !whitespace(value[0]) && !whitespace(value.last())
}

/// No name or value that a scan yields begins or ends with white space, and no
/// name is empty.
pub proof fn law_entries_trimmed(s: Seq<char>, i: int)
    requires
        0 <= i,
    ensures
        forall|k: int| 0 <= k < entries(s, i).len() ==> clean_entry(#[trigger] entries(s, i)[k]),
    decreases s.len() - i,
{
    if i < s.len() {
        lemma_entry_end_bounds(s, i);
        let rest = entries(s, next_cursor(s, i));
        law_entries_trimmed(s, next_cursor(s, i));
        let t = s.subrange(i, entry_end(s, i));
        let c = trim(t);
        let eq = find_in(c, '=', 0, c.len() as int);
        if eq < c.len() {
            lemma_find_in(c, '=', 0, c.len() as int);
            lemma_trim_ends(c.subrange(0, eq));
            lemma_trim_ends(c.subrange(eq + 1, c.len() as int));
        }
        match parse_entry(t) {
            Some(p) => {
                assert(clean_entry(p));
                assert(entries(s, i) == seq![p] + rest);
                assert forall|k: int| 0 <= k < entries(s, i).len() implies clean_entry(
                    #[trigger] entries(s, i)[k],
                ) by {
                    if k > 0 {
                        assert(entries(s, i)[k] == rest[k - 1]);
                    }
                }
            },
            None => {},
        }
    }
}

/// Each step of a scan moves the cursor strictly forward and never past the
/// end of the input, so every scan ends.
pub proof fn law_cursor_advances(s: Seq<char>, i: int)
    requires
        0 <= i < s.len(),
    ensures
        i < next_cursor(s, i) <= s.len(),
{
    lemma_entry_end_bounds(s, i);
}

} // verus!
