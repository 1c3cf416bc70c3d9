//! The lazy cookie iterator and the construction capability it hands entries to.

use vstd::prelude::*;
use vstd::string::{StrSliceExecFns, StringExecFns};
use core::marker::PhantomData;
use cookie::{Cookie, ParseError};
use crate::model::{entries, header_entries, lemma_find_in};
use crate::scan::{find_char, parse_span, resolve_entry_end};

verus! {

/// The cookie type of the `cookie` crate (`cookie::Cookie`), carried as an
/// opaque value.
#[verifier::external_type_specification]
#[verifier::external_body]
pub struct ExCookie<'c>(Cookie<'c>);

/// The decoding error of the `cookie` crate (`cookie::ParseError`), carried as
/// an opaque value.
#[verifier::external_type_specification]
#[verifier::external_body]
pub struct ExParseError(ParseError);

/// Builds a concrete cookie type from a parsed entry.
pub trait CookieBuilder: Sized {
    /// A cookie with the given name and value; never fails.
    fn new(name: String, value: String) -> Self;

    /// A cookie parsed from one `name=value` string whose parts may be
    /// percent-encoded; fails where decoding fails.
    fn parse_encoded(cookie_str: String) -> Result<Self, ParseError>;
}

/// Relies on cookie::Cookie::new, which keeps the name and value as given.
#[verifier::external_body]
fn cookie_from_parts(name: String, value: String) -> Cookie<'static> {
    Cookie::new(name, value)
}

/// Relies on cookie::Cookie::parse_encoded, which percent-decodes the name and
/// value of a `name=value` string.
#[verifier::external_body]
fn cookie_from_encoded(cookie_str: String) -> Result<Cookie<'static>, ParseError> {
    Cookie::parse_encoded(cookie_str)
}

impl CookieBuilder for Cookie<'static> {
    fn new(name: String, value: String) -> Self {
        cookie_from_parts(name, value)
    }

    fn parse_encoded(cookie_str: String) -> Result<Self, ParseError> {
        cookie_from_encoded(cookie_str)
    }
}

/// A value that holds a percent sign asks for decoding, if decoding is on.
pub open spec fn wants_decoding(value: Seq<char>, percent_decode: bool) -> bool {
    percent_decode && value.contains('%')
}

/// The `name=value` text handed to the decoding constructor.
pub open spec fn encoded_form(name: Seq<char>, value: Seq<char>) -> Seq<char> {
    name + seq!['='] + value
}

/// Iterator over the cookies of a header value, one entry per call of `next`.
pub struct HeaderStringCookies<C: CookieBuilder> {
    string: String,
    chars: Vec<char>,
    last: usize,
    percent_decode: bool,
    _phantom: PhantomData<C>,
}

/// The characters of `s`, in order.
fn chars_of(s: &str) -> (r: Vec<char>)
    ensures
        r@ == s@,
{
    let mut v: Vec<char> = Vec::new();
    for c in it: s.chars()
        invariant
            v@ == it.seq().take(it.index()),
    {
        v.push(c);
    }
    assert(v@ =~= s@);
    v
}

impl<C: CookieBuilder> HeaderStringCookies<C> {
    /// The cursor lies within the input, and the characters are those of the input.
    pub closed spec fn wf(&self) -> bool {
        &&& self.chars@ == self.string@
        &&& self.last <= self.chars@.len()
    }

    /// The header value being scanned.
    pub closed spec fn source(&self) -> Seq<char> {
        self.string@
    }

    /// The first unconsumed position.
    pub closed spec fn cursor(&self) -> int {
        self.last as int
    }

    /// Whether values holding `%` are percent-decoded.
    pub closed spec fn decodes(&self) -> bool {
        self.percent_decode
    }

    /// The entries that the scan has yet to yield.
    pub closed spec fn remaining(&self) -> Seq<(Seq<char>, Seq<char>)> {
        entries(self.chars@, self.last as int)
    }

    /// A scan over `string` from its start.
    pub fn new(string: &str, percent_decode: bool) -> (r: Self)
        ensures
            r.wf(),
            r.source() == string@,
            r.cursor() == 0,
            r.decodes() == percent_decode,
            r.remaining() == header_entries(string@),
    {
        HeaderStringCookies {
            string: String::from_str(string),
            chars: chars_of(string),
            last: 0,
            percent_decode,
            _phantom: PhantomData,
        }
    }

    /// Advances past the next entry that holds a `name=value` form and gives
    /// the bounds of its name and value.
    fn next_span(&mut self) -> (r: Option<((usize, usize), (usize, usize))>)
        requires
            old(self).wf(),
        ensures
            final(self).wf(),
            final(self).string == old(self).string,
            final(self).chars == old(self).chars,
            final(self).percent_decode == old(self).percent_decode,
            final(self).last >= old(self).last,
            r is None <==> old(self).remaining().len() == 0,
            r is None ==> final(self).remaining().len() == 0,
            r matches Some((n, v)) ==> {
                &&& n.0 <= n.1 <= old(self).chars@.len()
                &&& v.0 <= v.1 <= old(self).chars@.len()
                &&& old(self).remaining()[0] == (
                    old(self).chars@.subrange(n.0 as int, n.1 as int),
                    old(self).chars@.subrange(v.0 as int, v.1 as int),
                )
                &&& final(self).remaining() == old(self).remaining().drop_first()
                &&& final(self).last > old(self).last
            },
    {
        let len = self.chars.len();
        while self.last < len
            invariant
                self.wf(),
                len == self.chars@.len(),
                self.string == old(self).string,
                self.chars == old(self).chars,
                self.percent_decode == old(self).percent_decode,
                self.last >= old(self).last,
                self.remaining() == old(self).remaining(),
            decreases len - self.last,
        {
            let i = self.last;
            let e = resolve_entry_end(&self.chars, i);
            self.last = if e < len { e + 1 } else { len };
            let span = parse_span(&self.chars, i, e);
            let ghost s = self.chars@;
            assert(self.last > i);
            match span {
                Some(p) => {
                    assert(old(self).remaining() =~= seq![
                        (s.subrange(p.0.0 as int, p.0.1 as int), s.subrange(p.1.0 as int, p.1.1 as int))
                    ] + self.remaining());
                    assert(self.remaining() =~= old(self).remaining().drop_first());
                    return Some(p);
                },
                None => {},
            }
        }
        None
    }

    /// The next entry as an owned name and value.
    pub fn next_entry(&mut self) -> (r: Option<(String, String)>)
        requires
            old(self).wf(),
        ensures
            final(self).wf(),
            final(self).source() == old(self).source(),
            final(self).decodes() == old(self).decodes(),
            final(self).cursor() >= old(self).cursor(),
            r is None <==> old(self).remaining().len() == 0,
            r is None ==> final(self).remaining().len() == 0,
            r matches Some((name, value)) ==> {
                &&& old(self).remaining()[0] == (name@, value@)
                &&& final(self).remaining() == old(self).remaining().drop_first()
                &&& final(self).cursor() > old(self).cursor()
            },
    {
        match self.next_build() {
            None => None,
            Some(Build::FromParts { name, value }) => Some((name, value)),
            Some(Build::FromEncoded { name, value, .. }) => Some((name, value)),
        }
    }


    /// How the next entry is to be built: from its name and value, or, when
    /// decoding is on and the value holds `%`, from its encoded `name=value` text.
    pub fn next_build(&mut self) -> (r: Option<Build>)
        requires
            old(self).wf(),
        ensures
            final(self).wf(),
            final(self).source() == old(self).source(),
            final(self).decodes() == old(self).decodes(),
            final(self).cursor() >= old(self).cursor(),
            r is None <==> old(self).remaining().len() == 0,
            r is None ==> final(self).remaining().len() == 0,
            r is Some ==> {
                &&& final(self).remaining() == old(self).remaining().drop_first()
                &&& final(self).cursor() > old(self).cursor()
                &&& r->0.spec_pair() == old(self).remaining()[0]
                &&& (r->0 is FromEncoded <==> wants_decoding(old(self).remaining()[0].1, old(self).decodes()))
                &&& r->0.text_is_pair()
            },
    {
        match self.next_span() {
            None => None,
            Some((n, v)) => {
                let name = String::from_str(self.string.as_str().substring_char(n.0, n.1));
                let value = String::from_str(self.string.as_str().substring_char(v.0, v.1));
                let pct = find_char(&self.chars, '%', v.0, v.1);
                proof {
                    lemma_find_in(self.chars@, '%', v.0 as int, v.1 as int);
                    let sv = self.chars@.subrange(v.0 as int, v.1 as int);
                    if pct < v.1 {
                        assert(sv[pct - v.0] == '%');
                    } else {
                        assert forall|k: int| 0 <= k < sv.len() implies sv[k] != '%' by {
                            assert(self.chars@[v.0 + k] != '%');
                        }
                    }
                }
                if self.percent_decode && pct < v.1 {
                    let text = encode_pair(&name, &value);
                    Some(Build::FromEncoded { name, value, text })
                } else {
                    Some(Build::FromParts { name, value })
                }
            },
        }
    }

    /// The next cookie, built as `next_build` says; only the decoding path can
    /// give an error.
    pub fn next(&mut self) -> (r: Option<Result<C, ParseError>>)
        requires
            old(self).wf(),
        ensures
            final(self).wf(),
            final(self).source() == old(self).source(),
            final(self).decodes() == old(self).decodes(),
            final(self).cursor() >= old(self).cursor(),
            r is None <==> old(self).remaining().len() == 0,
            r is None ==> final(self).remaining().len() == 0,
            r is Some ==> {
                &&& final(self).remaining() == old(self).remaining().drop_first()
                &&& final(self).cursor() > old(self).cursor()
            },
            r matches Some(Err(_)) ==> wants_decoding(old(self).remaining()[0].1, old(self).decodes()),
    {
        match self.next_build() {
            None => None,
            Some(Build::FromParts { name, value }) => Some(Ok(C::new(name, value))),
            Some(Build::FromEncoded { text, .. }) => Some(C::parse_encoded(text)),
        }
    }
}

/// How one entry becomes a cookie.
pub enum Build {
    /// Through the constructor that takes the name and value as they are.
    FromParts { name: String, value: String },
    /// Through the decoding constructor, handed `text`, which is `name=value`.
    FromEncoded { name: String, value: String, text: String },
}

impl Build {
    /// The raw name and value of the entry.
    pub open spec fn spec_pair(&self) -> (Seq<char>, Seq<char>) {
        match self {
            Build::FromParts { name, value } => (name@, value@),
            Build::FromEncoded { name, value, .. } => (name@, value@),
        }
    }

    /// The text handed to the decoding constructor is exactly `name=value`.
    pub open spec fn text_is_pair(&self) -> bool {
        match self {
            Build::FromParts { .. } => true,
            Build::FromEncoded { name, value, text } => text@ == encoded_form(name@, value@),
        }
    }
}

/// The text `name=value`.
pub fn encode_pair(name: &String, value: &String) -> (r: String)
    ensures
        r@ == encoded_form(name@, value@),
{
    let mut buf = name.clone();
    buf.append("=");
    buf.append(value.as_str());
    proof {
        reveal_strlit("=");
    }
    assert(buf@ =~= encoded_form(name@, value@));
    buf
}

} // verus!

verus! {

/// Starts a cookie scan over a header value.
pub trait CookieHeaderStringExt<C: CookieBuilder> {
    /// A scan over `string` from its start, with percent-decoding on.
    fn header_string_parse(string: &str) -> (r: HeaderStringCookies<C>)
        ensures
            r.wf(),
            r.source() == string@,
            r.cursor() == 0,
            r.decodes(),
            r.remaining() == header_entries(string@),
    ;
}

impl<'c> CookieHeaderStringExt<Cookie<'static>> for Cookie<'c> {
    fn header_string_parse(string: &str) -> (r: HeaderStringCookies<Cookie<'static>>) {
        HeaderStringCookies::new(string, true)
    }
}

} // verus!

verus! {

/// Two scans over equal header values, at the same cursor, have the same
/// entries still to yield: a scan keeps no state beyond its input and cursor,
/// so a fresh scan over the same input yields the same sequence again.
pub proof fn law_fresh_scans_agree<C: CookieBuilder>(
    a: &HeaderStringCookies<C>,
    b: &HeaderStringCookies<C>,
)
    requires
        a.wf(),
        b.wf(),
        a.source() == b.source(),
        a.cursor() == b.cursor(),
    ensures
        a.remaining() == b.remaining(),
{
}

} // verus!
