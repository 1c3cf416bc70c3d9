//! Scans whose cookies are meant for an HTTP client's cookie jar.

use vstd::prelude::*;
use cookie::Cookie;
use crate::cookies::HeaderStringCookies;
use crate::model::header_entries;

verus! {

/// A scan over `string` yielding `cookie::Cookie` values, which a client's
/// cookie jar takes in their serialized form; percent-decoding is on.
pub fn parse_for_reqwest(string: &str) -> (r: HeaderStringCookies<Cookie<'static>>)
    ensures
        r.wf(),
        r.source() == string@,
        r.cursor() == 0,
        r.decodes(),
        r.remaining() == header_entries(string@),
{
    HeaderStringCookies::new(string, true)
}

} // verus!
