//! Parsing of HTTP `Cookie` request header values into name/value pairs,
//! tolerating unquoted values that hold literal semicolons.

pub mod classify;
pub mod model;
pub mod scan;
pub mod cookies;
pub mod reqwest_support;
pub mod laws;

pub use classify::is_cookie_name_start;
pub use cookies::{CookieBuilder, CookieHeaderStringExt, HeaderStringCookies};
