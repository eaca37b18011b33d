//! The methods of the `http` module.

use vstd::prelude::*;
use crate::text::{ascii_upper_seq, push_str_chars, str_chars, str_eq, string_of, to_uppercase, unicode_uppercase};
use vstd::utf8::is_ascii_chars;

verus! {

/// The HTTP methods that requests may use.
#[derive(Debug, Clone, Copy, PartialEq, Eq, Structural)]
pub enum Method {
    Get,
    Post,
    Put,
    Patch,
    Delete,
    Head,
    Options,
}

/// The method an upper-case name stands for.
pub open spec fn method_of(upper: Seq<char>) -> Option<Method> {
    if upper == "GET"@ {
        Some(Method::Get)
    } else if upper == "POST"@ {
        Some(Method::Post)
    } else if upper == "PUT"@ {
        Some(Method::Put)
    } else if upper == "PATCH"@ {
        Some(Method::Patch)
    } else if upper == "DELETE"@ {
        Some(Method::Delete)
    } else if upper == "HEAD"@ {
        Some(Method::Head)
    } else if upper == "OPTIONS"@ {
        Some(Method::Options)
    } else {
        None
    }
}

/// The method of `http.request`'s name, in any case, or the error.
pub fn parse_method(s: &str) -> (r: Result<Method, String>)
    ensures
        match method_of(unicode_uppercase(s@)) {
            Some(m) => r == Ok::<Method, String>(m),
            None => r matches Err(e) && e@ == "http: unsupported method '"@ + s@ + "'"@,
        },
        is_ascii_chars(s@) ==> match method_of(ascii_upper_seq(s@)) {
            Some(m) => r == Ok::<Method, String>(m),
            None => r is Err,
        },
{
    let upper = to_uppercase(s);
    let u = upper.as_str();
    if str_eq(u, "GET") {
        Ok(Method::Get)
    } else if str_eq(u, "POST") {
        Ok(Method::Post)
    } else if str_eq(u, "PUT") {
        Ok(Method::Put)
    } else if str_eq(u, "PATCH") {
        Ok(Method::Patch)
    } else if str_eq(u, "DELETE") {
        Ok(Method::Delete)
    } else if str_eq(u, "HEAD") {
        Ok(Method::Head)
    } else if str_eq(u, "OPTIONS") {
        Ok(Method::Options)
    } else {
        let mut e = str_chars("http: unsupported method '");
        push_str_chars(&mut e, s);
        push_str_chars(&mut e, "'");
        Err(string_of(&e))
    }
}

} // verus!
