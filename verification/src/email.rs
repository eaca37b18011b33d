//! The `email` module: validation, parsing and normalisation of email
//! addresses, with the RFC 5321 rules of the `email_address` crate.

use vstd::prelude::*;
use crate::text::{push_str_chars, str_chars, string_of, to_lowercase, trim, trim_str, unicode_lowercase};

verus! {

/// Whether the `email_address` crate accepts an address with its default
/// options (no display name).
pub uninterp spec fn email_valid(address: Seq<char>) -> bool;

/// The local part that the `email_address` crate finds in a valid address.
pub uninterp spec fn email_local_part(address: Seq<char>) -> Seq<char>;

/// The domain that the `email_address` crate finds in a valid address.
pub uninterp spec fn email_domain(address: Seq<char>) -> Seq<char>;

/// The message of the `email_address` crate's error for an invalid address.
pub uninterp spec fn email_error_text(address: Seq<char>) -> Seq<char>;

/// `EmailAddress::from_str` from the `email_address` crate, with the parts
/// of the result: the local part (`local_part`), the domain (`domain`) and the
/// whole address (`to_string`, which gives the parsed text back). For an
/// invalid address, the message of the error (`to_string`). The rules of RFC
/// 5321 that decide validity are named by `email_valid`.
#[verifier::external_body]
fn parse_email_address(address: &str) -> (r: Result<(String, String, String), String>)
    ensures
        match r {
            Ok((local, domain, full)) => {
                &&& email_valid(address@)
                &&& local@ == email_local_part(address@)
                &&& domain@ == email_domain(address@)
                &&& full@ == address@
            },
            Err(e) => !email_valid(address@) && e@ == email_error_text(address@),
        },
{
    match address.parse::<email_address::EmailAddress>() {
        Ok(parsed) => Ok((parsed.local_part().to_string(), parsed.domain().to_string(), parsed.to_string())),
        Err(e) => Err(e.to_string()),
    }
}

/// The parts of a parsed address (`email.parse`).
pub struct ParsedEmail {
    pub local: String,
    pub domain: String,
    pub full: String,
}

/// `email.isValid`: whether the address is valid.
pub fn is_valid(address: &str) -> (r: bool)
    ensures
        r == email_valid(address@),
{
    parse_email_address(address).is_ok()
}

/// `email.parse`: the local part, domain and whole text of a valid address,
/// or `None` for an invalid one.
pub fn parse(address: &str) -> (r: Option<ParsedEmail>)
    ensures
        email_valid(address@) <==> r is Some,
        r matches Some(p) ==> p.local@ == email_local_part(address@) && p.domain@ == email_domain(address@)
            && p.full@ == address@,
{
    match parse_email_address(address) {
        Ok((local, domain, full)) => Some(ParsedEmail { local, domain, full }),
        Err(_) => None,
    }
}

/// What `email.normalize` gives for an address: the trimmed address with its
/// domain in lower case, or the error naming the trimmed text.
pub open spec fn normalize_spec(address: Seq<char>) -> Result<Seq<char>, Seq<char>> {
    let t = trim(address);
    if email_valid(t) {
        Ok(email_local_part(t) + "@"@ + unicode_lowercase(email_domain(t)))
    } else {
        Err("email.normalize: invalid email '"@ + t + "': "@ + email_error_text(t))
    }
}

/// `email.normalize`: trims the address and lowercases its domain; the local
/// part keeps its case.
pub fn normalize(address: &str) -> (r: Result<String, String>)
    ensures
        match normalize_spec(address@) {
            Ok(n) => r matches Ok(s) && s@ == n,
            Err(e) => r matches Err(m) && m@ == e,
        },
{
    let trimmed = string_of(&trim_str(address));
    match parse_email_address(trimmed.as_str()) {
        Ok((local, domain, _)) => {
            let lower = to_lowercase(domain.as_str());
            let mut out = str_chars(local.as_str());
            push_str_chars(&mut out, "@");
            push_str_chars(&mut out, lower.as_str());
            Ok(string_of(&out))
        },
        Err(e) => {
            let mut m = str_chars("email.normalize: invalid email '");
            push_str_chars(&mut m, trimmed.as_str());
            push_str_chars(&mut m, "': ");
            push_str_chars(&mut m, e.as_str());
            Err(string_of(&m))
        },
    }
}

} // verus!
