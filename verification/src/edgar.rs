//! Input validation and request URLs of the SEC EDGAR module.

use vstd::prelude::*;
use vstd::string::{StrSliceExecFns, StringSliceAdditionalSpecFns};
use vstd::utf8::encode_utf8;
use crate::config::join;
use crate::doc_reader::{split_char, split_chars};
use crate::text::{
    all_digits, ascii_lower_chars, ascii_lower_seq, char_is_alphanumeric, chars_eq_str, decimal,
    parse_unsigned, parse_unsigned_chars, push_all, push_decimal, push_str_chars,
    push_zero_padded, slice_chars, str_chars, string_of, to_uppercase, trim, trim_bounds,
    trim_chars, trim_str, unicode_alphanumeric, utf8_len_exceeds, unicode_uppercase, zero_pad,
};

verus! {

// ── CIK numbers ──────────────────────────────────────────────────────

/// Whether `s` starts with `cik` in any ASCII case and has more after it.
pub open spec fn has_cik_prefix(s: Seq<char>) -> bool {
    s.len() > 3 && ascii_lower_seq(s.take(3)) == "cik"@
}

/// What `sanitize_cik` returns: the 10-digit zero-padded CIK number of the
/// input (an optional `CIK` prefix in any case and surrounding white space are
/// allowed), or the error for it.
pub open spec fn sanitize_cik_spec(cik: Seq<char>) -> Result<Seq<char>, Seq<char>> {
    let trimmed = trim(cik);
    let num = if has_cik_prefix(trimmed) {
        trim(trimmed.skip(3))
    } else {
        trimmed
    };
    if trimmed.len() == 0 {
        Err("edgar: CIK cannot be empty"@)
    } else if !all_digits(num) {
        Err(
            "edgar: invalid CIK '"@ + cik
                + "' — must be numeric (e.g., '320193' or 'CIK0000320193')"@,
        )
    } else if num.len() == 0 || num.len() > 10 {
        Err("edgar: CIK '"@ + cik + "' out of range (1-10 digits)"@)
    } else {
        Ok(zero_pad(num, 10))
    }
}

/// Sanitize and zero-pad a CIK number. Accepts numeric strings (with or without
/// leading zeros, optionally after `CIK`) up to 10 digits; any other input is
/// an error.
#[verifier::loop_isolation(false)]
pub fn sanitize_cik(cik: &str) -> (r: Result<String, String>)
    ensures
        match sanitize_cik_spec(cik@) {
            Ok(v) => r matches Ok(s) && s@ == v,
            Err(e) => r matches Err(m) && m@ == e,
        },
{
    let trimmed = trim_str(cik);
    if trimmed.len() == 0 {
        return Err(string_of(&str_chars("edgar: CIK cannot be empty")));
    }
    let prefix_lower = if trimmed.len() > 3 {
        ascii_lower_chars(&slice_chars(&trimmed, 0, 3))
    } else {
        Vec::new()
    };
    let ghost t = trim(cik@);
    assert(trimmed.len() > 3 ==> trimmed@.subrange(0, 3) == t.take(3));
    let has_prefix = trimmed.len() > 3 && chars_eq_str(&prefix_lower, "cik");
    assert(has_prefix == has_cik_prefix(t));
    let num_part = if has_prefix {
        trim_chars(&slice_chars(&trimmed, 3, trimmed.len()))
    } else {
        trimmed
    };
    assert(has_prefix ==> t.subrange(3, t.len() as int) == t.skip(3));
    let ghost num = if has_cik_prefix(t) {
        trim(t.skip(3))
    } else {
        t
    };
    assert(num_part@ == num);
    let mut k: usize = 0;
    while k < num_part.len()
        invariant
            k <= num_part.len(),
            forall|j: int| 0 <= j < k ==> '0' <= #[trigger] num_part@[j] <= '9',
        decreases num_part.len() - k,
    {
        if !('0' <= num_part[k] && num_part[k] <= '9') {
            assert(!crate::text::is_digit(num[k as int]));
            let mut m = str_chars("edgar: invalid CIK '");
            push_str_chars(&mut m, cik);
            push_str_chars(&mut m, "' — must be numeric (e.g., '320193' or 'CIK0000320193')");
            return Err(string_of(&m));
        }
        k += 1;
    }
    if num_part.len() == 0 || num_part.len() > 10 {
        let mut m = str_chars("edgar: CIK '");
        push_str_chars(&mut m, cik);
        push_str_chars(&mut m, "' out of range (1-10 digits)");
        return Err(string_of(&m));
    }
    let mut out: Vec<char> = Vec::new();
    push_zero_padded(&mut out, &num_part, 10);
    assert(out@ =~= zero_pad(num_part@, 10));
    Ok(string_of(&out))
}

/// A sanitized CIK is always ten ASCII digits.
pub proof fn law_sanitized_cik_is_ten_digits(cik: Seq<char>)
    ensures
        sanitize_cik_spec(cik) matches Ok(v) ==> v.len() == 10 && all_digits(v),
{
    if let Ok(v) = sanitize_cik_spec(cik) {
        let trimmed = trim(cik);
        let num = if has_cik_prefix(trimmed) {
            trim(trimmed.skip(3))
        } else {
            trimmed
        };
        assert(v == zero_pad(num, 10));
        assert forall|i: int| 0 <= i < v.len() implies crate::text::is_digit(v[i]) by {
            if num.len() < 10 && i < 10 - num.len() {
            } else if num.len() < 10 {
                assert(v[i] == num[i - (10 - num.len())]);
            }
        }
    }
}

// ── Form types ───────────────────────────────────────────────────────

/// Characters allowed in a form type.
pub open spec fn form_char_ok(c: char) -> bool {
    unicode_alphanumeric(c) || c == '-' || c == '/' || c == ' '
}

/// The index of the first character of `s` that a form type may not hold.
pub open spec fn first_bad_form_char(s: Seq<char>) -> Option<int> {
    if exists|i: int| 0 <= i < s.len() && !form_char_ok(s[i]) {
        Some(
            choose|i: int|
                0 <= i < s.len() && !form_char_ok(s[i]) && forall|j: int|
                    0 <= j < i ==> form_char_ok(s[j]),
        )
    } else {
        None
    }
}

/// What `sanitize_form_type` returns: the trimmed form type in upper case, or
/// the error for it (the length limit counts UTF-8 bytes).
pub open spec fn form_type_spec(form: Seq<char>) -> Result<Seq<char>, Seq<char>> {
    let t = trim(form);
    if t.len() == 0 {
        Err("edgar: form type cannot be empty"@)
    } else if encode_utf8(t).len() > 30 {
        Err("edgar: form type too long (max 30 chars): '"@ + form + "'"@)
    } else {
        match first_bad_form_char(t) {
            Some(i) => Err(
                "edgar: invalid character '"@ + seq![t[i]] + "' in form type '"@ + t + "'"@,
            ),
            None => Ok(unicode_uppercase(t)),
        }
    }
}

/// Validate a filing form type (e.g., "10-K", "10-Q", "8-K", "4", "DEF 14A")
/// and return it in upper case.
#[verifier::loop_isolation(false)]
pub fn sanitize_form_type(form: &str) -> (r: Result<String, String>)
    ensures
        match form_type_spec(form@) {
            Ok(v) => r matches Ok(s) && s@ == v,
            Err(e) => r matches Err(m) && m@ == e,
        },
{
    let trimmed = trim_str(form);
    if trimmed.len() == 0 {
        return Err(string_of(&str_chars("edgar: form type cannot be empty")));
    }
    if utf8_len_exceeds(&trimmed, 30) {
        let mut m = str_chars("edgar: form type too long (max 30 chars): '");
        push_str_chars(&mut m, form);
        push_str_chars(&mut m, "'");
        return Err(string_of(&m));
    }
    let mut i: usize = 0;
    while i < trimmed.len()
        invariant
            i <= trimmed.len(),
            forall|j: int| 0 <= j < i ==> form_char_ok(#[trigger] trimmed@[j]),
        decreases trimmed.len() - i,
    {
        let c = trimmed[i];
        if !char_is_alphanumeric(c) && c != '-' && c != '/' && c != ' ' {
            let ghost k = first_bad_form_char(trimmed@)->0;
            assert(k == i) by {
                if k < i {
                    assert(form_char_ok(trimmed@[k]));
                }
                if k > i {
                    assert(form_char_ok(trimmed@[i as int]));
                }
            }
            let mut m = str_chars("edgar: invalid character '");
            m.push(c);
            push_str_chars(&mut m, "' in form type '");
            push_all(&mut m, &trimmed);
            push_str_chars(&mut m, "'");
            return Err(string_of(&m));
        }
        i += 1;
    }
    let t = string_of(&trimmed);
    Ok(to_uppercase(t.as_str()))
}

// ── Dates and queries ────────────────────────────────────────────────

/// The value of one part of a date: decimal digits only.
pub open spec fn date_part(p: Seq<char>) -> Option<nat> {
    if p.len() > 0 && p[0] != '+' {
        parse_unsigned(p, 2147483647)
    } else {
        None
    }
}

/// What `validate_date` returns: the date itself when it has the form
/// `YYYY-MM-DD` (four, two and two ASCII digits) with year in 1993..=2100,
/// month in 1..=12 and day in 1..=31, or the error for it.
pub open spec fn validate_date_spec(date: Seq<char>) -> Result<Seq<char>, Seq<char>> {
    let parts = split_char(date, '-');
    if parts.len() != 3 || parts[0].len() != 4 || parts[1].len() != 2 || parts[2].len() != 2 {
        Err("edgar: invalid date '"@ + date + "', expected YYYY-MM-DD"@)
    } else {
        match date_part(parts[0]) {
            None => Err("edgar: invalid year in '"@ + date + "'"@),
            Some(year) => match date_part(parts[1]) {
                None => Err("edgar: invalid month in '"@ + date + "'"@),
                Some(month) => match date_part(parts[2]) {
                    None => Err("edgar: invalid day in '"@ + date + "'"@),
                    Some(day) => if !(1993 <= year <= 2100) || !(1 <= month <= 12) || !(1 <= day
                        <= 31) {
                        Err(
                            "edgar: date out of range '"@ + date
                                + "' (EDGAR filings available from 1993)"@,
                        )
                    } else {
                        Ok(date)
                    },
                },
            },
        }
    }
}

fn date_part_exec(p: &Vec<char>) -> (r: Option<u64>)
    ensures
        match date_part(p@) {
            Some(v) => r == Some(v as u64),
            None => r is None,
        },
{
    if p.len() == 0 || p[0] == '+' {
        None
    } else {
        parse_unsigned_chars(p, 2147483647)
    }
}

fn date_error(prefix: &str, date: &str, suffix: &str) -> (r: String)
    ensures
        r@ == prefix@ + date@ + suffix@,
{
    let mut m = str_chars(prefix);
    push_str_chars(&mut m, date);
    push_str_chars(&mut m, suffix);
    string_of(&m)
}

/// Validate a date string in YYYY-MM-DD format.
pub fn validate_date(date: &str) -> (r: Result<&str, String>)
    ensures
        match validate_date_spec(date@) {
            Ok(v) => r matches Ok(s) && s@ == v,
            Err(e) => r matches Err(m) && m@ == e,
        },
{
    let v = str_chars(date);
    let parts = split_chars(&v, '-');
    let ghost views = parts@.map_values(|p: Vec<char>| p@);
    if parts.len() != 3 || parts[0].len() != 4 || parts[1].len() != 2 || parts[2].len() != 2 {
        return Err(date_error("edgar: invalid date '", date, "', expected YYYY-MM-DD"));
    }
    assert(views[0] == parts@[0]@ && views[1] == parts@[1]@ && views[2] == parts@[2]@);
    let year = match date_part_exec(&parts[0]) {
        Some(y) => y,
        None => return Err(date_error("edgar: invalid year in '", date, "'")),
    };
    let month = match date_part_exec(&parts[1]) {
        Some(m) => m,
        None => return Err(date_error("edgar: invalid month in '", date, "'")),
    };
    let day = match date_part_exec(&parts[2]) {
        Some(d) => d,
        None => return Err(date_error("edgar: invalid day in '", date, "'")),
    };
    if !(1993 <= year && year <= 2100) || !(1 <= month && month <= 12) || !(1 <= day && day <= 31) {
        return Err(
            date_error("edgar: date out of range '", date, "' (EDGAR filings available from 1993)"),
        );
    }
    Ok(date)
}

/// What `validate_query` returns: the trimmed query, or the error for an empty
/// or too long one (the limit counts UTF-8 bytes).
pub open spec fn validate_query_spec(query: Seq<char>) -> Result<Seq<char>, Seq<char>> {
    let t = trim(query);
    if t.len() == 0 {
        Err("edgar.search: query cannot be empty"@)
    } else if encode_utf8(t).len() > 500 {
        Err("edgar.search: query too long (max 500 chars)"@)
    } else {
        Ok(t)
    }
}

/// Validate a search query string and return it trimmed.
pub fn validate_query(query: &str) -> (r: Result<&str, String>)
    ensures
        match validate_query_spec(query@) {
            Ok(v) => r matches Ok(s) && s@ == v,
            Err(e) => r matches Err(m) && m@ == e,
        },
{
    let v = str_chars(query);
    let (lo, hi) = trim_bounds(&v);
    if lo == hi {
        return Err(string_of(&str_chars("edgar.search: query cannot be empty")));
    }
    let trimmed = query.substring_char(lo, hi);
    assert(trimmed@ == trim(query@));
    if utf8_len_exceeds(&slice_chars(&v, lo, hi), 500) {
        return Err(string_of(&str_chars("edgar.search: query too long (max 500 chars)")));
    }
    Ok(trimmed)
}

// ── URL encoding ─────────────────────────────────────────────────────

/// Bytes that URL encoding keeps as they are.
pub open spec fn is_unreserved(b: u8) -> bool {
    (65 <= b <= 90) || (97 <= b <= 122) || (48 <= b <= 57) || b == 45 || b == 95 || b == 46 || b
        == 126
}

/// The uppercase hexadecimal character of a nibble.
pub open spec fn hex_upper(n: nat) -> char {
    if n < 10 {
        (n + 48) as char
    } else {
        (n + 55) as char
    }
}

/// The URL encoding of one byte.
pub open spec fn url_byte(b: u8) -> Seq<char> {
    if is_unreserved(b) {
        seq![b as char]
    } else if b == 32 {
        "%20"@
    } else {
        seq!['%', hex_upper((b / 16) as nat), hex_upper((b % 16) as nat)]
    }
}

/// The URL encoding of a byte sequence.
pub open spec fn url_encode_spec(bytes: Seq<u8>) -> Seq<char>
    decreases bytes.len(),
{
    if bytes.len() == 0 {
        seq![]
    } else {
        url_encode_spec(bytes.drop_last()) + url_byte(bytes.last())
    }
}

fn hex_upper_exec(n: u8) -> (c: char)
    requires
        n < 16,
    ensures
        c == hex_upper(n as nat),
{
    if n < 10 {
        ((n + 48) as u8) as char
    } else {
        ((n + 55) as u8) as char
    }
}

/// Percent-encodes the UTF-8 bytes of `s`: unreserved bytes stay, a space
/// becomes `%20`, every other byte becomes `%XX` in uppercase hexadecimal.
pub fn url_encode(s: &str) -> (r: String)
    ensures
        r@ == url_encode_spec(s.spec_bytes()),
{
    let bytes = s.as_bytes();
    let mut out: Vec<char> = Vec::new();
    let mut i: usize = 0;
    while i < bytes.len()
        invariant
            i <= bytes.len(),
            out@ == url_encode_spec(bytes@.take(i as int)),
        decreases bytes.len() - i,
    {
        let b = bytes[i];
        assert(bytes@.take(i + 1).drop_last() =~= bytes@.take(i as int));
        let ghost before = out@;
        if (65 <= b && b <= 90) || (97 <= b && b <= 122) || (48 <= b && b <= 57) || b == 45 || b
            == 95 || b == 46 || b == 126 {
            out.push(b as char);
        } else if b == 32 {
            push_str_chars(&mut out, "%20");
        } else {
            out.push('%');
            out.push(hex_upper_exec(b / 16));
            out.push(hex_upper_exec(b % 16));
        }
        assert(out@ =~= before + url_byte(b));
        i += 1;
    }
    assert(bytes@.take(bytes@.len() as int) =~= bytes@);
    string_of(&out)
}

proof fn lemma_url_encode_chars(bytes: Seq<u8>)
    ensures
        forall|k: int|
            0 <= k < url_encode_spec(bytes).len() ==> {
                let c = #[trigger] url_encode_spec(bytes)[k];
                ('0' <= c <= '9') || ('a' <= c <= 'z') || ('A' <= c <= 'Z') || c == '-' || c == '_'
                    || c == '.' || c == '~' || c == '%'
            },
    decreases bytes.len(),
{
    if bytes.len() > 0 {
        lemma_url_encode_chars(bytes.drop_last());
        let p = url_encode_spec(bytes.drop_last());
        let b = bytes.last();
        let u = url_byte(b);
        reveal_strlit("%20");
        assert(b / 16 < 16 && b % 16 < 16);
        assert forall|k: int| 0 <= k < u.len() implies {
            let c = #[trigger] u[k];
            ('0' <= c <= '9') || ('a' <= c <= 'z') || ('A' <= c <= 'Z') || c == '-' || c == '_'
                || c == '.' || c == '~' || c == '%'
        } by {}
        assert forall|k: int| 0 <= k < url_encode_spec(bytes).len() implies {
            let c = #[trigger] url_encode_spec(bytes)[k];
            ('0' <= c <= '9') || ('a' <= c <= 'z') || ('A' <= c <= 'Z') || c == '-' || c == '_'
                || c == '.' || c == '~' || c == '%'
        } by {
            if k < p.len() {
                assert(url_encode_spec(bytes)[k] == p[k]);
            } else {
                assert(url_encode_spec(bytes)[k] == u[k - p.len()]);
            }
        }
    }
}

/// URL encoding only ever produces unreserved characters and `%`.
pub proof fn law_url_encode_alphabet(s: &str)
    ensures
        forall|k: int|
            0 <= k < url_encode_spec(s.spec_bytes()).len() ==> {
                let c = #[trigger] url_encode_spec(s.spec_bytes())[k];
                ('0' <= c <= '9') || ('a' <= c <= 'z') || ('A' <= c <= 'Z') || c == '-' || c == '_'
                    || c == '.' || c == '~' || c == '%'
            },
{
    lemma_url_encode_chars(s.spec_bytes());
}


// ── Request URLs ─────────────────────────────────────────────────────

/// The number of results asked for: the given count or the default, clamped
/// to `1..=max`.
pub open spec fn clamp_count(count: Option<i32>, default: int, max: int) -> int {
    let c = match count {
        Some(c) => c as int,
        None => default,
    };
    if c > max {
        max
    } else if c < 1 {
        1
    } else {
        c
    }
}

fn clamp_count_exec(count: Option<i32>, default: i32, max: i32) -> (r: i32)
    requires
        1 <= max,
    ensures
        r as int == clamp_count(count, default as int, max as int),
        1 <= r <= max,
{
    let c = match count {
        Some(c) => c,
        None => default,
    };
    if c > max {
        max
    } else if c < 1 {
        1
    } else {
        c
    }
}

/// The date range parameters of a search URL `u`, or the error of the first
/// invalid date.
pub open spec fn date_params(u: Seq<char>, start: Option<Seq<char>>, end: Option<Seq<char>>) -> Result<
    Seq<char>,
    Seq<char>,
> {
    if start is None && end is None {
        Ok(u)
    } else {
        let u1 = u + "&dateRange=custom"@;
        let r2 = match start {
            Some(s) => match validate_date_spec(s) {
                Err(e) => Err(e),
                Ok(_) => Ok(u1 + "&startdt="@ + s),
            },
            None => Ok(u1),
        };
        match r2 {
            Err(e) => Err(e),
            Ok(u2) => match end {
                Some(d) => match validate_date_spec(d) {
                    Err(e) => Err(e),
                    Ok(_) => Ok(u2 + "&enddt="@ + d),
                },
                None => Ok(u2),
            },
        }
    }
}

/// The full-text search URL for a query, an optional form type, an optional
/// date range and a result count (default 10, at most 100), or the error of
/// the first invalid input (query, form type, start date, end date).
pub open spec fn search_url_spec(
    query: Seq<char>,
    form: Option<Seq<char>>,
    start: Option<Seq<char>>,
    end: Option<Seq<char>>,
    count: Option<i32>,
) -> Result<Seq<char>, Seq<char>> {
    match validate_query_spec(query) {
        Err(e) => Err(e),
        Ok(q) => {
            let base = "https://efts.sec.gov/LATEST/search-index?q="@ + url_encode_spec(
                encode_utf8(q),
            ) + "&from=0&size="@ + decimal(clamp_count(count, 10, 100) as nat);
            let with_form = match form {
                None => Ok(base),
                Some(f) => match form_type_spec(f) {
                    Err(e) => Err(e),
                    Ok(ft) => Ok(base + "&forms="@ + url_encode_spec(encode_utf8(ft))),
                },
            };
            match with_form {
                Err(e) => Err(e),
                Ok(u) => date_params(u, start, end),
            }
        },
    }
}

/// The view of an optional string slice.
pub open spec fn opt_view(s: Option<&str>) -> Option<Seq<char>> {
    match s {
        Some(x) => Some(x@),
        None => None,
    }
}

/// `edgar.search` asks for exactly the count it is given when that count is
/// from 1 to 100, for 100 above that, for 1 below 1, and for 10 when no count
/// is given; the rest of the URL does not depend on the count.
pub proof fn law_search_count(query: Seq<char>, c: i32)
    requires
        validate_query_spec(query) is Ok,
    ensures
        ({
            let base = "https://efts.sec.gov/LATEST/search-index?q="@ + url_encode_spec(
                encode_utf8(validate_query_spec(query)->Ok_0),
            ) + "&from=0&size="@;
            &&& 1 <= c <= 100 ==> search_url_spec(query, None, None, None, Some(c)) == Ok::<
                Seq<char>,
                Seq<char>,
            >(base + decimal(c as nat))
            &&& c > 100 ==> search_url_spec(query, None, None, None, Some(c)) == Ok::<
                Seq<char>,
                Seq<char>,
            >(base + decimal(100))
            &&& c < 1 ==> search_url_spec(query, None, None, None, Some(c)) == Ok::<
                Seq<char>,
                Seq<char>,
            >(base + decimal(1))
            &&& search_url_spec(query, None, None, None, None) == Ok::<Seq<char>, Seq<char>>(
                base + decimal(10),
            )
        }),
{
}

/// `edgar.filings` lists exactly the count it is given when that count is
/// from 1 to 1000, 1000 above that, 1 below 1, and 20 when no count is given.
pub proof fn law_filings_count(cik: Seq<char>, c: i32)
    requires
        sanitize_cik_spec(cik) is Ok,
    ensures
        1 <= c <= 1000 ==> (filings_request_spec(cik, None, Some(c)) matches Ok((_, _, n)) && n == c),
        c > 1000 ==> (filings_request_spec(cik, None, Some(c)) matches Ok((_, _, n)) && n == 1000),
        c < 1 ==> (filings_request_spec(cik, None, Some(c)) matches Ok((_, _, n)) && n == 1),
        filings_request_spec(cik, None, None) matches Ok((_, _, n)) && n == 20,
{
}

/// The full-text search URL of `edgar.search`.
pub fn search_url(
    query: &str,
    form_type: Option<&str>,
    start_date: Option<&str>,
    end_date: Option<&str>,
    count: Option<i32>,
) -> (r: Result<String, String>)
    ensures
        match search_url_spec(query@, opt_view(form_type), opt_view(start_date), opt_view(end_date), count) {
            Ok(v) => r matches Ok(s) && s@ == v,
            Err(e) => r matches Err(m) && m@ == e,
        },
{
    let q = match validate_query(query) {
        Ok(q) => q,
        Err(e) => {
            return Err(e);
        },
    };
    let n = clamp_count_exec(count, 10, 100);
    let mut url = str_chars("https://efts.sec.gov/LATEST/search-index?q=");
    let enc = url_encode(q);
    push_str_chars(&mut url, enc.as_str());
    push_str_chars(&mut url, "&from=0&size=");
    push_decimal(&mut url, n as u64);
    match form_type {
        Some(f) => {
            let form = match sanitize_form_type(f) {
                Ok(x) => x,
                Err(e) => {
                    return Err(e);
                },
            };
            push_str_chars(&mut url, "&forms=");
            let fe = url_encode(form.as_str());
            push_str_chars(&mut url, fe.as_str());
        },
        None => {},
    }
    let ghost u = url@;
    if start_date.is_some() || end_date.is_some() {
        push_str_chars(&mut url, "&dateRange=custom");
        match start_date {
            Some(s) => {
                match validate_date(s) {
                    Ok(_) => {},
                    Err(e) => {
                        return Err(e);
                    },
                }
                push_str_chars(&mut url, "&startdt=");
                push_str_chars(&mut url, s);
            },
            None => {},
        }
        match end_date {
            Some(d) => {
                match validate_date(d) {
                    Ok(_) => {},
                    Err(e) => {
                        return Err(e);
                    },
                }
                push_str_chars(&mut url, "&enddt=");
                push_str_chars(&mut url, d);
            },
            None => {},
        }
    }
    assert(date_params(u, opt_view(start_date), opt_view(end_date)) == Ok::<Seq<char>, Seq<char>>(url@));
    Ok(string_of(&url))
}

/// The submissions URL of a company, for its ten-digit CIK.
pub open spec fn submissions_url(padded: Seq<char>) -> Seq<char> {
    "https://data.sec.gov/submissions/CIK"@ + padded + ".json"@
}

/// What `edgar.filings` asks for: the submissions URL, the form type that the
/// filings must have (in upper case), and how many filings to list (default
/// 20, at most 1000); or the error of the CIK or of the form type.
pub open spec fn filings_request_spec(cik: Seq<char>, form: Option<Seq<char>>, count: Option<i32>) -> Result<
    (Seq<char>, Option<Seq<char>>, int),
    Seq<char>,
> {
    match sanitize_cik_spec(cik) {
        Err(e) => Err(e),
        Ok(p) => {
            let n = clamp_count(count, 20, 1000);
            match form {
                None => Ok((submissions_url(p), None, n)),
                Some(f) => match form_type_spec(f) {
                    Err(e) => Err(e),
                    Ok(ft) => Ok((submissions_url(p), Some(ft), n)),
                },
            }
        },
    }
}

/// The request of `edgar.filings`.
pub fn filings_request(cik: &str, form_type: Option<&str>, count: Option<i32>) -> (r: Result<
    (String, Option<String>, usize),
    String,
>)
    ensures
        match filings_request_spec(cik@, opt_view(form_type), count) {
            Ok((u, f, n)) => r matches Ok((ru, rf, rn)) && ru@ == u && rn == n && match f {
                Some(x) => rf matches Some(y) && y@ == x,
                None => rf is None,
            },
            Err(e) => r matches Err(m) && m@ == e,
        },
{
    let padded = match sanitize_cik(cik) {
        Ok(p) => p,
        Err(e) => {
            return Err(e);
        },
    };
    let n = clamp_count_exec(count, 20, 1000);
    let filter = match form_type {
        Some(f) => match sanitize_form_type(f) {
            Ok(x) => Some(x),
            Err(e) => {
                return Err(e);
            },
        },
        None => None,
    };
    let mut url = str_chars("https://data.sec.gov/submissions/CIK");
    push_str_chars(&mut url, padded.as_str());
    push_str_chars(&mut url, ".json");
    Ok((string_of(&url), filter, n as usize))
}

/// The company URL of `edgar.company`.
pub fn company_url(cik: &str) -> (r: Result<String, String>)
    ensures
        match sanitize_cik_spec(cik@) {
            Ok(p) => r matches Ok(s) && s@ == submissions_url(p),
            Err(e) => r matches Err(m) && m@ == e,
        },
{
    let padded = match sanitize_cik(cik) {
        Ok(p) => p,
        Err(e) => {
            return Err(e);
        },
    };
    let mut url = str_chars("https://data.sec.gov/submissions/CIK");
    push_str_chars(&mut url, padded.as_str());
    push_str_chars(&mut url, ".json");
    Ok(string_of(&url))
}

// ── Archive URLs ─────────────────────────────────────────────────────

/// A CIK without its leading zeros, or `0` when it is all zeros.
pub open spec fn cik_path(cik: Seq<char>) -> Seq<char> {
    let t = cik.skip(leading_zeros(cik) as int);
    if t.len() == 0 {
        "0"@
    } else {
        t
    }
}

/// The number of leading `0` characters of `s`.
pub open spec fn leading_zeros(s: Seq<char>) -> nat
    decreases s.len(),
{
    if s.len() > 0 && s[0] == '0' {
        1 + leading_zeros(s.drop_first())
    } else {
        0
    }
}

/// `s` without its `-` characters.
pub open spec fn without_dashes(s: Seq<char>) -> Seq<char> {
    s.filter(|c: char| c != '-')
}

fn cik_path_exec(cik: &str) -> (r: Vec<char>)
    ensures
        r@ == cik_path(cik@),
{
    let v = str_chars(cik);
    let mut k: usize = 0;
    assert(v@.skip(0) =~= v@);
    while k < v.len() && v[k] == '0'
        invariant
            k <= v.len(),
            leading_zeros(v@) == k + leading_zeros(v@.skip(k as int)),
        decreases v.len() - k,
    {
        assert(v@.skip(k as int).drop_first() =~= v@.skip(k + 1));
        k += 1;
    }
    assert(leading_zeros(v@.skip(k as int)) == 0);
    let t = slice_chars(&v, k, v.len());
    assert(t@ =~= v@.skip(k as int));
    if t.len() == 0 {
        str_chars("0")
    } else {
        t
    }
}

fn without_dashes_exec(s: &str) -> (r: Vec<char>)
    ensures
        r@ == without_dashes(s@),
{
    let v = str_chars(s);
    let mut out: Vec<char> = Vec::new();
    let mut i: usize = 0;
    proof {
        reveal_with_fuel(Seq::filter, 1);
        assert(v@.take(0) =~= Seq::<char>::empty());
    }
    while i < v.len()
        invariant
            i <= v.len(),
            out@ == v@.take(i as int).filter(|c: char| c != '-'),
        decreases v.len() - i,
    {
        assert(v@.take(i + 1).drop_last() =~= v@.take(i as int));
        reveal_with_fuel(Seq::filter, 1);
        if v[i] != '-' {
            out.push(v[i]);
        }
        i += 1;
    }
    assert(v@.take(v@.len() as int) =~= v@);
    out
}

/// The index page URL of a filing found by a search.
pub open spec fn filing_index_url_spec(cik: Seq<char>, accession: Seq<char>) -> Seq<char> {
    "https://www.sec.gov/Archives/edgar/data/"@ + cik_path(cik) + "/"@ + without_dashes(accession)
        + "/"@ + accession + "-index.htm"@
}

/// The index page URL of a filing found by a search, from the first CIK of the
/// hit and its accession number.
pub fn filing_index_url(cik: &str, accession: &str) -> (r: String)
    ensures
        r@ == filing_index_url_spec(cik@, accession@),
{
    let mut url = str_chars("https://www.sec.gov/Archives/edgar/data/");
    push_all(&mut url, &cik_path_exec(cik));
    push_str_chars(&mut url, "/");
    push_all(&mut url, &without_dashes_exec(accession));
    push_str_chars(&mut url, "/");
    push_str_chars(&mut url, accession);
    push_str_chars(&mut url, "-index.htm");
    string_of(&url)
}

/// The URL of the primary document of a filing of a company.
pub open spec fn filing_document_url_spec(cik: Seq<char>, accession: Seq<char>, document: Seq<char>) -> Seq<char> {
    "https://www.sec.gov/Archives/edgar/data/"@ + cik_path(cik) + "/"@ + without_dashes(accession)
        + "/"@ + document
}

/// The URL of the primary document of a filing, from the company's CIK, the
/// accession number and the document's name.
pub fn filing_document_url(cik: &str, accession: &str, document: &str) -> (r: String)
    ensures
        r@ == filing_document_url_spec(cik@, accession@, document@),
{
    let mut url = str_chars("https://www.sec.gov/Archives/edgar/data/");
    push_all(&mut url, &cik_path_exec(cik));
    push_str_chars(&mut url, "/");
    push_all(&mut url, &without_dashes_exec(accession));
    push_str_chars(&mut url, "/");
    push_str_chars(&mut url, document);
    string_of(&url)
}

// ── Choosing filings ─────────────────────────────────────────────────

/// Whether the filing at index `i` passes the form filter: there is no filter,
/// or no form list, or no form text at `i`, or the form equals the filter in
/// any ASCII case.
pub open spec fn keeps_filing(forms: Option<Seq<Option<Seq<char>>>>, filter: Option<Seq<char>>, i: int) -> bool {
    match filter {
        None => true,
        Some(f) => match forms {
            None => true,
            Some(fs) => if 0 <= i < fs.len() {
                match fs[i] {
                    Some(x) => ascii_lower_seq(x) == ascii_lower_seq(f),
                    None => true,
                }
            } else {
                true
            },
        },
    }
}

/// The indices of the filings `0..total` that pass the filter, at most `count`
/// of them, in order.
pub open spec fn chosen_filings(
    forms: Option<Seq<Option<Seq<char>>>>,
    filter: Option<Seq<char>>,
    total: nat,
    count: nat,
) -> Seq<nat>
    decreases total,
{
    if total == 0 {
        seq![]
    } else {
        let before = chosen_filings(forms, filter, (total - 1) as nat, count);
        if before.len() < count && keeps_filing(forms, filter, total - 1) {
            before.push((total - 1) as nat)
        } else {
            before
        }
    }
}

/// The view of the optional form list of a submissions response.
pub open spec fn forms_view(forms: Option<&Vec<Option<String>>>) -> Option<Seq<Option<Seq<char>>>> {
    match forms {
        Some(v) => Some(v@.map_values(|f: Option<String>| match f {
            Some(s) => Some(s@),
            None => None,
        })),
        None => None,
    }
}

fn eq_ignore_ascii_case(a: &str, b: &str) -> (r: bool)
    ensures
        r == (ascii_lower_seq(a@) == ascii_lower_seq(b@)),
{
    let av = ascii_lower_chars(&str_chars(a));
    let bv = ascii_lower_chars(&str_chars(b));
    crate::text::chars_eq(&av, &bv)
}

/// The filings that `edgar.filings` lists, as indices into the columns of the
/// submissions response: the first `count` of the `total` ones whose form
/// passes the filter.
pub fn choose_filings(
    forms: Option<&Vec<Option<String>>>,
    filter: Option<&str>,
    total: usize,
    count: usize,
) -> (r: Vec<usize>)
    ensures
        r@.map_values(|i: usize| i as nat) == chosen_filings(forms_view(forms), opt_view(filter), total as nat, count as nat),
{
    let ghost fv = forms_view(forms);
    let mut out: Vec<usize> = Vec::new();
    let mut i: usize = 0;
    while i < total
        invariant
            i <= total,
            fv == forms_view(forms),
            out@.map_values(|i: usize| i as nat) == chosen_filings(fv, opt_view(filter), i as nat, count as nat),
        decreases total - i,
    {
        let keep = match filter {
            None => true,
            Some(f) => match forms {
                None => true,
                Some(fs) => if i < fs.len() {
                    match &fs[i] {
                        Some(x) => eq_ignore_ascii_case(x.as_str(), f),
                        None => true,
                    }
                } else {
                    true
                },
            },
        };
        assert(keep == keeps_filing(fv, opt_view(filter), i as int));
        if out.len() < count && keep {
            let ghost before = out@;
            out.push(i);
            assert(out@.map_values(|i: usize| i as nat) =~= before.map_values(|i: usize| i as nat).push(i as nat));
        }
        i += 1;
    }
    out
}

} // verus!
