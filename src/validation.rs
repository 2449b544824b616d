use crate::text::{chars_of, parse_i64, parse_u64, trim, trim_bounds, i64_of, u64_of};
use vstd::prelude::*;

verus! {

/// Shortest accepted lifetime of a link, in seconds (five minutes).
pub const MIN_TTL_SECONDS: i64 = 300;

/// Longest accepted lifetime of a link, in seconds (thirty days).
pub const MAX_TTL_SECONDS: i64 = 2592000;

/// Lifetime of a link whose request names none, in seconds (seven days).
pub const DEFAULT_TTL_SECONDS: i64 = 604800;

/// Longest short code, in characters.
pub const MAX_CODE_LEN: usize = 32;

/// Why an input was refused.
#[derive(Debug, Clone, Copy, PartialEq, Eq, Structural)]
pub enum ValidationError {
    /// The URL does not begin with `http://` or `https://`.
    UrlScheme,
    /// The URL does not parse, or has no host.
    UrlMalformed,
    /// The URL's host is `localhost` or begins with `127.0.0.1`.
    UrlLocal,
    /// The code is empty.
    CodeEmpty,
    /// The code is longer than 32 characters.
    CodeTooLong,
    /// The code holds a character outside `[A-Za-z0-9_-]`.
    CodeCharacter,
    /// The TTL has fewer than two characters once trimmed.
    TtlFormat,
    /// The TTL's numeric part does not parse.
    TtlNumber,
    /// The TTL's unit is not one of `s`, `m`, `h`, `d`.
    TtlUnit,
    /// The TTL is shorter than five minutes.
    TtlTooShort,
    /// The TTL is longer than thirty days.
    TtlTooLong,
}

/// The sentence that describes refusal `e`.
pub open spec fn message_of(e: ValidationError) -> Seq<char> {
    match e {
        ValidationError::UrlScheme => "URL must start with http:// or https://"@,
        ValidationError::UrlMalformed => "Invalid URL format"@,
        ValidationError::UrlLocal => "URL cannot point to localhost or 127.0.0.1"@,
        ValidationError::CodeEmpty => "Code cannot be empty"@,
        ValidationError::CodeTooLong => "Code cannot exceed 32 characters"@,
        ValidationError::CodeCharacter => "Code can only contain letters, numbers, hyphens, and underscores"@,
        ValidationError::TtlFormat => "Invalid TTL format"@,
        ValidationError::TtlNumber => "Invalid TTL number"@,
        ValidationError::TtlUnit => "Invalid TTL unit. Use s, m, h, or d"@,
        ValidationError::TtlTooShort => "TTL must be at least 300 seconds (5 minutes)"@,
        ValidationError::TtlTooLong => "TTL cannot exceed 2592000 seconds (30 days)"@,
    }
}

impl ValidationError {
    /// A sentence that describes the refusal.
    pub fn message(&self) -> (r: String)
        ensures
            r@ == message_of(*self),
    {
        match self {
            ValidationError::UrlScheme => "URL must start with http:// or https://".to_owned(),
            ValidationError::UrlMalformed => "Invalid URL format".to_owned(),
            ValidationError::UrlLocal => "URL cannot point to localhost or 127.0.0.1".to_owned(),
            ValidationError::CodeEmpty => "Code cannot be empty".to_owned(),
            ValidationError::CodeTooLong => "Code cannot exceed 32 characters".to_owned(),
            ValidationError::CodeCharacter => "Code can only contain letters, numbers, hyphens, and underscores".to_owned(),
            ValidationError::TtlFormat => "Invalid TTL format".to_owned(),
            ValidationError::TtlNumber => "Invalid TTL number".to_owned(),
            ValidationError::TtlUnit => "Invalid TTL unit. Use s, m, h, or d".to_owned(),
            ValidationError::TtlTooShort => "TTL must be at least 300 seconds (5 minutes)".to_owned(),
            ValidationError::TtlTooLong => "TTL cannot exceed 2592000 seconds (30 days)".to_owned(),
        }
    }
}

// ---------------------------------------------------------------- codes

/// Whether `c` may appear in a short code: an ASCII letter, a digit, `-` or `_`.
pub open spec fn is_code_char(c: char) -> bool {
    ('a' <= c && c <= 'z') || ('A' <= c && c <= 'Z') || ('0' <= c && c <= '9') || c == '-' || c
        == '_'
}

/// The language `[A-Za-z0-9_-]{1,32}`.
pub open spec fn is_valid_code(s: Seq<char>) -> bool {
    1 <= s.len() <= 32 && forall|i: int| 0 <= i < s.len() ==> is_code_char(#[trigger] s[i])
}

/// What `validate_code` decides on `s`.
pub open spec fn code_verdict(s: Seq<char>) -> Result<(), ValidationError> {
    if s.len() == 0 {
        Err(ValidationError::CodeEmpty)
    } else if s.len() > 32 {
        Err(ValidationError::CodeTooLong)
    } else if !is_valid_code(s) {
        Err(ValidationError::CodeCharacter)
    } else {
        Ok(())
    }
}

pub fn code_char(c: char) -> (r: bool)
    ensures
        r == is_code_char(c),
{
    ('a' <= c && c <= 'z') || ('A' <= c && c <= 'Z') || ('0' <= c && c <= '9') || c == '-' || c
        == '_'
}

/// Checks that `code` is a well-formed short code: 1 to 32 characters out of
/// `[A-Za-z0-9_-]`.
pub fn validate_code(code: &str) -> (r: Result<(), ValidationError>)
    ensures
        r == code_verdict(code@),
        r is Ok <==> is_valid_code(code@),
{
    let cs = chars_of(code);
    let n = cs.len();
    if n == 0 {
        return Err(ValidationError::CodeEmpty);
    }
    if n > MAX_CODE_LEN {
        return Err(ValidationError::CodeTooLong);
    }
    let mut i: usize = 0;
    while i < n
        invariant
            n == cs@.len() == code@.len(),
            cs@ == code@,
            1 <= n <= 32,
            i <= n,
            forall|j: int| 0 <= j < i ==> is_code_char(#[trigger] cs@[j]),
        decreases n - i,
    {
        if !code_char(cs[i]) {
            assert(!is_code_char(code@[i as int]));
            return Err(ValidationError::CodeCharacter);
        }
        i = i + 1;
    }
    Ok(())
}

// ---------------------------------------------------------------- URLs

pub open spec fn http_prefix() -> Seq<char> {
    seq!['h', 't', 't', 'p', ':', '/', '/']
}

pub open spec fn https_prefix() -> Seq<char> {
    seq!['h', 't', 't', 'p', 's', ':', '/', '/']
}

pub open spec fn loopback_prefix() -> Seq<char> {
    seq!['1', '2', '7', '.', '0', '.', '0', '.', '1']
}

pub open spec fn localhost_name() -> Seq<char> {
    seq!['l', 'o', 'c', 'a', 'l', 'h', 'o', 's', 't']
}

/// Whether `s` begins with `p`.
pub open spec fn starts_with(s: Seq<char>, p: Seq<char>) -> bool {
    p.len() <= s.len() && s.take(p.len() as int) == p
}

/// Whether `s` begins with `http://` or `https://`.
pub open spec fn has_web_scheme(s: Seq<char>) -> bool {
    starts_with(s, http_prefix()) || starts_with(s, https_prefix())
}

/// Whether `c` is `p`, or the capital of the small letter `p`.
pub open spec fn same_nocase(c: char, p: char) -> bool {
    c == p || ('A' <= c && c <= 'Z' && c as int + 32 == p as int)
}

/// Whether `s` equals `p` when ASCII case is ignored, on the first `p.len()`
/// characters of `s`.
pub open spec fn starts_with_nocase(s: Seq<char>, p: Seq<char>) -> bool {
    p.len() <= s.len() && forall|i: int| 0 <= i < p.len() ==> same_nocase(#[trigger] s[i], p[i])
}

/// Whether a host names this machine: `localhost`, or anything that begins
/// with `127.0.0.1`, in any case.
pub open spec fn is_local_host(h: Seq<char>) -> bool {
    (h.len() == localhost_name().len() && starts_with_nocase(h, localhost_name()))
        || starts_with_nocase(h, loopback_prefix())
}

/// What `url::Url::parse` and then `Url::host_str` give for `s`: `None` where
/// the string does not parse, else the host, if the URL has one.
pub uninterp spec fn url_host_of(s: Seq<char>) -> Option<Option<Seq<char>>>;

/// The view of a parsed host, as `url_host_of` speaks of it.
pub open spec fn host_view(p: Option<Option<String>>) -> Option<Option<Seq<char>>> {
    match p {
        Some(Some(h)) => Some(Some(h@)),
        Some(None) => Some(None),
        None => None,
    }
}

/// What `validate_url` decides on `s`, given what the URL parser made of it.
pub open spec fn url_verdict(s: Seq<char>, parsed: Option<Option<Seq<char>>>) -> Result<
    (),
    ValidationError,
> {
    if !has_web_scheme(s) {
        Err(ValidationError::UrlScheme)
    } else {
        match parsed {
            None => Err(ValidationError::UrlMalformed),
            Some(Some(h)) => if is_local_host(h) {
                Err(ValidationError::UrlLocal)
            } else {
                Ok(())
            },
            Some(None) => Err(ValidationError::UrlMalformed),
        }
    }
}

/// Relies on `url::Url::parse`, and on `Url::host_str` of what it parsed:
/// the result depends on the string alone.
#[verifier::external_body]
pub(crate) fn parse_url_host(s: &str) -> (r: Option<Option<String>>)
    ensures
        host_view(r) == url_host_of(s@),
{
    url::Url::parse(s).ok().map(|u| u.host_str().map(|h| h.to_string()))
}

fn starts_with_exec(s: &Vec<char>, p: &Vec<char>) -> (r: bool)
    ensures
        r == starts_with(s@, p@),
{
    if p.len() > s.len() {
        return false;
    }
    let mut i: usize = 0;
    while i < p.len()
        invariant
            p@.len() <= s@.len(),
            i <= p@.len(),
            forall|j: int| 0 <= j < i ==> s@[j] == p@[j],
        decreases p@.len() - i,
    {
        if s[i] != p[i] {
            assert(s@.take(p@.len() as int)[i as int] != p@[i as int]);
            return false;
        }
        i = i + 1;
    }
    assert(s@.take(p@.len() as int) =~= p@);
    true
}

fn same_nocase_exec(c: char, p: char) -> (r: bool)
    ensures
        r == same_nocase(c, p),
{
    c == p || ('A' <= c && c <= 'Z' && (c as u32) + 32 == p as u32)
}

fn starts_with_nocase_exec(s: &Vec<char>, p: &Vec<char>) -> (r: bool)
    ensures
        r == starts_with_nocase(s@, p@),
{
    if p.len() > s.len() {
        return false;
    }
    let mut i: usize = 0;
    while i < p.len()
        invariant
            p@.len() <= s@.len(),
            i <= p@.len(),
            forall|j: int| 0 <= j < i ==> same_nocase(#[trigger] s@[j], p@[j]),
        decreases p@.len() - i,
    {
        if !same_nocase_exec(s[i], p[i]) {
            return false;
        }
        i = i + 1;
    }
    true
}

/// Whether `host` names this machine (`localhost`, or a host that begins with
/// `127.0.0.1`), ignoring ASCII case.
pub fn is_local(host: &str) -> (r: bool)
    ensures
        r == is_local_host(host@),
{
    let h = chars_of(host);
    let name = vec!['l', 'o', 'c', 'a', 'l', 'h', 'o', 's', 't'];
    let loopback = vec!['1', '2', '7', '.', '0', '.', '0', '.', '1'];
    assert(name@ == localhost_name());
    assert(loopback@ == loopback_prefix());
    (h.len() == name.len() && starts_with_nocase_exec(&h, &name)) || starts_with_nocase_exec(
        &h,
        &loopback,
    )
}

/// Decides on `url` once the URL parser has made `parsed` of it: the scheme
/// must be `http://` or `https://`, the string must have parsed with a host,
/// and the host must not name this machine.
pub fn validate_parsed_url(url: &str, parsed: &Option<Option<String>>) -> (r: Result<
    (),
    ValidationError,
>)
    ensures
        r == url_verdict(url@, host_view(*parsed)),
{
    let s = chars_of(url);
    let http = vec!['h', 't', 't', 'p', ':', '/', '/'];
    let https = vec!['h', 't', 't', 'p', 's', ':', '/', '/'];
    assert(http@ == http_prefix());
    assert(https@ == https_prefix());
    if !starts_with_exec(&s, &http) && !starts_with_exec(&s, &https) {
        return Err(ValidationError::UrlScheme);
    }
    match parsed {
        None => Err(ValidationError::UrlMalformed),
        Some(Some(h)) => {
            if is_local(h.as_str()) {
                Err(ValidationError::UrlLocal)
            } else {
                Ok(())
            }
        },
        Some(None) => Err(ValidationError::UrlMalformed),
    }
}

/// Checks that `url` is an absolute `http` or `https` URL that does not point
/// at this machine.
pub fn validate_url(url: &str) -> (r: Result<(), ValidationError>)
    ensures
        r == url_verdict(url@, url_host_of(url@)),
        !has_web_scheme(url@) ==> r == Err::<(), ValidationError>(ValidationError::UrlScheme),
{
    let parsed = parse_url_host(url);
    validate_parsed_url(url, &parsed)
}

// ---------------------------------------------------------------- TTLs

/// Seconds in one of the TTL units `s`, `m`, `h`, `d`, in either case.
pub open spec fn unit_seconds(c: char) -> Option<int> {
    if c == 's' || c == 'S' {
        Some(1)
    } else if c == 'm' || c == 'M' {
        Some(60)
    } else if c == 'h' || c == 'H' {
        Some(3600)
    } else if c == 'd' || c == 'D' {
        Some(86400)
    } else {
        None
    }
}

/// What `parse_ttl` returns for `s`: the trimmed text is a number followed by
/// a unit, and the seconds it stands for lie within
/// [`MIN_TTL_SECONDS`, `MAX_TTL_SECONDS`].
pub open spec fn ttl_seconds(s: Seq<char>) -> Result<i64, ValidationError> {
    let t = trim(s);
    if t.len() < 2 {
        Err(ValidationError::TtlFormat)
    } else {
        match i64_of(t.drop_last()) {
            None => Err(ValidationError::TtlNumber),
            Some(n) => match unit_seconds(t.last()) {
                None => Err(ValidationError::TtlUnit),
                Some(m) => if n * m < 300 {
                    Err(ValidationError::TtlTooShort)
                } else if n * m > 2592000 {
                    Err(ValidationError::TtlTooLong)
                } else {
                    Ok((n * m) as i64)
                },
            },
        }
    }
}

/// What `validate_ttl_format` decides on `s`: the trimmed text is an unsigned
/// number followed by a unit; its size is not checked.
pub open spec fn ttl_format_verdict(s: Seq<char>) -> Result<(), ValidationError> {
    let t = trim(s);
    if t.len() < 2 {
        Err(ValidationError::TtlFormat)
    } else if u64_of(t.drop_last()) is None {
        Err(ValidationError::TtlNumber)
    } else if unit_seconds(t.last()) is None {
        Err(ValidationError::TtlUnit)
    } else {
        Ok(())
    }
}

fn unit_of(c: char) -> (r: Option<i64>)
    ensures
        match r {
            Some(m) => unit_seconds(c) == Some(m as int),
            None => unit_seconds(c) is None,
        },
{
    if c == 's' || c == 'S' {
        Some(1)
    } else if c == 'm' || c == 'M' {
        Some(60)
    } else if c == 'h' || c == 'H' {
        Some(3600)
    } else if c == 'd' || c == 'D' {
        Some(86400)
    } else {
        None
    }
}

/// Parses a lifetime such as `5m`, `1h` or ` 30D ` into seconds.
pub fn parse_ttl(ttl: &str) -> (r: Result<i64, ValidationError>)
    ensures
        r == ttl_seconds(ttl@),
        r matches Ok(v) ==> MIN_TTL_SECONDS <= v <= MAX_TTL_SECONDS,
{
    let s = chars_of(ttl);
    let (a, b) = trim_bounds(&s);
    let ghost t = trim(ttl@);
    if b - a < 2 {
        return Err(ValidationError::TtlFormat);
    }
    assert(t.drop_last() =~= s@.subrange(a as int, b - 1));
    let n = match parse_i64(&s, a, b - 1) {
        Some(n) => n,
        None => {
            return Err(ValidationError::TtlNumber);
        },
    };
    assert(t.last() == s@[b - 1]);
    let m = match unit_of(s[b - 1]) {
        Some(m) => m,
        None => {
            return Err(ValidationError::TtlUnit);
        },
    };
    // `n * m` is compared without being formed, so that no product can overflow.
    if n < (MIN_TTL_SECONDS + m - 1) / m {
        assert(n * m < 300) by (nonlinear_arith)
            requires
                (n as int) < (299int + m as int) / (m as int),
                1 <= m <= 86400,
        ;
        return Err(ValidationError::TtlTooShort);
    }
    assert(n * m >= 300) by (nonlinear_arith)
        requires
            (n as int) >= (299int + m as int) / (m as int),
            1 <= m <= 86400,
    ;
    if n > MAX_TTL_SECONDS / m {
        assert(n * m > 2592000) by (nonlinear_arith)
            requires
                (n as int) > 2592000int / (m as int),
                1 <= m <= 86400,
        ;
        return Err(ValidationError::TtlTooLong);
    }
    assert(n * m <= 2592000) by (nonlinear_arith)
        requires
            (n as int) <= 2592000int / (m as int),
            1 <= m <= 86400,
    ;
    Ok(n * m)
}

/// Checks the shape of a lifetime (a number, then one of `s`, `m`, `h`, `d`)
/// without its bounds.
pub fn validate_ttl_format(ttl: &str) -> (r: Result<(), ValidationError>)
    ensures
        r == ttl_format_verdict(ttl@),
{
    let s = chars_of(ttl);
    let (a, b) = trim_bounds(&s);
    let ghost t = trim(ttl@);
    if b - a < 2 {
        return Err(ValidationError::TtlFormat);
    }
    assert(t.drop_last() =~= s@.subrange(a as int, b - 1));
    if parse_u64(&s, a, b - 1).is_none() {
        return Err(ValidationError::TtlNumber);
    }
    assert(t.last() == s@[b - 1]);
    if unit_of(s[b - 1]).is_none() {
        return Err(ValidationError::TtlUnit);
    }
    Ok(())
}

} // verus!
