//! Validation of external request handler settings.

use vstd::prelude::*;
use crate::configuration::{
    blank, flat_errors, message_if, numbered_message, numbered_text, quoted_message, RequestHandler,
};
use crate::round_robin::strings_view;
use crate::text::{chars_of, str_eq, str_starts_with, string_of_range, trim, trim_ws};

verus! {

/// What `char::is_alphanumeric` says of a character (Unicode `Alphabetic`
/// or `Numeric`).
pub uninterp spec fn alphanumeric(c: char) -> bool;

/// Relies on `char::is_alphanumeric`.
#[verifier::external_body]
fn is_alphanumeric(c: char) -> (r: bool)
    ensures
        r == alphanumeric(c),
{
    c.is_alphanumeric()
}

/// Every character is alphanumeric or `_` (or `-` when `dash` is allowed).
pub open spec fn word_chars(s: Seq<char>, dash: bool) -> bool {
    forall|i: int| 0 <= i < s.len() ==> alphanumeric(#[trigger] s[i]) || s[i] == '_' || (dash && s[i] == '-')
}

fn word_chars_exec(s: &str, dash: bool) -> (r: bool)
    ensures
        r == word_chars(s@, dash),
{
    let v = chars_of(s);
    let mut i: usize = 0;
    while i < v.len()
        invariant
            v@ == s@,
            i <= v@.len(),
            forall|k: int| 0 <= k < i ==> alphanumeric(#[trigger] v@[k]) || v@[k] == '_' || (dash && v@[k] == '-'),
        decreases v@.len() - i,
    {
        let c = v[i];
        if !(is_alphanumeric(c) || c == '_' || (dash && c == '-')) {
            return false;
        }
        i += 1;
    }
    true
}

pub open spec fn is_digit(c: char) -> bool {
    '0' <= c && c <= '9'
}

pub open spec fn digit_value(c: char) -> nat {
    if is_digit(c) {
        (c as int - '0' as int) as nat
    } else {
        0
    }
}

/// The number a string of decimal digits denotes.
pub open spec fn digits_value(d: Seq<char>) -> nat
    decreases d.len(),
{
    if d.len() == 0 {
        0
    } else {
        digits_value(d.drop_last()) * 10 + digit_value(d.last())
    }
}

/// `s` without a leading `+`.
pub open spec fn sign_stripped(s: Seq<char>) -> Seq<char> {
    if s.len() > 0 && s[0] == '+' {
        s.drop_first()
    } else {
        s
    }
}

/// What `u16::from_str` accepts: an optional `+`, then one or more decimal
/// digits denoting at most 65535.
pub open spec fn parse_u16_spec(s: Seq<char>) -> Option<u16> {
    let d = sign_stripped(s);
    if d.len() > 0 && (forall|i: int| 0 <= i < d.len() ==> is_digit(#[trigger] d[i])) && digits_value(d)
        <= u16::MAX {
        Some(digits_value(d) as u16)
    } else {
        None
    }
}

proof fn lemma_digits_prefix(d: Seq<char>, k: int)
    requires
        0 <= k <= d.len(),
    ensures
        digits_value(d.subrange(0, k)) <= digits_value(d),
    decreases d.len() - k,
{
    if k < d.len() {
        let a = digits_value(d.subrange(0, k + 1).drop_last());
        assert(d.subrange(0, k + 1).drop_last() =~= d.subrange(0, k));
        assert(a * 10 + digit_value(d[k]) >= a) by (nonlinear_arith);
        lemma_digits_prefix(d, k + 1);
    } else {
        assert(d.subrange(0, k) =~= d);
    }
}

/// Parses a port number as `u16::from_str` does.
pub fn parse_u16(s: &str) -> (r: Option<u16>)
    ensures
        r == parse_u16_spec(s@),
{
    let v = chars_of(s);
    let start: usize = if v.len() > 0 && v[0] == '+' {
        1
    } else {
        0
    };
    let ghost d = sign_stripped(s@);
    assert(d =~= v@.subrange(start as int, v@.len() as int));
    if start == v.len() {
        return None;
    }
    let mut value: u32 = 0;
    let mut i: usize = start;
    while i < v.len()
        invariant
            v@ == s@,
            start <= i <= v@.len(),
            d =~= v@.subrange(start as int, v@.len() as int),
            d == sign_stripped(s@),
            forall|k: int| 0 <= k < i - start ==> is_digit(#[trigger] d[k]),
            value == digits_value(d.subrange(0, i - start)),
            value <= u16::MAX,
        decreases v@.len() - i,
    {
        let c = v[i];
        if !('0' <= c && c <= '9') {
            proof {
                let j = i - start;
                assert(!is_digit(d[j]));
                assert(!(forall|q: int| 0 <= q < d.len() ==> is_digit(#[trigger] d[q])));
            }
            return None;
        }
        let ghost prev = value;
        proof {
            assert(d.subrange(0, i + 1 - start).drop_last() =~= d.subrange(0, i - start));
            assert(d.subrange(0, i + 1 - start).last() == c);
            assert(digit_value(c) == (c as u32 - '0' as u32));
        }
        value = value * 10 + (c as u32 - '0' as u32);
        i += 1;
        assert(value == digits_value(d.subrange(0, i - start)));
        if value > 65535 {
            proof {
                lemma_digits_prefix(d, i - start);
                assert(digits_value(d) > u16::MAX);
            }
            return None;
        }
    }
    proof {
        assert(d.subrange(0, d.len() as int) =~= d);
    }
    Some(value as u16)
}

/// The handler types with an implementation or a known meaning.
pub open spec fn known_handler_type(t: Seq<char>) -> bool {
    t == "php"@ || t == "python"@ || t == "node"@ || t == "static"@ || t == "proxy"@
}

/// The index of the first `:` at or after `i`, or -1.
pub open spec fn first_colon(s: Seq<char>, i: int) -> int
    decreases s.len() - i,
{
    if i < 0 || i >= s.len() {
        -1
    } else if s[i] == ':' {
        i
    } else {
        first_colon(s, i + 1)
    }
}

/// The messages `validate` reports for the `IP:PORT` setting, given
/// whether the text before the colon parses as an IP address.
pub open spec fn address_errors(a: Seq<char>, host_is_ip: bool) -> Seq<Seq<char>> {
    let k = first_colon(a, 0);
    if blank(a) {
        Seq::empty()
    } else if k < 0 {
        seq!["IP and port must be in format 'IP:PORT'"@]
    } else {
        let host = a.subrange(0, k);
        let port = a.subrange(k + 1, a.len() as int);
        if port.contains(':') {
            seq!["IP and port must be in format 'IP:PORT'"@]
        } else {
            message_if(host.contains('.') && !host_is_ip, "Invalid IP address '"@ + a + "': "@ + host)
                + match parse_u16_spec(port) {
                Some(p) => message_if(p == 0, "Port cannot be 0"@),
                None => seq!["Invalid port in '"@ + a + "': "@ + port],
            }
        }
    }
}

/// The message for file pattern `i`: empty, or not starting with `.` or
/// `*`.
pub open spec fn file_pattern_errors(i: int, p: Seq<char>) -> Seq<Seq<char>> {
    if blank(p) {
        seq![numbered_text("File match pattern "@, i, " cannot be empty"@)]
    } else if !"."@.is_prefix_of(p) && !"*"@.is_prefix_of(p) {
        seq!["File match pattern '"@ + p + "' should start with '.' or '*'"@]
    } else {
        Seq::empty()
    }
}

/// The messages for key/value pair `i`: blank key, blank value, and (for
/// environment variables) a key that is not an identifier.
pub open spec fn pair_errors(i: int, key: Seq<char>, value: Seq<char>, env: bool) -> Seq<Seq<char>> {
    message_if(
        blank(key),
        if env {
            numbered_text("Environment variable key "@, i, " cannot be empty"@)
        } else {
            numbered_text("Extra handler config key "@, i, " cannot be empty"@)
        },
    ) + message_if(
        blank(value),
        if env {
            numbered_text("Environment variable value "@, i, " cannot be empty"@)
        } else {
            numbered_text("Extra handler config value "@, i, " cannot be empty"@)
        },
    ) + message_if(
        env && !word_chars(key, false),
        "Environment variable key '"@ + key + "' can only contain alphanumeric characters and underscores"@,
    )
}

/// The messages of the first `k` pairs, in order.
pub open spec fn pairs_errors(v: Seq<(String, String)>, k: int, env: bool) -> Seq<Seq<char>>
    decreases k,
{
    if k <= 0 {
        Seq::empty()
    } else {
        pairs_errors(v, k - 1, env) + pair_errors(k - 1, v[k - 1].0@, v[k - 1].1@, env)
    }
}

/// The messages about the id, the name and the type.
pub open spec fn identity_errors(h: RequestHandler) -> Seq<Seq<char>> {
    (if blank(h.id@) {
        seq!["Request handler ID cannot be empty"@]
    } else {
        message_if(
            !word_chars(h.id@, true),
            "Request handler ID can only contain alphanumeric characters, underscores, and hyphens"@,
        )
    }) + message_if(blank(h.name@), "Request handler name cannot be empty"@) + (if blank(
        h.handler_type@,
    ) {
        seq!["Handler type cannot be empty"@]
    } else {
        message_if(
            !known_handler_type(trim_ws(h.handler_type@)),
            "Unknown handler type '"@ + h.handler_type@
                + "'. Valid types are: php, python, node, static, proxy"@,
        )
    })
}

/// The messages about the timeout and the worker count.
pub open spec fn limit_errors(h: RequestHandler) -> Seq<Seq<char>> {
    (if h.request_timeout == 0 {
        seq!["Request timeout cannot be 0 seconds"@]
    } else {
        message_if(h.request_timeout > 3600, "Request timeout cannot exceed 3600 seconds (1 hour)"@)
    }) + message_if(h.concurrent_threads > 1000, "Max concurrent threads cannot exceed 1000"@)
}

/// The messages about the file patterns and the executable.
pub open spec fn match_errors(h: RequestHandler) -> Seq<Seq<char>> {
    (if h.file_match@.len() == 0 {
        seq!["File match patterns cannot be empty"@]
    } else {
        flat_errors(h.file_match@, h.file_match@.len() as int, |i: int, p: Seq<char>| file_pattern_errors(i, p))
    }) + message_if(blank(h.executable@), "Executable path cannot be empty"@)
}

/// The messages `RequestHandler::validate` reports, in order.
pub open spec fn handler_errors(h: RequestHandler, host_is_ip: bool) -> Seq<Seq<char>> {
    identity_errors(h) + limit_errors(h) + match_errors(h) + address_errors(h.ip_and_port@, host_is_ip)
        + pairs_errors(h.extra_handler_config@, h.extra_handler_config@.len() as int, false)
        + pairs_errors(h.extra_environment@, h.extra_environment@.len() as int, true)
}

/// `a`, `b`, `c` and `d` one after the other.
fn message4(a: &str, b: &str, c: &str, d: &str) -> (r: String)
    ensures
        r@ == a@ + b@ + c@ + d@,
{
    let mut m = quoted_message(a, b, c);
    m.append(d);
    m
}

fn validate_pairs(errors: &mut Vec<String>, v: &Vec<(String, String)>, env: bool)
    ensures
        strings_view(final(errors)@) == strings_view(old(errors)@) + pairs_errors(v@, v@.len() as int, env),
{
    let mut i: usize = 0;
    while i < v.len()
        invariant
            i <= v@.len(),
            strings_view(errors@) == strings_view(old(errors)@) + pairs_errors(v@, i as int, env),
        decreases v@.len() - i,
    {
        let ghost before = strings_view(errors@);
        let key = v[i].0.as_str();
        let value = v[i].1.as_str();
        if trim(key).unicode_len() == 0 {
            errors.push(
                if env {
                    numbered_message("Environment variable key ", i, " cannot be empty")
                } else {
                    numbered_message("Extra handler config key ", i, " cannot be empty")
                },
            );
        }
        let ghost s1 = strings_view(errors@);
        if trim(value).unicode_len() == 0 {
            errors.push(
                if env {
                    numbered_message("Environment variable value ", i, " cannot be empty")
                } else {
                    numbered_message("Extra handler config value ", i, " cannot be empty")
                },
            );
        }
        let ghost s2 = strings_view(errors@);
        if env && !word_chars_exec(key, false) {
            errors.push(
                quoted_message(
                    "Environment variable key '",
                    key,
                    "' can only contain alphanumeric characters and underscores",
                ),
            );
        }
        proof {
            let k = v@[i as int].0@;
            let val = v@[i as int].1@;
            assert(s1 =~= before + message_if(
                blank(k),
                if env {
                    numbered_text("Environment variable key "@, i as int, " cannot be empty"@)
                } else {
                    numbered_text("Extra handler config key "@, i as int, " cannot be empty"@)
                },
            ));
            assert(s2 =~= s1 + message_if(
                blank(val),
                if env {
                    numbered_text("Environment variable value "@, i as int, " cannot be empty"@)
                } else {
                    numbered_text("Extra handler config value "@, i as int, " cannot be empty"@)
                },
            ));
            assert(strings_view(errors@) =~= before + pair_errors(i as int, k, val, env));
        }
        i += 1;
    }
}

fn validate_address(errors: &mut Vec<String>, a: &str, host_is_ip: bool)
    ensures
        strings_view(final(errors)@) == strings_view(old(errors)@) + address_errors(a@, host_is_ip),
{
    let ghost before = strings_view(errors@);
    if trim(a).unicode_len() == 0 {
        assert(before + address_errors(a@, host_is_ip) =~= before);
        return;
    }
    let v = chars_of(a);
    let mut k: usize = 0;
    while k < v.len() && v[k] != ':'
        invariant
            v@ == a@,
            k <= v@.len(),
            first_colon(a@, 0) == first_colon(a@, k as int),
        decreases v@.len() - k,
    {
        k += 1;
    }
    if k == v.len() {
        errors.push(String::from_str("IP and port must be in format 'IP:PORT'"));
        assert(strings_view(errors@) =~= before + address_errors(a@, host_is_ip));
        return;
    }
    let host = string_of_range(&v, 0, k);
    let port = string_of_range(&v, k + 1, v.len());
    if crate::text::contains_char(&chars_of(port.as_str()), ':') {
        errors.push(String::from_str("IP and port must be in format 'IP:PORT'"));
        assert(strings_view(errors@) =~= before + address_errors(a@, host_is_ip));
        return;
    }
    if crate::text::contains_char(&chars_of(host.as_str()), '.') && !host_is_ip {
        errors.push(message4("Invalid IP address '", a, "': ", host.as_str()));
    }
    let ghost s1 = strings_view(errors@);
    assert(s1 =~= before + message_if(host@.contains('.') && !host_is_ip, "Invalid IP address '"@ + a@ + "': "@ + host@));
    match parse_u16(port.as_str()) {
        Some(p) => {
            if p == 0 {
                errors.push(String::from_str("Port cannot be 0"));
            }
        },
        None => {
            errors.push(message4("Invalid port in '", a, "': ", port.as_str()));
        },
    }
    assert(strings_view(errors@) =~= before + address_errors(a@, host_is_ip));
}

fn validate_identity(errors: &mut Vec<String>, h: &RequestHandler)
    ensures
        strings_view(final(errors)@) == strings_view(old(errors)@) + identity_errors(*h),
{
    let ghost s0 = strings_view(errors@);
    if trim(h.id.as_str()).unicode_len() == 0 {
        errors.push(String::from_str("Request handler ID cannot be empty"));
    } else if !word_chars_exec(h.id.as_str(), true) {
        errors.push(
            String::from_str(
                "Request handler ID can only contain alphanumeric characters, underscores, and hyphens",
            ),
        );
    }
    let ghost s1 = strings_view(errors@);
    assert(s1 =~= s0 + (if blank(h.id@) {
        seq!["Request handler ID cannot be empty"@]
    } else {
        message_if(
            !word_chars(h.id@, true),
            "Request handler ID can only contain alphanumeric characters, underscores, and hyphens"@,
        )
    }));
    if trim(h.name.as_str()).unicode_len() == 0 {
        errors.push(String::from_str("Request handler name cannot be empty"));
    }
    let ghost s2 = strings_view(errors@);
    assert(s2 =~= s1 + message_if(blank(h.name@), "Request handler name cannot be empty"@));
    let t = trim(h.handler_type.as_str());
    if t.unicode_len() == 0 {
        errors.push(String::from_str("Handler type cannot be empty"));
    } else if !(str_eq(t.as_str(), "php") || str_eq(t.as_str(), "python") || str_eq(t.as_str(), "node")
        || str_eq(t.as_str(), "static") || str_eq(t.as_str(), "proxy")) {
        errors.push(
            quoted_message(
                "Unknown handler type '",
                h.handler_type.as_str(),
                "'. Valid types are: php, python, node, static, proxy",
            ),
        );
    }
    assert(strings_view(errors@) =~= s0 + identity_errors(*h));
}

fn validate_limits(errors: &mut Vec<String>, h: &RequestHandler)
    ensures
        strings_view(final(errors)@) == strings_view(old(errors)@) + limit_errors(*h),
{
    let ghost s0 = strings_view(errors@);
    if h.request_timeout == 0 {
        errors.push(String::from_str("Request timeout cannot be 0 seconds"));
    } else if h.request_timeout > 3600 {
        errors.push(String::from_str("Request timeout cannot exceed 3600 seconds (1 hour)"));
    }
    let ghost s1 = strings_view(errors@);
    assert(s1 =~= s0 + (if h.request_timeout == 0 {
        seq!["Request timeout cannot be 0 seconds"@]
    } else {
        message_if(h.request_timeout > 3600, "Request timeout cannot exceed 3600 seconds (1 hour)"@)
    }));
    if h.concurrent_threads > 1000 {
        errors.push(String::from_str("Max concurrent threads cannot exceed 1000"));
    }
    assert(strings_view(errors@) =~= s0 + limit_errors(*h));
}

fn validate_matches(errors: &mut Vec<String>, h: &RequestHandler)
    ensures
        strings_view(final(errors)@) == strings_view(old(errors)@) + match_errors(*h),
{
    let ghost s5 = strings_view(errors@);
    if h.file_match.len() == 0 {
        errors.push(String::from_str("File match patterns cannot be empty"));
    } else {
        let mut i: usize = 0;
        while i < h.file_match.len()
            invariant
                i <= h.file_match@.len(),
                strings_view(errors@) == s5 + flat_errors(
                    h.file_match@,
                    i as int,
                    |i: int, p: Seq<char>| file_pattern_errors(i, p),
                ),
            decreases h.file_match@.len() - i,
        {
            let ghost before = strings_view(errors@);
            let pattern = h.file_match[i].as_str();
            if trim(pattern).unicode_len() == 0 {
                errors.push(numbered_message("File match pattern ", i, " cannot be empty"));
            } else if !str_starts_with(pattern, ".") && !str_starts_with(pattern, "*") {
                errors.push(quoted_message("File match pattern '", pattern, "' should start with '.' or '*'"));
            }
            proof {
                assert(strings_view(errors@) =~= before + file_pattern_errors(i as int, h.file_match@[i as int]@));
                assert(s5 + flat_errors(h.file_match@, i + 1, |i: int, p: Seq<char>| file_pattern_errors(i, p))
                    =~= before + file_pattern_errors(i as int, h.file_match@[i as int]@));
            }
            i += 1;
        }
    }
    let ghost s6 = strings_view(errors@);
    assert(s6 =~= s5 + (if h.file_match@.len() == 0 {
        seq!["File match patterns cannot be empty"@]
    } else {
        flat_errors(h.file_match@, h.file_match@.len() as int, |i: int, p: Seq<char>| file_pattern_errors(i, p))
    }));
    if trim(h.executable.as_str()).unicode_len() == 0 {
        errors.push(String::from_str("Executable path cannot be empty"));
    }
    assert(strings_view(errors@) =~= s6 + message_if(blank(h.executable@), "Executable path cannot be empty"@));
    assert(strings_view(errors@) =~= s5 + match_errors(*h));
}

impl RequestHandler {
    /// Checks the handler; `host_is_ip` tells whether the text before the
    /// colon of `ip_and_port` parses as an IP address (it is consulted only
    /// when that text holds a dot). On failure, one message per problem.
    pub fn validate(&self, host_is_ip: bool) -> (r: Result<(), Vec<String>>)
        ensures
            r is Ok <==> handler_errors(*self, host_is_ip).len() == 0,
            match r {
                Ok(_) => true,
                Err(errors) => strings_view(errors@) == handler_errors(*self, host_is_ip),
            },
    {
        let mut errors: Vec<String> = Vec::new();
        validate_identity(&mut errors, self);
        validate_limits(&mut errors, self);
        validate_matches(&mut errors, self);
        validate_address(&mut errors, self.ip_and_port.as_str(), host_is_ip);
        validate_pairs(&mut errors, &self.extra_handler_config, false);
        validate_pairs(&mut errors, &self.extra_environment, true);
        proof {
            assert(strings_view(errors@) =~= handler_errors(*self, host_is_ip));
        }
        if errors.len() == 0 {
            Ok(())
        } else {
            Err(errors)
        }
    }
}

} // verus!
