//! The host and the port that a relay listens on or a client dials.

use crate::error::ChatError;
use crate::text::chars_of;
use vstd::prelude::*;

verus! {

/// Whether `c` is one of the decimal digits `0` to `9`.
pub open spec fn is_digit(c: char) -> bool {
    '0' <= c <= '9'
}

/// The number that a decimal digit stands for.
pub open spec fn digit_value(c: char) -> nat
    recommends
        is_digit(c),
{
    (c as u32 - '0' as u32) as nat
}

/// The number that a run of decimal digits stands for.
pub open spec fn decimal_value(digits: Seq<char>) -> nat
    decreases digits.len(),
{
    if digits.len() == 0 {
        0
    } else {
        10 * decimal_value(digits.drop_last()) + digit_value(digits.last())
    }
}

/// `text` without the plus sign that it may start with.
pub open spec fn unsigned_part(text: Seq<char>) -> Seq<char> {
    if text.len() > 0 && text[0] == '+' {
        text.drop_first()
    } else {
        text
    }
}

/// Whether `text` is a port number: an optional plus sign, then one decimal
/// digit or more, which together stand for a number below 65536. Zeros in
/// front do not count.
pub open spec fn is_port_number(text: Seq<char>) -> bool {
    let digits = unsigned_part(text);
    &&& digits.len() > 0
    &&& forall|i: int| 0 <= i < digits.len() ==> is_digit(#[trigger] digits[i])
    &&& decimal_value(digits) <= u16::MAX
}

/// The port that is taken where none is given.
pub open spec fn default_port() -> Seq<char> {
    "11111"@
}

/// What becomes of a port as it was typed in: an empty one stands for the
/// default, a port number is kept as it is, and anything else is refused.
pub open spec fn port_verdict(port: Seq<char>) -> Result<Seq<char>, ChatError> {
    if port.len() == 0 {
        Ok(default_port())
    } else if is_port_number(port) {
        Ok(port)
    } else {
        Err(ChatError::InvalidPort)
    }
}

/// A run of digits stands for at least as much as any of its prefixes.
proof fn lemma_decimal_value_grows(digits: Seq<char>, upto: int)
    requires
        0 <= upto <= digits.len(),
    ensures
        decimal_value(digits.subrange(0, upto)) <= decimal_value(digits),
    decreases digits.len(),
{
    if upto == digits.len() {
        assert(digits.subrange(0, upto) =~= digits);
    } else {
        assert(digits.drop_last().subrange(0, upto) =~= digits.subrange(0, upto));
        lemma_decimal_value_grows(digits.drop_last(), upto);
    }
}

/// Whether the characters from `start` on are a port number's digits.
fn digits_below_65536(chars: &Vec<char>, start: usize) -> (accepted: bool)
    requires
        start <= chars.len(),
    ensures
        accepted <==> {
            let digits = chars@.subrange(start as int, chars@.len() as int);
            &&& digits.len() > 0
            &&& forall|i: int| 0 <= i < digits.len() ==> is_digit(#[trigger] digits[i])
            &&& decimal_value(digits) <= u16::MAX
        },
{
    let ghost digits = chars@.subrange(start as int, chars@.len() as int);
    if start == chars.len() {
        return false;
    }
    let mut value: u32 = 0;
    let mut at: usize = start;
    while at < chars.len()
        invariant
            start <= at <= chars.len(),
            digits == chars@.subrange(start as int, chars@.len() as int),
            forall|i: int| 0 <= i < at - start ==> is_digit(#[trigger] digits[i]),
            value == decimal_value(digits.subrange(0, at - start)),
            value <= u16::MAX,
        decreases chars.len() - at,
    {
        let c = chars[at];
        if !('0' <= c && c <= '9') {
            assert(!is_digit(digits[at - start]));
            return false;
        }
        let digit: u32 = c as u32 - '0' as u32;
        proof {
            let longer = digits.subrange(0, at - start + 1);
            assert(longer.drop_last() =~= digits.subrange(0, at - start));
            assert(longer.last() == c);
            assert(decimal_value(longer) == 10 * value + digit);
            lemma_decimal_value_grows(digits, at - start + 1);
        }
        value = 10 * value + digit;
        if value > 0xFFFF {
            return false;
        }
        at = at + 1;
    }
    assert(digits.subrange(0, at - start) =~= digits);
    true
}

/// Checks a port as it was typed in: an empty one is replaced by the default
/// port, a port number is handed back unchanged, anything else is refused.
pub fn validate_port(port: &str) -> (checked: Result<String, ChatError>)
    ensures
        match port_verdict(port@) {
            Ok(text) => checked is Ok && checked->Ok_0@ == text,
            Err(error) => checked == Err::<String, ChatError>(error),
        },
{
    let chars = chars_of(port);
    if chars.len() == 0 {
        return Ok("11111".to_owned());
    }
    let start: usize = if chars[0] == '+' {
        1
    } else {
        0
    };
    assert(chars@.subrange(start as int, chars@.len() as int) =~= unsigned_part(port@));
    if digits_below_65536(&chars, start) {
        Ok(port.to_owned())
    } else {
        Err(ChatError::InvalidPort)
    }
}

/// The pattern that a host has to match: four groups of one to three decimal
/// digits with a dot between them, no group above 255.
pub const HOST_PATTERN: &'static str =
    "^(?:(?:25[0-5]|2[0-4][0-9]|[01]?[0-9][0-9]?)\\.){3}(?:25[0-5]|2[0-4][0-9]|[01]?[0-9][0-9]?)$";

/// The host that is taken where none is given.
pub open spec fn default_host() -> Seq<char> {
    "127.0.0.1"@
}

/// `regex::Error`, why `regex` refused a pattern. Nothing is looked at inside
/// it.
#[verifier::external_type_specification]
#[verifier::external_body]
pub struct ExRegexError(regex::Error);

/// Whether `regex::Regex::new` accepts `pattern`.
pub uninterp spec fn regex_compiles(pattern: Seq<char>) -> bool;

/// Whether the regular expression that `regex::Regex::new` makes of `pattern`
/// matches somewhere in `haystack`, as `regex::Regex::is_match` tells.
pub uninterp spec fn regex_is_match(pattern: Seq<char>, haystack: Seq<char>) -> bool;

/// `regex::Regex::new` on `pattern`, then `regex::Regex::is_match` on
/// `haystack`. The pattern is compiled with the crate's default limits, so both
/// answers depend on the two strings alone. Nothing is claimed of which
/// patterns compile or what they match.
#[verifier::external_body]
fn pattern_matches(pattern: &str, haystack: &str) -> (found: Result<bool, regex::Error>)
    ensures
        found is Ok <==> regex_compiles(pattern@),
        found is Ok ==> found->Ok_0 == regex_is_match(pattern@, haystack@),
{
    match regex::Regex::new(pattern) {
        Ok(compiled) => Ok(compiled.is_match(haystack)),
        Err(error) => Err(error),
    }
}

/// What becomes of a host as it was typed in, given what holding it against
/// the host pattern said: `None` where the pattern did not compile, else
/// whether it matched. A host that matches is kept as it is, an empty one
/// stands for the default, and anything else is refused.
pub open spec fn host_verdict(host: Seq<char>, matched: Option<bool>) -> Result<
    Seq<char>,
    ChatError,
> {
    match matched {
        None => Err(ChatError::InvalidPattern),
        Some(true) => Ok(host),
        Some(false) => if host.len() == 0 {
            Ok(default_host())
        } else {
            Err(ChatError::InvalidHost)
        },
    }
}

/// What holding `host` against the host pattern says.
pub open spec fn host_pattern_match(host: Seq<char>) -> Option<bool> {
    if regex_compiles(HOST_PATTERN@) {
        Some(regex_is_match(HOST_PATTERN@, host))
    } else {
        None
    }
}

/// Decides on a host once it has been held against the host pattern.
pub fn host_from_match(host: &str, matched: Option<bool>) -> (checked: Result<String, ChatError>)
    ensures
        match host_verdict(host@, matched) {
            Ok(text) => checked is Ok && checked->Ok_0@ == text,
            Err(error) => checked == Err::<String, ChatError>(error),
        },
{
    match matched {
        None => Err(ChatError::InvalidPattern),
        Some(true) => Ok(host.to_owned()),
        Some(false) => {
            if host.is_empty() {
                Ok("127.0.0.1".to_owned())
            } else {
                Err(ChatError::InvalidHost)
            }
        },
    }
}

/// Checks a host as it was typed in: a dotted IPv4 address, as the host
/// pattern describes it, is handed back unchanged, an empty host is replaced by
/// the default host, anything else is refused.
pub fn validate_host(host: &str) -> (checked: Result<String, ChatError>)
    ensures
        match host_verdict(host@, host_pattern_match(host@)) {
            Ok(text) => checked is Ok && checked->Ok_0@ == text,
            Err(error) => checked == Err::<String, ChatError>(error),
        },
{
    let matched = match pattern_matches(HOST_PATTERN, host) {
        Ok(matched) => Some(matched),
        Err(_) => None,
    };
    host_from_match(host, matched)
}

} // verus!
