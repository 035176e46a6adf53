//! Live properties of RFC 4918 that a listing reads.

use vstd::prelude::*;

pub mod resourcetype;

use super::value::{value_model, Value, ValueModel};
use super::{Element, FromValue, XmlError};
use crate::text::chars_of;

verus! {

pub open spec fn is_digit(c: char) -> bool {
    '0' <= c <= '9'
}

/// The number the decimal digits `s` spell.
pub open spec fn digits_value(s: Seq<char>) -> nat
    decreases s.len(),
{
    if s.len() == 0 {
        0
    } else {
        digits_value(s.drop_last()) * 10 + (s.last() as nat - 48) as nat
    }
}

/// The digits of an unsigned decimal: `s` without a leading `+`.
pub open spec fn unsigned_digits(s: Seq<char>) -> Seq<char> {
    if s.len() > 0 && s[0] == '+' {
        s.drop_first()
    } else {
        s
    }
}

/// The `u64` an unsigned decimal spells, as `u64::from_str` reads it: an
/// optional `+` and at least one digit, within range.
pub open spec fn spec_parse_u64(s: Seq<char>) -> Option<u64> {
    let d = unsigned_digits(s);
    if d.len() > 0 && (forall|i: int| 0 <= i < d.len() ==> is_digit(#[trigger] d[i]))
        && digits_value(d) <= u64::MAX {
        Some(digits_value(d) as u64)
    } else {
        None
    }
}

proof fn lemma_digits_value_grows(s: Seq<char>, i: int)
    requires
        0 <= i <= s.len(),
        forall|j: int| 0 <= j < s.len() ==> is_digit(#[trigger] s[j]),
    ensures
        digits_value(s) >= digits_value(s.take(i)),
    decreases s.len() - i,
{
    if i < s.len() {
        lemma_digits_value_grows(s, i + 1);
        let t = s.take(i + 1);
        assert(t.drop_last() == s.take(i));
        assert(is_digit(s[i]));
        assert(digits_value(t) == digits_value(s.take(i)) * 10 + (t.last() as nat - 48) as nat);
        assert(digits_value(t) >= digits_value(s.take(i))) by (nonlinear_arith)
            requires
                digits_value(t) == digits_value(s.take(i)) * 10 + (t.last() as nat - 48) as nat,
        ;
    } else {
        assert(s.take(i) == s);
    }
}

/// Reads an unsigned decimal number as `u64::from_str` does.
pub fn parse_u64(s: &str) -> (r: Option<u64>)
    ensures
        r == spec_parse_u64(s@),
{
    let chars = chars_of(s);
    let start: usize = if chars.len() > 0 && chars[0] == '+' {
        1
    } else {
        0
    };
    let ghost d = unsigned_digits(s@);
    assert(d == chars@.skip(start as int));
    if start == chars.len() {
        assert(d.len() == 0);
        return None;
    }
    let mut value: u64 = 0;
    let mut i = start;
    while i < chars.len()
        invariant
            start <= i <= chars@.len(),
            start < chars@.len(),
            d == chars@.skip(start as int),
            d == unsigned_digits(s@),
            forall|j: int| 0 <= j < i - start ==> is_digit(#[trigger] d[j]),
            value == digits_value(d.take(i - start)),
        decreases chars@.len() - i,
    {
        let c = chars[i];
        let ghost k = i - start;
        assert(d[k] == c);
        if !('0' <= c && c <= '9') {
            assert(!is_digit(d[k]));
            assert(!(forall|i: int| 0 <= i < d.len() ==> is_digit(#[trigger] d[i])));
            return None;
        }
        let digit = (c as u32 - 48) as u64;
        let ghost t = d.take(k + 1);
        assert(t.drop_last() == d.take(k));
        assert(t.last() == c);
        assert(c as nat - 48 == digit);
        assert(digits_value(t) == value * 10 + digit);
        if value > (u64::MAX - digit) / 10 {
            proof {
                assert(value * 10 + digit > u64::MAX) by (nonlinear_arith)
                    requires
                        value > (u64::MAX - digit) / 10,
                        digit <= 9,
                ;
                if forall|j: int| 0 <= j < d.len() ==> is_digit(#[trigger] d[j]) {
                    lemma_digits_value_grows(d, k + 1);
                }
            }
            return None;
        }
        proof {
            assert(value * 10 + digit <= u64::MAX) by (nonlinear_arith)
                requires
                    value <= (u64::MAX - digit) / 10,
                    digit <= 9,
            ;
        }
        value = value * 10 + digit;
        i = i + 1;
    }
    assert(d.take(d.len() as int) == d);
    Some(value)
}

/// The `getcontentlength` property: the length of a resource in bytes.
#[derive(Clone, Copy, Debug, PartialEq, Eq)]
pub struct ContentLength(pub u64);

impl Element for ContentLength {
    open spec fn spec_local_name() -> Seq<char> {
        "getcontentlength"@
    }

    fn local_name() -> (name: String) {
        "getcontentlength".to_owned()
    }
}

impl FromValue for ContentLength {
    type Model = u64;

    open spec fn model(&self) -> u64 {
        self.0
    }

    /// A text holding an unsigned decimal number.
    open spec fn spec_from_value(value: ValueModel) -> Result<u64, XmlError> {
        match value {
            ValueModel::Text(s) => match spec_parse_u64(s) {
                Some(n) => Ok(n),
                None => Err(XmlError::InvalidElement),
            },
            _ => Err(XmlError::InvalidValueType),
        }
    }

    fn from_value(value: &Value) -> (r: Result<Self, XmlError>) {
        match value {
            Value::Text(s) => match parse_u64(s.as_str()) {
                Some(n) => Ok(ContentLength(n)),
                None => Err(XmlError::InvalidElement),
            },
            _ => Err(XmlError::InvalidValueType),
        }
    }
}

/// The `creationdate` property: an RFC 3339 date and time.
#[derive(Clone, Copy, Debug, PartialEq, Eq)]
pub struct CreationDate {
    /// Seconds since the Unix epoch.
    pub unix_timestamp: i64,
    /// The sub-second part, in nanoseconds.
    pub nanosecond: u32,
    /// The offset from UTC of the written time, in seconds.
    pub offset_seconds: i32,
}

/// The instant an RFC 3339 date and time denotes, as `time` reads it, or
/// `None` when `text` is not one.
pub uninterp spec fn rfc3339_date(text: Seq<char>) -> Option<CreationDate>;

/// `time::OffsetDateTime::parse` with the `Rfc3339` format, read back as
/// the Unix timestamp, the nanosecond and the UTC offset of the result. The
/// result depends on `text` alone; which texts are dates is not stated.
#[verifier::external_body]
fn parse_rfc3339(text: &str) -> (r: Option<CreationDate>)
    ensures
        r == rfc3339_date(text@),
{
    match time::OffsetDateTime::parse(text, &time::format_description::well_known::Rfc3339) {
        Ok(d) => Some(CreationDate {
            unix_timestamp: d.unix_timestamp(),
            nanosecond: d.nanosecond(),
            offset_seconds: d.offset().whole_seconds(),
        }),
        Err(_) => None,
    }
}

impl Element for CreationDate {
    open spec fn spec_local_name() -> Seq<char> {
        "creationdate"@
    }

    fn local_name() -> (name: String) {
        "creationdate".to_owned()
    }
}

impl FromValue for CreationDate {
    type Model = CreationDate;

    open spec fn model(&self) -> CreationDate {
        *self
    }

    /// A text holding an RFC 3339 date and time.
    open spec fn spec_from_value(value: ValueModel) -> Result<CreationDate, XmlError> {
        match value {
            ValueModel::Text(s) => match rfc3339_date(s) {
                Some(d) => Ok(d),
                None => Err(XmlError::InvalidElement),
            },
            _ => Err(XmlError::InvalidValueType),
        }
    }

    fn from_value(value: &Value) -> (r: Result<Self, XmlError>) {
        match value {
            Value::Text(s) => match parse_rfc3339(s.as_str()) {
                Some(d) => Ok(d),
                None => Err(XmlError::InvalidElement),
            },
            _ => Err(XmlError::InvalidValueType),
        }
    }
}

/// The `getlastmodified` property: an HTTP date, in seconds since the Unix
/// epoch.
#[derive(Clone, Copy, Debug, PartialEq, Eq)]
pub struct LastModified(pub u64);

/// The seconds since the Unix epoch of an HTTP date, as `httpdate` reads
/// it, or `None` when `text` is not one.
pub uninterp spec fn http_date_secs(text: Seq<char>) -> Option<u64>;

/// `httpdate::parse_http_date`, read back as the whole seconds since the
/// Unix epoch of the result (an HTTP date is never before it). The result
/// depends on `text` alone; which texts are dates is not stated.
#[verifier::external_body]
fn parse_http_date(text: &str) -> (r: Option<u64>)
    ensures
        r == http_date_secs(text@),
{
    match httpdate::parse_http_date(text) {
        Ok(t) => t.duration_since(std::time::UNIX_EPOCH).ok().map(|d| d.as_secs()),
        Err(_) => None,
    }
}

impl Element for LastModified {
    open spec fn spec_local_name() -> Seq<char> {
        "getlastmodified"@
    }

    fn local_name() -> (name: String) {
        "getlastmodified".to_owned()
    }
}

impl FromValue for LastModified {
    type Model = u64;

    open spec fn model(&self) -> u64 {
        self.0
    }

    /// A text holding an HTTP date.
    open spec fn spec_from_value(value: ValueModel) -> Result<u64, XmlError> {
        match value {
            ValueModel::Text(s) => match http_date_secs(s) {
                Some(d) => Ok(d),
                None => Err(XmlError::InvalidElement),
            },
            _ => Err(XmlError::InvalidValueType),
        }
    }

    fn from_value(value: &Value) -> (r: Result<Self, XmlError>) {
        match value {
            Value::Text(s) => match parse_http_date(s.as_str()) {
                Some(d) => Ok(LastModified(d)),
                None => Err(XmlError::InvalidElement),
            },
            _ => Err(XmlError::InvalidValueType),
        }
    }
}

} // verus!
