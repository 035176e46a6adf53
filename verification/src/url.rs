//! Resolution of absolute remote paths against the share's base URL.

use vstd::prelude::*;

use vstd::string::StringSliceAdditionalSpecFns;

use crate::error::ErrorKind;
use crate::text::{chars_of, push_char, string_of};

verus! {

/// Bytes that stand for themselves in an encoded URL path: ASCII letters
/// and digits, and `- . _ ~ ! $ & ' ( ) * + , ; = : @`.
pub open spec fn spec_is_path_byte(b: u8) -> bool {
    ||| 48 <= b <= 57
    ||| 65 <= b <= 90
    ||| 97 <= b <= 122
    ||| b == 45 || b == 46 || b == 95 || b == 126
    ||| b == 33 || b == 36 || b == 38 || b == 39 || b == 40 || b == 41
    ||| b == 42 || b == 43 || b == 44 || b == 59 || b == 61 || b == 58 || b == 64
}

/// The upper-case hexadecimal digit for `n < 16`.
pub open spec fn hex_digit(n: u8) -> char {
    if n < 10 {
        (48 + n) as char
    } else {
        (55 + n) as char
    }
}

/// The encoding of one byte of a path: `/` and path bytes are kept, every
/// other byte becomes `%` followed by two upper-case hexadecimal digits.
pub open spec fn encode_byte(b: u8) -> Seq<char> {
    if b == 47 || spec_is_path_byte(b) {
        seq![b as char]
    } else {
        seq!['%', hex_digit(b / 16), hex_digit(b % 16)]
    }
}

/// The percent-encoding of a byte sequence.
pub open spec fn encode_bytes(bytes: Seq<u8>) -> Seq<char>
    decreases bytes.len(),
{
    if bytes.len() == 0 {
        Seq::empty()
    } else {
        encode_byte(bytes[0]) + encode_bytes(bytes.drop_first())
    }
}

/// The value of an upper-case hexadecimal digit.
pub open spec fn hex_value(c: char) -> int {
    if '0' <= c <= '9' {
        c as int - 48
    } else {
        c as int - 55
    }
}

/// Percent-decoding of an encoded path.
pub open spec fn decode_chars(cs: Seq<char>) -> Seq<u8>
    decreases cs.len(),
{
    if cs.len() == 0 {
        Seq::empty()
    } else if cs[0] == '%' && cs.len() >= 3 {
        seq![(hex_value(cs[1]) * 16 + hex_value(cs[2])) as u8] + decode_chars(cs.skip(3))
    } else {
        seq![cs[0] as u8] + decode_chars(cs.skip(1))
    }
}

/// Whether a `.` or `..` segment starts at index `i` of `p`.
pub open spec fn is_dot_segment_at(p: Seq<char>, i: int) -> bool {
    &&& 0 <= i < p.len()
    &&& i == 0 || p[i - 1] == '/'
    &&& p[i] == '.'
    &&& {
        ||| i + 1 == p.len()
        ||| p[i + 1] == '/'
        ||| (i + 1 < p.len() && p[i + 1] == '.' && (i + 2 == p.len() || p[i + 2] == '/'))
    }
}

/// Whether one of the `/`-separated segments of `p` is `.` or `..`.
pub open spec fn has_dot_segment(p: Seq<char>) -> bool {
    exists|i: int| is_dot_segment_at(p, i)
}

/// Whether `p` starts with `/`.
pub open spec fn starts_with_slash(p: Seq<char>) -> bool {
    p.len() > 0 && p[0] == '/'
}

/// The remote paths a URL is built for: they start with `/` and hold no
/// `.` or `..` segment.
pub open spec fn is_valid_remote_path(p: Seq<char>) -> bool {
    starts_with_slash(p) && !has_dot_segment(p)
}

pub open spec fn is_separator(c: char) -> bool {
    c == '/' || c == '\\'
}

pub open spec fn is_ascii_alpha(c: char) -> bool {
    ('a' <= c <= 'z') || ('A' <= c <= 'Z')
}

/// A Windows drive root: a letter, `:` and a separator.
pub open spec fn is_drive_root(p: Seq<char>) -> bool {
    p.len() >= 3 && is_ascii_alpha(p[0]) && p[1] == ':' && is_separator(p[2])
}

/// The index of the first separator of `s`, or its length when it has none.
pub open spec fn first_separator(s: Seq<char>) -> nat
    decreases s.len(),
{
    if s.len() == 0 {
        0
    } else if is_separator(s[0]) {
        0
    } else {
        1 + first_separator(s.drop_first())
    }
}

/// A UNC root: `\\`, a server name other than `?` and `.`, a separator and
/// a non-empty share name.
pub open spec fn is_unc_root(p: Seq<char>) -> bool {
    p.len() >= 2 && p[0] == '\\' && p[1] == '\\' && {
        let rest = p.skip(2);
        let end = first_separator(rest) as int;
        let server = rest.take(end);
        &&& end > 0
        &&& server != seq!['?']
        &&& server != seq!['.']
        &&& end + 1 < rest.len()
        &&& !is_separator(rest[end + 1])
    }
}

/// The URL of a resource: the base, the encoded path, and for a collection
/// a trailing `/` when it has none yet.
pub open spec fn spec_resource_url(base: Seq<char>, path_bytes: Seq<u8>, collection: bool) -> Seq<
    char,
> {
    let joined = base + encode_bytes(path_bytes);
    if collection && !(joined.len() > 0 && joined.last() == '/') {
        joined.push('/')
    } else {
        joined
    }
}

/// `remotefs::path::ensure_absolute`: it accepts a path whose bytes start
/// with `/`, a Windows drive root or a UNC root, and refuses any other. For
/// a `str` these ASCII tests read the same on its characters as on its
/// UTF-8 bytes.
#[verifier::external_body]
fn path_is_absolute(path: &str) -> (absolute: bool)
    ensures
        absolute == (starts_with_slash(path@) || is_drive_root(path@) || is_unc_root(path@)),
{
    remotefs::path::ensure_absolute(std::path::Path::new(path)).is_ok()
}

proof fn lemma_hex_roundtrip(n: u8)
    requires
        n < 16,
    ensures
        hex_value(hex_digit(n)) == n,
        hex_digit(n) != '%',
{
}

/// Percent-decoding an encoded path gives back its bytes.
pub proof fn lemma_decode_encode(bytes: Seq<u8>)
    ensures
        decode_chars(encode_bytes(bytes)) == bytes,
    decreases bytes.len(),
{
    if bytes.len() > 0 {
        let b = bytes[0];
        let rest = encode_bytes(bytes.drop_first());
        lemma_decode_encode(bytes.drop_first());
        let e = encode_byte(b) + rest;
        assert(encode_bytes(bytes) == e);
        if b == 47 || spec_is_path_byte(b) {
            assert(e[0] == b as char);
            assert(e.skip(1) == rest);
        } else {
            lemma_hex_roundtrip(b / 16);
            lemma_hex_roundtrip(b % 16);
            assert(e.skip(3) == rest);
        }
        assert(bytes == seq![b] + bytes.drop_first());
    }
}

/// Distinct paths have distinct encodings: encoding never merges two
/// byte sequences.
pub proof fn lemma_encode_injective(a: Seq<u8>, b: Seq<u8>)
    requires
        encode_bytes(a) == encode_bytes(b),
    ensures
        a == b,
{
    lemma_decode_encode(a);
    lemma_decode_encode(b);
}

/// Whether a byte is escaped when a path is encoded: it is neither `/`
/// nor a path byte.
pub open spec fn is_escaped(b: u8) -> bool {
    !(b == 47 || spec_is_path_byte(b))
}

/// The number of bytes of `bytes` that are escaped.
pub open spec fn escaped_count(bytes: Seq<u8>) -> nat
    decreases bytes.len(),
{
    if bytes.len() == 0 {
        0
    } else {
        (if is_escaped(bytes[0]) {
            1nat
        } else {
            0nat
        }) + escaped_count(bytes.drop_first())
    }
}

/// An upper-case hexadecimal digit.
pub open spec fn is_upper_hex(c: char) -> bool {
    48 <= c as int <= 57 || 65 <= c as int <= 70
}

/// A character that a kept byte stands for: `/` or a path byte.
pub open spec fn is_kept_char(c: char) -> bool {
    c as int <= 255 && !is_escaped(c as int as u8)
}

/// The character at `i` of `s` is either a kept byte or a `%` followed by
/// two upper-case hexadecimal digits.
pub open spec fn is_encoded_at(s: Seq<char>, i: int) -> bool {
    if s[i] == '%' {
        i + 2 < s.len() && is_upper_hex(s[i + 1]) && is_upper_hex(s[i + 2])
    } else {
        is_kept_char(s[i])
    }
}

proof fn lemma_hex_digit_shape(n: u8)
    requires
        n < 16,
    ensures
        is_upper_hex(hex_digit(n)),
        is_kept_char(hex_digit(n)),
        hex_digit(n) != '%',
{
}

/// The shape of an encoded path: it is two characters longer than the
/// bytes for each escaped byte; each of its characters is a kept byte or
/// a `%` followed by two upper-case hexadecimal digits; and it is the
/// bytes themselves, each as a character, exactly when no byte is escaped.
pub proof fn lemma_encode_shape(bytes: Seq<u8>)
    ensures
        encode_bytes(bytes).len() == bytes.len() + 2 * escaped_count(bytes),
        forall|i: int|
            0 <= i < encode_bytes(bytes).len() ==> #[trigger] is_encoded_at(encode_bytes(bytes), i),
        (encode_bytes(bytes) == bytes.map_values(|b: u8| b as char)) <==> escaped_count(bytes) == 0,
    decreases bytes.len(),
{
    if bytes.len() == 0 {
        assert(bytes.map_values(|b: u8| b as char) =~= Seq::<char>::empty());
    } else {
        let b = bytes[0];
        let tail = bytes.drop_first();
        lemma_encode_shape(tail);
        let head = encode_byte(b);
        let rest = encode_bytes(tail);
        let e = head + rest;
        assert(encode_bytes(bytes) == e);
        if is_escaped(b) {
            lemma_hex_digit_shape(b / 16);
            lemma_hex_digit_shape(b % 16);
        }
        assert forall|i: int| 0 <= i < e.len() implies #[trigger] is_encoded_at(e, i) by {
            if i < head.len() {
                assert(e[i] == head[i]);
                if i + 2 < head.len() {
                    assert(e[i + 1] == head[i + 1]);
                    assert(e[i + 2] == head[i + 2]);
                }
            } else {
                let j = i - head.len();
                assert(is_encoded_at(rest, j));
                assert(e[i] == rest[j]);
                if j + 2 < rest.len() {
                    assert(e[i + 1] == rest[j + 1]);
                    assert(e[i + 2] == rest[j + 2]);
                }
            }
        }
        let mapped = bytes.map_values(|b: u8| b as char);
        assert(mapped =~= seq![b as char] + tail.map_values(|b: u8| b as char));
        if escaped_count(bytes) == 0 {
            assert(!is_escaped(b));
            assert(head == seq![b as char]);
        } else if e == mapped {
            assert(e.len() == mapped.len());
        }
    }
}

/// Only ASCII bytes are kept when a path is encoded: every byte of a
/// multi-byte character (`0x80` and above) is escaped, and an encoded path
/// holds ASCII characters only.
pub proof fn lemma_encoding_is_ascii(bytes: Seq<u8>)
    ensures
        forall|b: u8| #[trigger] spec_is_path_byte(b) ==> b < 128,
        forall|b: u8| 128 <= b ==> #[trigger] is_escaped(b),
        forall|i: int|
            0 <= i < encode_bytes(bytes).len() ==> ((#[trigger] encode_bytes(bytes)[i]) as int)
                < 128,
    decreases bytes.len(),
{
    if bytes.len() > 0 {
        lemma_encoding_is_ascii(bytes.drop_first());
        let b = bytes[0];
        let head = encode_byte(b);
        let rest = encode_bytes(bytes.drop_first());
        assert(encode_bytes(bytes) == head + rest);
        assert forall|i: int| 0 <= i < (head + rest).len() implies ((#[trigger] (head + rest)[i]) as int)
            < 128 by {
            if i < head.len() {
                assert((head + rest)[i] == head[i]);
            } else {
                assert((head + rest)[i] == rest[i - head.len()]);
            }
        }
    }
}

/// Whether `byte` may stand unescaped in a URL path.
pub fn is_path_byte(byte: u8) -> (r: bool)
    ensures
        r == spec_is_path_byte(byte),
{
    (48 <= byte && byte <= 57) || (65 <= byte && byte <= 90) || (97 <= byte && byte <= 122) || byte
        == 45 || byte == 46 || byte == 95 || byte == 126 || byte == 33 || byte == 36 || byte == 38
        || byte == 39 || byte == 40 || byte == 41 || byte == 42 || byte == 43 || byte == 44 || byte
        == 59 || byte == 61 || byte == 58 || byte == 64
}

fn hex_char(n: u8) -> (c: char)
    requires
        n < 16,
    ensures
        c == hex_digit(n),
{
    if n < 10 {
        (48 + n) as char
    } else {
        (55 + n) as char
    }
}

proof fn lemma_encode_append(a: Seq<u8>, b: Seq<u8>)
    ensures
        encode_bytes(a + b) == encode_bytes(a) + encode_bytes(b),
    decreases a.len(),
{
    if a.len() == 0 {
        assert(a + b == b);
    } else {
        assert((a + b).drop_first() == a.drop_first() + b);
        lemma_encode_append(a.drop_first(), b);
    }
}

proof fn lemma_encode_snoc(s: Seq<u8>, i: int)
    requires
        0 <= i < s.len(),
    ensures
        encode_bytes(s.take(i + 1)) == encode_bytes(s.take(i)) + encode_byte(s[i]),
{
    assert(s.take(i + 1) == s.take(i) + seq![s[i]]);
    lemma_encode_append(s.take(i), seq![s[i]]);
    let one = seq![s[i]];
    assert(one.drop_first() == Seq::<u8>::empty());
    assert(encode_bytes(one) == encode_byte(s[i]) + encode_bytes(Seq::<u8>::empty()));
    assert(encode_byte(s[i]) + Seq::<char>::empty() == encode_byte(s[i]));
}

fn encode_chars(bytes: &[u8]) -> (out: Vec<char>)
    ensures
        out@ == encode_bytes(bytes@),
{
    let mut out: Vec<char> = Vec::new();
    let n = bytes.len();
    for i in 0..n
        invariant
            n == bytes@.len(),
            out@ == encode_bytes(bytes@.take(i as int)),
    {
        let byte = bytes[i];
        proof {
            lemma_encode_snoc(bytes@, i as int);
        }
        if byte == 47 || is_path_byte(byte) {
            out.push(byte as char);
        } else {
            out.push('%');
            out.push(hex_char(byte / 16));
            out.push(hex_char(byte % 16));
        }
    }
    assert(bytes@.take(n as int) == bytes@);
    out
}

/// Percent-encodes the UTF-8 bytes of `path`, keeping `/` and path bytes.
pub fn encode_path(path: &str) -> (encoded: String)
    ensures
        encoded@ == encode_bytes(path.spec_bytes()),
{
    let chars = encode_chars(path.as_bytes());
    string_of(chars.as_slice())
}

/// Whether `path` holds a `.` or `..` segment.
fn has_dot_segments(path: &Vec<char>) -> (r: bool)
    ensures
        r == has_dot_segment(path@),
{
    let n = path.len();
    for i in 0..n
        invariant
            n == path@.len(),
            forall|j: int| 0 <= j < i ==> !is_dot_segment_at(path@, j),
    {
        let at_start = i == 0 || path[i - 1] == '/';
        if at_start && path[i] == '.' {
            if i + 1 == n || path[i + 1] == '/' {
                assert(is_dot_segment_at(path@, i as int));
                return true;
            }
            if path[i + 1] == '.' && (i + 2 == n || path[i + 2] == '/') {
                assert(is_dot_segment_at(path@, i as int));
                return true;
            }
        }
    }
    false
}

/// Resolves the absolute remote `path` against the share `base` URL.
///
/// `path` must start with `/` and hold no `.` or `..` segment; otherwise the
/// result is `InvalidPath`. Windows drive and UNC roots count as absolute
/// paths but have no HTTP form, so they are refused too. The path is
/// percent-encoded and appended to `base`; when `collection` is set the URL
/// always ends with `/`, which WebDAV requires for collections.
pub fn resource_url(base: &str, path: &str, collection: bool) -> (r: Result<String, ErrorKind>)
    ensures
        r is Err <==> !is_valid_remote_path(path@),
        r matches Err(kind) ==> kind == ErrorKind::InvalidPath,
        r matches Ok(url) ==> url@ == spec_resource_url(base@, path.spec_bytes(), collection),
{
    if !path_is_absolute(path) {
        return Err(ErrorKind::InvalidPath);
    }
    let path_chars = chars_of(path);
    if path_chars.len() == 0 || path_chars[0] != '/' {
        return Err(ErrorKind::InvalidPath);
    }
    if has_dot_segments(&path_chars) {
        return Err(ErrorKind::InvalidPath);
    }
    let mut url = chars_of(base);
    let mut encoded = encode_chars(path.as_bytes());
    url.append(&mut encoded);
    let n = url.len();
    if collection && !(n > 0 && url[n - 1] == '/') {
        url.push('/');
    }
    Ok(string_of(url.as_slice()))
}

} // verus!
