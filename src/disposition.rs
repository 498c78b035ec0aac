use vstd::prelude::*;
use vstd::utf8::encode_utf8;

use crate::text::{is_white_space, is_white_space_char, push_char, trim, trimmed};

verus! {

/// Whether `c` is kept as it is in the quoted ASCII fallback name.
pub open spec fn fallback_keeps(c: char) -> bool {
    let u = c as u32;
    u < 128 && !(u <= 0x1F || u == 0x7F) && c != '"' && c != '\\'
}

/// The character that stands for `c` in the ASCII fallback name.
pub open spec fn fallback_char(c: char) -> char {
    if fallback_keeps(c) {
        c
    } else if is_white_space(c) {
        ' '
    } else {
        '_'
    }
}

/// The ASCII-safe form of a file name: unsafe characters replaced, white space kept as a
/// plain space, trimmed, and `file` where nothing is left.
pub open spec fn ascii_fallback(name: Seq<char>) -> Seq<char> {
    let t = trimmed(name.map_values(|c: char| fallback_char(c)));
    if t.len() == 0 {
        seq!['f', 'i', 'l', 'e']
    } else {
        t
    }
}

pub fn ascii_filename_fallback(raw_name: &str) -> (r: String)
    ensures
        r@ == ascii_fallback(raw_name@),
{
    let n = raw_name.unicode_len();
    let mut out = String::new();
    let mut i: usize = 0;
    while i < n
        invariant
            n == raw_name@.len(),
            i <= n,
            out@ =~= raw_name@.take(i as int).map_values(|c: char| fallback_char(c)),
        decreases n - i,
    {
        let ch = raw_name.get_char(i);
        let u = ch as u32;
        let mapped = if u < 128 && !(u <= 0x1F || u == 0x7F) && ch != '"' && ch != '\\' {
            ch
        } else if is_white_space_char(ch) {
            ' '
        } else {
            '_'
        };
        push_char(&mut out, mapped);
        assert(raw_name@.take(i + 1) =~= raw_name@.take(i as int).push(ch));
        i = i + 1;
    }
    assert(raw_name@.take(n as int) =~= raw_name@);
    let trimmed_out = trim(out.as_str());
    if trimmed_out.unicode_len() == 0 {
        proof {
            reveal_strlit("file");
        }
        let r = String::from_str("file");
        assert(r@ =~= seq!['f', 'i', 'l', 'e']);
        r
    } else {
        String::from_str(trimmed_out)
    }
}

/// How `c` is written inside a quoted string.
pub open spec fn quoted_char(c: char) -> Seq<char> {
    if c == '\\' {
        seq!['\\', '\\']
    } else if c == '"' {
        seq!['\\', '"']
    } else {
        seq![c]
    }
}

/// `s` with each backslash and double quote escaped by a backslash.
pub open spec fn quoted(s: Seq<char>) -> Seq<char>
    decreases s.len(),
{
    if s.len() == 0 {
        seq![]
    } else {
        quoted(s.drop_last()) + quoted_char(s.last())
    }
}

pub fn escape_quoted_string(value: &str) -> (r: String)
    ensures
        r@ == quoted(value@),
{
    let n = value.unicode_len();
    let mut out = String::new();
    let mut i: usize = 0;
    while i < n
        invariant
            n == value@.len(),
            i <= n,
            out@ == quoted(value@.take(i as int)),
        decreases n - i,
    {
        let ch = value.get_char(i);
        if ch == '\\' || ch == '"' {
            push_char(&mut out, '\\');
        }
        push_char(&mut out, ch);
        assert(value@.take(i + 1).drop_last() =~= value@.take(i as int));
        assert(out@ =~= quoted(value@.take(i + 1)));
        i = i + 1;
    }
    assert(value@.take(n as int) =~= value@);
    out
}

/// The bytes that RFC 5987 allows unescaped in an extended parameter value.
pub open spec fn attr_byte(b: u8) -> bool {
    (48 <= b && b <= 57) || (65 <= b && b <= 90) || (97 <= b && b <= 122) || b == 33 || b == 35
        || b == 36 || b == 38 || b == 43 || b == 45 || b == 46 || b == 94 || b == 95 || b == 96
        || b == 124 || b == 126
}

pub fn is_rfc5987_attr_char(byte: u8) -> (r: bool)
    ensures
        r == attr_byte(byte),
{
    (48u8 <= byte && byte <= 57u8) || (65u8 <= byte && byte <= 90u8) || (97u8 <= byte && byte
        <= 122u8) || byte == 33u8 || byte == 35u8 || byte == 36u8 || byte == 38u8 || byte == 43u8
        || byte == 45u8 || byte == 46u8 || byte == 94u8 || byte == 95u8 || byte == 96u8 || byte
        == 124u8 || byte == 126u8
}

/// The upper-case hexadecimal digit for `nibble`, or `0` where it is out of range.
pub open spec fn hex_upper(nibble: u8) -> char {
    if nibble < 10 {
        ((48 + nibble) as u8) as char
    } else if nibble < 16 {
        ((55 + nibble) as u8) as char
    } else {
        '0'
    }
}

pub fn to_hex_upper(nibble: u8) -> (r: char)
    ensures
        r == hex_upper(nibble),
{
    if nibble < 10 {
        (48u8 + nibble) as char
    } else if nibble < 16 {
        (65u8 + (nibble - 10)) as char
    } else {
        '0'
    }
}

/// How one byte is written in a percent-encoded value.
pub open spec fn encoded_byte(b: u8) -> Seq<char> {
    if attr_byte(b) {
        seq![b as char]
    } else {
        seq!['%', hex_upper(b / 16), hex_upper(b % 16)]
    }
}

/// `bytes` percent-encoded byte by byte.
pub open spec fn percent_encoded(bytes: Seq<u8>) -> Seq<char>
    decreases bytes.len(),
{
    if bytes.len() == 0 {
        seq![]
    } else {
        percent_encoded(bytes.drop_last()) + encoded_byte(bytes.last())
    }
}

/// Percent-encodes the UTF-8 bytes of `value`.
pub fn rfc5987_encode(value: &str) -> (r: String)
    ensures
        r@ == percent_encoded(encode_utf8(value@)),
{
    let bytes = value.as_bytes();
    let n = bytes.len();
    let mut encoded = String::new();
    let mut i: usize = 0;
    while i < n
        invariant
            n == bytes@.len(),
            bytes@ == encode_utf8(value@),
            i <= n,
            encoded@ == percent_encoded(bytes@.take(i as int)),
        decreases n - i,
    {
        let byte = bytes[i];
        if is_rfc5987_attr_char(byte) {
            push_char(&mut encoded, byte as char);
        } else {
            push_char(&mut encoded, '%');
            push_char(&mut encoded, to_hex_upper(byte / 16));
            push_char(&mut encoded, to_hex_upper(byte % 16));
        }
        assert(bytes@.take(i + 1).drop_last() =~= bytes@.take(i as int));
        assert(encoded@ =~= percent_encoded(bytes@.take(i + 1)));
        i = i + 1;
    }
    assert(bytes@.take(n as int) =~= bytes@);
    encoded
}

/// The `Content-Disposition` value for a file called `name`: a quoted ASCII fallback and the
/// percent-encoded UTF-8 form.
pub open spec fn disposition_for(name: Seq<char>) -> Seq<char> {
    "inline; filename=\""@ + quoted(ascii_fallback(name)) + "\"; filename*=UTF-8''"@
        + percent_encoded(encode_utf8(name))
}

/// Builds the `Content-Disposition` value for a file called `name`.
pub fn content_disposition_for_name(name: &str) -> (r: String)
    ensures
        r@ == disposition_for(name@),
{
    let fallback = ascii_filename_fallback(name);
    let escaped_fallback = escape_quoted_string(fallback.as_str());
    let encoded = rfc5987_encode(name);
    let mut out = String::from_str("inline; filename=\"");
    out.append(escaped_fallback.as_str());
    out.append("\"; filename*=UTF-8''");
    out.append(encoded.as_str());
    out
}

/// The last component of a path, as `Path::file_name` gives it.
pub uninterp spec fn file_name_of(path: Seq<char>) -> Option<Seq<char>>;

/// Relies on `std::path::Path::file_name`: the final normal component of the path, if any.
#[verifier::external_body]
pub(crate) fn path_file_name(path: &str) -> (r: Option<String>)
    ensures
        match r {
            Some(s) => file_name_of(path@) == Some(s@),
            None => file_name_of(path@) is None,
        },
{
    match std::path::Path::new(path).file_name() {
        Some(name) => Some(name.to_string_lossy().to_string()),
        None => None,
    }
}

/// The name that the header of a file at `path` carries: its last component, or `file`.
pub open spec fn served_name(path: Seq<char>) -> Seq<char> {
    match file_name_of(path) {
        Some(n) => n,
        None => seq!['f', 'i', 'l', 'e'],
    }
}

/// Builds the `Content-Disposition` value for the file at `path`.
pub fn content_disposition_inline(path: &str) -> (r: String)
    ensures
        r@ == disposition_for(served_name(path@)),
{
    match path_file_name(path) {
        Some(name) => content_disposition_for_name(name.as_str()),
        None => {
            proof {
                reveal_strlit("file");
            }
            assert("file"@ =~= seq!['f', 'i', 'l', 'e']);
            content_disposition_for_name("file")
        },
    }
}

} // verus!
