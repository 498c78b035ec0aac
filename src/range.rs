use vstd::prelude::*;

use crate::errors::{ApiError, ErrorKind};
use crate::text::{find_char, first_index, parse_u64, parse_u64_spec, starts_with, trim, trimmed};

verus! {

/// An inclusive window `start..=end` of byte offsets into a file.
#[derive(Debug, Clone, Copy, PartialEq, Eq, Structural)]
pub struct ByteRange {
    pub start: u64,
    pub end: u64,
}

impl ByteRange {
    /// Number of bytes in the window.
    pub fn len(self) -> (r: u64)
        requires
            self.start <= self.end,
            self.end - self.start < u64::MAX,
        ensures
            r == self.end - self.start + 1,
    {
        self.end - self.start + 1
    }
}

/// The text that a single-range header must begin with.
pub open spec fn bytes_unit_prefix() -> Seq<char> {
    seq!['b', 'y', 't', 'e', 's', '=']
}

/// The window `bytes=-n` selects in a file of `size` bytes: the last `n` bytes, or the whole
/// file where `n` exceeds its size.
pub open spec fn suffix_window(n: u64, size: u64) -> Option<(u64, u64)> {
    if n == 0 {
        None
    } else if n >= size {
        Some((0u64, (size - 1) as u64))
    } else {
        Some(((size - n) as u64, (size - 1) as u64))
    }
}

/// The window `bytes=s-e` (or `bytes=s-`, with `e` absent) selects in a file of `size` bytes.
pub open spec fn start_window(start: u64, end_text: Seq<char>, size: u64) -> Option<(u64, u64)> {
    if start >= size {
        None
    } else {
        let end: Option<u64> = if end_text.len() == 0 {
            Some((size - 1) as u64)
        } else {
            match parse_u64_spec(end_text) {
                Some(m) => Some(
                    if m >= size {
                        (size - 1) as u64
                    } else {
                        m
                    },
                ),
                None => None,
            }
        };
        match end {
            Some(e) => if e < start {
                None
            } else {
                Some((start, e))
            },
            None => None,
        }
    }
}

/// The window that a `Range` header selects in a file of `size` bytes, or `None` where the
/// header is malformed, names several ranges, or cannot be satisfied.
pub open spec fn range_spec(header: Seq<char>, size: u64) -> Option<(u64, u64)> {
    let raw = trimmed(header);
    if size == 0 || raw.len() < 6 || raw.take(6) != bytes_unit_prefix() {
        None
    } else {
        let r = raw.skip(6);
        let k = first_index(r, '-');
        if first_index(r, ',') != -1 || k == -1 {
            None
        } else {
            let start_text = r.take(k);
            let end_text = r.skip(k + 1);
            if start_text.len() == 0 {
                match parse_u64_spec(end_text) {
                    Some(n) => suffix_window(n, size),
                    None => None,
                }
            } else {
                match parse_u64_spec(start_text) {
                    Some(s) => start_window(s, end_text, size),
                    None => None,
                }
            }
        }
    }
}

/// Parses a single `bytes=` range against a file of `file_size` bytes.
pub fn parse_range_header(raw_header: &str, file_size: u64) -> (r: Result<ByteRange, ApiError>)
    ensures
        match range_spec(raw_header@, file_size) {
            Some((s, e)) => r matches Ok(b) && b.start == s && b.end == e,
            None => r matches Err(err) && err.kind == ErrorKind::InvalidRange,
        },
        r matches Ok(b) ==> b.start <= b.end < file_size,
{
    if file_size == 0 {
        return Err(
            ApiError::invalid_range(
                String::from_str("Range request cannot be satisfied for an empty file."),
            ),
        );
    }
    let raw = trim(raw_header);
    let prefix = "bytes=";
    proof {
        reveal_strlit("bytes=");
    }
    assert(prefix@ =~= bytes_unit_prefix());
    if !starts_with(raw, prefix) {
        return Err(ApiError::invalid_range(String::from_str("Only bytes ranges are supported.")));
    }
    let raw_range = raw.substring_char(6, raw.unicode_len());
    assert(raw_range@ =~= raw@.skip(6));
    if find_char(raw_range, ',').is_some() {
        return Err(ApiError::invalid_range(String::from_str("Multiple ranges are not supported.")));
    }
    let dash = match find_char(raw_range, '-') {
        Some(k) => k,
        None => {
            return Err(ApiError::invalid_range(String::from_str("Malformed Range header.")));
        },
    };
    let n = raw_range.unicode_len();
    let start_part = raw_range.substring_char(0, dash);
    let end_part = raw_range.substring_char(dash + 1, n);
    assert(start_part@ =~= raw_range@.take(dash as int));
    assert(end_part@ =~= raw_range@.skip(dash + 1));

    if start_part.unicode_len() == 0 {
        let suffix_len = match parse_u64(end_part) {
            Some(v) => v,
            None => {
                return Err(
                    ApiError::invalid_range(String::from_str("Malformed suffix byte range.")),
                );
            },
        };
        if suffix_len == 0 {
            return Err(
                ApiError::invalid_range(
                    String::from_str("Suffix byte range must be greater than zero."),
                ),
            );
        }
        let read_len = if suffix_len < file_size {
            suffix_len
        } else {
            file_size
        };
        let start = file_size - read_len;
        let end = file_size - 1;
        return Ok(ByteRange { start, end });
    }
    let start = match parse_u64(start_part) {
        Some(v) => v,
        None => {
            return Err(ApiError::invalid_range(String::from_str("Malformed start byte range.")));
        },
    };
    if start >= file_size {
        return Err(
            ApiError::invalid_range(String::from_str("Range start is beyond end of file.")),
        );
    }
    let mut end = if end_part.unicode_len() == 0 {
        file_size - 1
    } else {
        match parse_u64(end_part) {
            Some(v) => v,
            None => {
                return Err(ApiError::invalid_range(String::from_str("Malformed end byte range.")));
            },
        }
    };
    if end >= file_size {
        end = file_size - 1;
    }
    if end < start {
        return Err(
            ApiError::invalid_range(
                String::from_str("Range end cannot be smaller than range start."),
            ),
        );
    }
    Ok(ByteRange { start, end })
}

} // verus!
