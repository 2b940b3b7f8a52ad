//! The naming and indexing convention for image files.
//!
//! An image filename ends in `{index}.{ext}`, where `index` is a one- or
//! two-digit disambiguation number. The index for the next image of a record
//! is one past the index parsed from the record's most recent image filename,
//! except that a record without images, or whose most recent filename uses
//! the legacy two-token markers `IMG_FRONT`/`IMG_BACK`, starts at 0.

use vstd::prelude::*;

verus! {

use crate::errors::StoreError;
use crate::text::{seq_contains, str_contains};

/// The extension of a path: the characters after the last `.`, provided that
/// dot lies inside the path's final component and is not its first
/// character. `None` when the path has no such extension.
pub open spec fn spec_extension(s: Seq<char>) -> Option<Seq<char>>
    decreases s.len(),
{
    if s.len() == 0 {
        None
    } else if s.last() == '/' {
        None
    } else if s.last() == '.' {
        if s.len() >= 2 && s[s.len() - 2] != '/' {
            Some(seq![])
        } else {
            None
        }
    } else {
        match spec_extension(s.drop_last()) {
            Some(e) => Some(e.push(s.last())),
            None => None,
        }
    }
}

/// Extending a path by characters that are neither `.` nor `/` extends its
/// extension by the same characters.
proof fn lemma_ext_suffix(s: Seq<char>, i: int)
    requires
        0 <= i <= s.len(),
        forall|j: int| i <= j < s.len() ==> s[j] != '.' && s[j] != '/',
    ensures
        spec_extension(s) == (match spec_extension(s.subrange(0, i)) {
            Some(e) => Some(e + s.subrange(i, s.len() as int)),
            None => None::<Seq<char>>,
        }),
    decreases s.len() - i,
{
    if i == s.len() {
        assert(s.subrange(0, i) =~= s);
        match spec_extension(s) {
            Some(e) => {
                assert(e + s.subrange(i, s.len() as int) =~= e);
            },
            None => {},
        }
    } else {
        let s0 = s.drop_last();
        assert(forall|j: int| i <= j < s0.len() ==> s0[j] != '.' && s0[j] != '/');
        lemma_ext_suffix(s0, i);
        assert(s0.subrange(0, i) =~= s.subrange(0, i));
        match spec_extension(s.subrange(0, i)) {
            Some(e) => {
                assert((e + s0.subrange(i, s0.len() as int)).push(s.last()) =~= e + s.subrange(
                    i,
                    s.len() as int,
                ));
            },
            None => {},
        }
    }
}

/// The position of the extension separator: the last `.` of the path, when
/// the path has an extension in the sense of [`spec_extension`].
fn find_ext_sep(s: &str) -> (r: Option<usize>)
    ensures
        r matches Some(p) ==> p < s@.len() && s@[p as int] == '.' && spec_extension(s@) == Some(
            s@.subrange(p + 1, s@.len() as int),
        ),
        r is None ==> spec_extension(s@) is None,
{
    let n = s.unicode_len();
    let mut i = n;
    while i > 0
        invariant
            n == s@.len(),
            i <= n,
            forall|j: int| i <= j < n ==> s@[j] != '.' && s@[j] != '/',
        decreases i,
    {
        let c = s.get_char(i - 1);
        if c == '.' {
            proof {
                lemma_ext_suffix(s@, i as int);
                assert(s@.subrange(0, i as int).last() == '.');
            }
            if i >= 2 {
                let prev = s.get_char(i - 2);
                if prev != '/' {
                    proof {
                        assert(s@.subrange(0, i as int)[i - 2] != '/');
                        assert(seq![] + s@.subrange(i as int, n as int) =~= s@.subrange(
                            i as int,
                            n as int,
                        ));
                    }
                    return Some(i - 1);
                }
                proof {
                    assert(s@.subrange(0, i as int)[i - 2] == '/');
                }
                return None;
            }
            return None;
        }
        if c == '/' {
            proof {
                lemma_ext_suffix(s@, i as int);
                assert(s@.subrange(0, i as int).last() == '/');
            }
            return None;
        }
        i = i - 1;
    }
    proof {
        lemma_ext_suffix(s@, 0);
        assert(s@.subrange(0, 0).len() == 0);
    }
    None
}

/// The extension of `name`, or an `IoError` when it cannot be determined.
pub fn file_extension(name: &str) -> (r: Result<String, StoreError>)
    ensures
        r matches Ok(e) ==> spec_extension(name@) == Some(e@),
        r matches Err(er) ==> spec_extension(name@) is None && er == StoreError::IoError,
{
    let n = name.unicode_len();
    match find_ext_sep(name) {
        Some(p) => {
            let e = name.substring_char(p + 1, n);
            Ok(e.to_owned())
        },
        None => Err(StoreError::IoError),
    }
}

/// Whether `c` is a decimal digit.
pub open spec fn is_digit_char(c: char) -> bool {
    '0' as int <= c as int <= '9' as int
}

/// The numeric value of a decimal digit.
pub open spec fn digit_value(c: char) -> int {
    c as int - '0' as int
}

/// The disambiguation index parsed from the end of a filename: the one or
/// two digits immediately before the extension separator. Two digits when
/// the character two places before the separator is a digit, one otherwise;
/// nothing when the filename has no extension, when fewer than two
/// characters precede the separator, or when the expected digits are not
/// digits.
pub open spec fn spec_parse_index(s: Seq<char>) -> Option<u8> {
    match spec_extension(s) {
        None => None,
        Some(e) => {
            let p = s.len() - e.len() - 1;
            if p < 2 {
                None
            } else if is_digit_char(s[p - 2]) {
                if is_digit_char(s[p - 1]) {
                    Some((10 * digit_value(s[p - 2]) + digit_value(s[p - 1])) as u8)
                } else {
                    None
                }
            } else if is_digit_char(s[p - 1]) {
                Some(digit_value(s[p - 1]) as u8)
            } else {
                None
            }
        },
    }
}

/// Parse the trailing index of a filename, per [`spec_parse_index`]. A
/// filename that carries no such index is malformed for this purpose.
pub fn parse_index_from_filename(filename: &str) -> (r: Result<u8, StoreError>)
    ensures
        r matches Ok(v) ==> spec_parse_index(filename@) == Some(v) && v <= 99,
        r matches Err(e) ==> spec_parse_index(filename@) is None && e
            == StoreError::DeserializationError,
{
    let n = filename.unicode_len();
    match find_ext_sep(filename) {
        None => Err(StoreError::DeserializationError),
        Some(p) => {
            proof {
                assert(filename@.subrange(p + 1, n as int).len() == n - p - 1);
            }
            if p < 2 {
                return Err(StoreError::DeserializationError);
            }
            let c2 = filename.get_char(p - 2);
            let c1 = filename.get_char(p - 1);
            let d2 = '0' <= c2 && c2 <= '9';
            let d1 = '0' <= c1 && c1 <= '9';
            if d2 {
                if d1 {
                    let v2 = (c2 as u32 - 48) as u8;
                    let v1 = (c1 as u32 - 48) as u8;
                    Ok(10 * v2 + v1)
                } else {
                    Err(StoreError::DeserializationError)
                }
            } else if d1 {
                let v1 = (c1 as u32 - 48) as u8;
                Ok(v1)
            } else {
                Err(StoreError::DeserializationError)
            }
        },
    }
}

/// The next disambiguation index for a new image of a record with the given
/// image list: 0 for a record without images or whose most recent filename
/// carries a legacy two-token marker, and one past the parsed index of the
/// most recent filename otherwise.
pub open spec fn spec_image_index(images: Seq<String>) -> Option<u8> {
    if images.len() == 0 {
        Some(0)
    } else if seq_contains(images.last()@, "IMG_FRONT"@) || seq_contains(
        images.last()@,
        "IMG_BACK"@,
    ) {
        Some(0)
    } else {
        match spec_parse_index(images.last()@) {
            Some(i) => Some((i + 1) as u8),
            None => None,
        }
    }
}

/// Compute the next disambiguation index for a new image of a record whose
/// current image filenames are `images`, per [`spec_image_index`].
pub fn compute_image_index(images: &Vec<String>) -> (r: Result<u8, StoreError>)
    ensures
        r matches Ok(v) ==> spec_image_index(images@) == Some(v),
        r matches Err(e) ==> spec_image_index(images@) is None && e
            == StoreError::DeserializationError,
{
    let n = images.len();
    if n == 0 {
        return Ok(0);
    }
    let last: &String = &images[n - 1];
    proof {
        assert(images@[n - 1] == images@.last());
    }
    if str_contains(last.as_str(), "IMG_FRONT") || str_contains(last.as_str(), "IMG_BACK") {
        return Ok(0);
    }
    match parse_index_from_filename(last.as_str()) {
        Ok(v) => Ok(v + 1),
        Err(e) => Err(e),
    }
}

} // verus!
