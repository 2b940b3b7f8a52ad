//! Sanitization of user-supplied text before it becomes part of a filename.
//!
//! The transform is a closed substitution table over single characters:
//! quote, backtick, comma and space are stripped, `:` becomes `-`, `&`
//! becomes `And`, `|` becomes `Or`, and a fixed set of accented vowels is
//! replaced by its unaccented equivalent. Characters outside the table pass
//! through unchanged.

use vstd::prelude::*;

verus! {

use crate::text::push_char;

/// What one character of the input contributes to the sanitized output.
pub open spec fn sanitize_char(c: char) -> Seq<char> {
    if c == '\'' || c == '`' || c == ',' || c == ' ' {
        seq![]
    } else if c == ':' {
        seq!['-']
    } else if c == '&' {
        seq!['A', 'n', 'd']
    } else if c == '|' {
        seq!['O', 'r']
    } else if c == '\u{e1}' {
        seq!['a']
    } else if c == '\u{e9}' {
        seq!['e']
    } else if c == '\u{ed}' {
        seq!['i']
    } else if c == '\u{f3}' {
        seq!['o']
    } else if c == '\u{fa}' || c == '\u{fb}' {
        seq!['u']
    } else {
        seq![c]
    }
}

/// The sanitized form of a whole text: each character replaced by its table
/// entry, in order.
pub open spec fn sanitized(s: Seq<char>) -> Seq<char>
    decreases s.len(),
{
    if s.len() == 0 {
        seq![]
    } else {
        sanitized(s.drop_last()) + sanitize_char(s.last())
    }
}

/// Replace the characters of `text` that would conflict with its use in a
/// filename, per the substitution table.
pub fn format_text_for_fs(text: &String) -> (r: String)
    ensures
        r@ == sanitized(text@),
{
    let s: &str = text.as_str();
    let n: usize = s.unicode_len();
    let mut out = String::new();
    let mut i: usize = 0;
    while i < n
        invariant
            n == s@.len(),
            i <= n,
            out@ == sanitized(s@.subrange(0, i as int)),
        decreases n - i,
    {
        let c = s.get_char(i);
        match c {
            '\'' | '`' | ',' | ' ' => {},
            ':' => push_char(&mut out, '-'),
            '&' => {
                push_char(&mut out, 'A');
                push_char(&mut out, 'n');
                push_char(&mut out, 'd');
            },
            '|' => {
                push_char(&mut out, 'O');
                push_char(&mut out, 'r');
            },
            '\u{e1}' => push_char(&mut out, 'a'),
            '\u{e9}' => push_char(&mut out, 'e'),
            '\u{ed}' => push_char(&mut out, 'i'),
            '\u{f3}' => push_char(&mut out, 'o'),
            '\u{fa}' | '\u{fb}' => push_char(&mut out, 'u'),
            _ => push_char(&mut out, c),
        }
        proof {
            let pre = s@.subrange(0, i as int);
            assert(s@.subrange(0, i + 1).drop_last() =~= pre);
            assert(s@.subrange(0, i + 1).last() == c);
        }
        i = i + 1;
    }
    proof {
        assert(s@.subrange(0, n as int) =~= s@);
    }
    out
}

} // verus!
