//! Character-level helpers: collecting a string's characters, decoding raw
//! name bytes, and trimming surrounding whitespace from dictionary lines.

use vstd::prelude::*;

verus! {

/// Names the result of `char::is_whitespace`: whether a character counts as
/// whitespace depends on the character alone.
pub uninterp spec fn is_space_char(c: char) -> bool;

/// Relies on `char::is_whitespace` to decide which characters are trimmed
/// away from a dictionary line.
#[verifier::external_body]
fn space_char(c: char) -> (r: bool)
    ensures
        r == is_space_char(c),
{
    c.is_whitespace()
}

/// Relies on `core::str::from_utf8`: it succeeds exactly on valid UTF-8 and
/// yields the decoded characters.
#[verifier::external_body]
pub(crate) fn decode_name(bytes: &[u8]) -> (r: Option<Vec<char>>)
    ensures
        r is Some <==> vstd::utf8::valid_utf8(bytes@),
        r matches Some(cs) ==> cs@ == vstd::utf8::decode_utf8(bytes@),
{
    core::str::from_utf8(bytes).ok().map(|s| s.chars().collect())
}

/// The characters of a string, as a vector.
pub fn chars_of(s: &str) -> (r: Vec<char>)
    ensures
        r@ == s@,
{
    let n = s.unicode_len();
    let mut r: Vec<char> = Vec::new();
    let mut i: usize = 0;
    while i < n
        invariant
            n == s@.len(),
            i <= n,
            r@ == s@.take(i as int),
        decreases n - i,
    {
        r.push(s.get_char(i));
        proof {
            assert(r@ =~= s@.take(i + 1));
        }
        i = i + 1;
    }
    proof {
        assert(r@ =~= s@);
    }
    r
}

/// The sequence with its leading whitespace removed.
pub open spec fn drop_leading_spaces(s: Seq<char>) -> Seq<char>
    decreases s.len(),
{
    if s.len() > 0 && is_space_char(s[0]) {
        drop_leading_spaces(s.drop_first())
    } else {
        s
    }
}

/// The sequence with its trailing whitespace removed.
pub open spec fn drop_trailing_spaces(s: Seq<char>) -> Seq<char>
    decreases s.len(),
{
    if s.len() > 0 && is_space_char(s.last()) {
        drop_trailing_spaces(s.drop_last())
    } else {
        s
    }
}

/// The sequence with both leading and trailing whitespace removed, as
/// `str::trim` leaves a line.
pub open spec fn trimmed(s: Seq<char>) -> Seq<char> {
    drop_trailing_spaces(drop_leading_spaces(s))
}

/// Removes leading and trailing whitespace characters.
pub fn trim_chars(s: &Vec<char>) -> (r: Vec<char>)
    ensures
        r@ == trimmed(s@),
{
    let len = s.len();
    proof {
        assert(s@.subrange(0, len as int) =~= s@);
    }
    let mut start: usize = 0;
    while start < len && space_char(s[start])
        invariant
            len == s@.len(),
            start <= len,
            drop_leading_spaces(s@) == drop_leading_spaces(s@.subrange(start as int, len as int)),
        decreases len - start,
    {
        proof {
            assert(s@.subrange(start as int, len as int).drop_first() =~= s@.subrange(
                start + 1,
                len as int,
            ));
        }
        start = start + 1;
    }
    proof {
        assert(drop_leading_spaces(s@) == s@.subrange(start as int, len as int));
    }
    let mut end: usize = len;
    while end > start && space_char(s[end - 1])
        invariant
            len == s@.len(),
            start <= end <= len,
            trimmed(s@) == drop_trailing_spaces(s@.subrange(start as int, end as int)),
        decreases end,
    {
        proof {
            assert(s@.subrange(start as int, end as int).drop_last() =~= s@.subrange(
                start as int,
                end - 1,
            ));
        }
        end = end - 1;
    }
    proof {
        assert(trimmed(s@) == s@.subrange(start as int, end as int));
    }
    let mut r: Vec<char> = Vec::new();
    let mut i: usize = start;
    while i < end
        invariant
            len == s@.len(),
            start <= i <= end <= len,
            r@ == s@.subrange(start as int, i as int),
        decreases end - i,
    {
        r.push(s[i]);
        proof {
            assert(r@ =~= s@.subrange(start as int, i + 1));
        }
        i = i + 1;
    }
    proof {
        assert(r@ =~= s@.subrange(start as int, end as int));
    }
    r
}

} // verus!
