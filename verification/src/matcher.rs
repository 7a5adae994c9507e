//! The name matcher: a byte-level regular-expression phase followed, on
//! failure, by a position-wise fuzzy scan driven by the equivalence table.

use vstd::prelude::*;

use crate::table::EquivalenceTable;
use crate::text::chars_of;
use crate::text::decode_name;

verus! {

/// Names the result of `regex::bytes::Regex::new`: whether a pattern
/// compiles depends on the pattern's characters alone.
pub uninterp spec fn regex_compiles(q: Seq<char>) -> bool;

/// Names the result of `regex::bytes::Regex::is_match`: whether the compiled
/// pattern matches depends on the pattern's characters and the haystack's
/// bytes alone.
pub uninterp spec fn regex_match(q: Seq<char>, hay: Seq<u8>) -> bool;

/// Relies on `regex::bytes::Regex::new` and `regex::bytes::Regex::is_match`:
/// compilation fails exactly on invalid patterns (or ones over the default
/// size limit), both deterministic in the pattern; an empty pattern is valid
/// and matches the empty string at every position, hence every haystack.
#[verifier::external_body]
fn regex_is_match(query: &str, hay: &[u8]) -> (r: Option<bool>)
    ensures
        r is Some <==> regex_compiles(query@),
        r matches Some(b) ==> b == regex_match(query@, hay@),
        query@.len() == 0 ==> r == Some(true),
{
    match regex::bytes::Regex::new(query) {
        Ok(re) => Some(re.is_match(hay)),
        Err(_) => None,
    }
}

/// Whether query character `qc` is acceptable at a position holding haystack
/// character `hc`: either the characters are identical, or the table lets
/// `hc` stand in for `qc`.  The direction is asymmetric: the table is indexed
/// by the haystack character and yields acceptable query characters.
pub open spec fn char_ok(t: Map<char, Seq<char>>, qc: char, hc: char) -> bool {
    qc == hc || (t.contains_key(hc) && t[hc].contains(qc))
}

/// Whether the window of `h` starting at `i` accepts the whole query `q`,
/// position by position.
pub open spec fn window_match(t: Map<char, Seq<char>>, q: Seq<char>, h: Seq<char>, i: int) -> bool {
    forall|j: int| 0 <= j < q.len() ==> char_ok(t, q[j], h[i + j])
}

/// Whether some window of `h` of the query's length accepts the query: the
/// sliding-window substring scan.  No window exists when the query is longer
/// than the haystack.
pub open spec fn fuzzy_match(t: Map<char, Seq<char>>, q: Seq<char>, h: Seq<char>) -> bool {
    exists|i: int| 0 <= i <= h.len() - q.len() && window_match(t, q, h, i)
}

/// What the two-phase matcher decides for a name's raw bytes: the regex
/// phase on the bytes, or — only for names that decode as text — the fuzzy
/// scan on the decoded characters.
pub open spec fn spec_matches(q: Seq<char>, name: Seq<u8>, t: Map<char, Seq<char>>) -> bool {
    regex_match(q, name) || (vstd::utf8::valid_utf8(name) && fuzzy_match(
        t,
        q,
        vstd::utf8::decode_utf8(name),
    ))
}

/// The sliding-window substring scan: whether some window of `haystack` of
/// the needle's length accepts `needle` position by position under `table`.
pub fn table_match(needle: Vec<char>, haystack: Vec<char>, table: &EquivalenceTable) -> (r: bool)
    ensures
        r == fuzzy_match(table@, needle@, haystack@),
{
    let needle_len = needle.len();
    let haystack_len = haystack.len();
    if needle_len > haystack_len {
        return false;
    }
    let mut i: usize = 0;
    while i <= haystack_len - needle_len
        invariant
            needle_len == needle@.len(),
            haystack_len == haystack@.len(),
            needle_len <= haystack_len,
            i <= haystack_len - needle_len + 1,
            forall|k: int| 0 <= k < i ==> !window_match(table@, needle@, haystack@, k),
        decreases haystack_len - needle_len + 1 - i,
    {
        let mut found = true;
        let mut j: usize = 0;
        while j < needle_len && found
            invariant
                needle_len == needle@.len(),
                haystack_len == haystack@.len(),
                needle_len <= haystack_len,
                i <= haystack_len - needle_len,
                j <= needle_len,
                found ==> forall|j2: int|
                    0 <= j2 < j ==> char_ok(table@, needle@[j2], haystack@[i + j2]),
                !found ==> !window_match(table@, needle@, haystack@, i as int),
            decreases needle_len - j + (if found {
                1int
            } else {
                0int
            }),
        {
            if haystack[i + j] == needle[j] {
                j = j + 1;
            } else if table.allows(haystack[i + j], needle[j]) {
                j = j + 1;
            } else {
                proof {
                    assert(!char_ok(table@, needle@[j as int], haystack@[i + j]));
                }
                found = false;
            }
        }
        if found {
            proof {
                assert(window_match(table@, needle@, haystack@, i as int));
            }
            return true;
        }
        i = i + 1;
    }
    proof {
        assert(forall|k: int|
            0 <= k <= haystack@.len() - needle@.len() ==> !window_match(
                table@,
                needle@,
                haystack@,
                k,
            ));
    }
    false
}

/// The two-phase matcher.  The regex phase tests the query against the
/// name's raw bytes; only if it does not match is the name decoded and the
/// fuzzy scan run on its characters.  `None` is returned exactly when the
/// query is not a valid regular expression — a fatal condition for the
/// caller.
pub fn name_matches(query: &String, name: &Vec<u8>, table: &EquivalenceTable) -> (r: Option<bool>)
    ensures
        r is Some <==> regex_compiles(query@),
        r matches Some(b) ==> b == spec_matches(query@, name@, table@),
        query@.len() == 0 ==> r == Some(true),
{
    match regex_is_match(query.as_str(), name.as_slice()) {
        None => None,
        Some(true) => Some(true),
        Some(false) => {
            match decode_name(name.as_slice()) {
                None => Some(false),
                Some(cs) => {
                    let qcs = chars_of(query.as_str());
                    Some(table_match(qcs, cs, table))
                },
            }
        },
    }
}

/// Whether the query is a valid regular expression.  Compilation does not
/// depend on any haystack, so probing with an empty one decides it.
pub fn query_ok(query: &String) -> (r: bool)
    ensures
        r == regex_compiles(query@),
{
    let empty: Vec<u8> = Vec::new();
    regex_is_match(query.as_str(), empty.as_slice()).is_some()
}

/// The regex phase short-circuits: whenever the byte-level regex match
/// succeeds, the matcher succeeds, whatever the table holds.
pub proof fn lemma_regex_phase_sufficient(q: Seq<char>, name: Seq<u8>, t: Map<char, Seq<char>>)
    requires
        regex_match(q, name),
    ensures
        spec_matches(q, name, t),
{
}

/// An empty query satisfies the fuzzy scan against every haystack: the empty
/// window at position 0 is trivially accepted.
pub proof fn lemma_empty_query_fuzzy(t: Map<char, Seq<char>>, h: Seq<char>)
    ensures
        fuzzy_match(t, Seq::<char>::empty(), h),
{
    assert(window_match(t, Seq::<char>::empty(), h, 0));
}

/// A query longer than the haystack never satisfies the fuzzy scan: no
/// window of the query's length exists.
pub proof fn lemma_longer_query_no_fuzzy(t: Map<char, Seq<char>>, q: Seq<char>, h: Seq<char>)
    requires
        q.len() > h.len(),
    ensures
        !fuzzy_match(t, q, h),
{
}

/// Equivalence is directional.  When the table lets haystack character `hc`
/// stand in for query character `qc`, a one-character name holding `hc`
/// passes the fuzzy scan against a one-character query holding `qc`; but a
/// name holding `qc` fails against a query holding `hc` unless the table
/// separately lets `qc` stand in for `hc`.
pub proof fn lemma_equivalence_directional(t: Map<char, Seq<char>>, hc: char, qc: char)
    requires
        t.contains_key(hc),
        t[hc].contains(qc),
        hc != qc,
        !(t.contains_key(qc) && t[qc].contains(hc)),
    ensures
        fuzzy_match(t, seq![qc], seq![hc]),
        !fuzzy_match(t, seq![hc], seq![qc]),
{
    assert(char_ok(t, seq![qc][0], seq![hc][0int + 0int]));
    assert(window_match(t, seq![qc], seq![hc], 0));
    assert(!char_ok(t, seq![hc][0], seq![qc][0]));
    assert forall|i: int| 0 <= i <= 0 implies !window_match(t, seq![hc], seq![qc], i) by {
        assert(!char_ok(t, seq![hc][0], seq![qc][i + 0]));
    }
}

} // verus!

