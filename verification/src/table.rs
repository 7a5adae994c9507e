//! The character-equivalence table: a mapping from a filename (haystack)
//! character to the set of query characters it may stand in for, together
//! with the parsing of the user dictionary that fills it.

use vstd::prelude::*;

use crate::text::chars_of;
use crate::text::trim_chars;
use crate::text::trimmed;

verus! {

/// One accumulating update of the table: the query character `q` becomes
/// acceptable wherever the haystack character `h` appears.
pub open spec fn table_insert(m: Map<char, Seq<char>>, h: char, q: char) -> Map<char, Seq<char>> {
    if m.contains_key(h) {
        m.insert(h, m[h].push(q))
    } else {
        m.insert(h, seq![q])
    }
}

/// The mapping that a sequence of (haystack, query) pairs accumulates to.
pub open spec fn pairs_map(ps: Seq<(char, char)>) -> Map<char, Seq<char>>
    decreases ps.len(),
{
    if ps.len() == 0 {
        Map::empty()
    } else {
        table_insert(pairs_map(ps.drop_last()), ps.last().0, ps.last().1)
    }
}

/// A user-defined mapping letting one filename character stand in for
/// another during fuzzy matching.  Built once before a traversal begins and
/// read-only afterwards.
#[derive(Debug)]
pub struct EquivalenceTable {
    pairs: Vec<(char, char)>,
}

impl View for EquivalenceTable {
    type V = Map<char, Seq<char>>;

    closed spec fn view(&self) -> Map<char, Seq<char>> {
        pairs_map(self.pairs@)
    }
}

impl EquivalenceTable {
    /// The empty table: matching degrades to the regex phase alone.
    pub fn new() -> (t: Self)
        ensures
            t@ == Map::<char, Seq<char>>::empty(),
    {
        EquivalenceTable { pairs: Vec::new() }
    }

    /// Records that the haystack character `h` may stand in for the query
    /// character `q`.  Duplicates accumulate, as repeated dictionary lines do.
    pub fn insert(&mut self, h: char, q: char)
        ensures
            final(self)@ == table_insert(old(self)@, h, q),
    {
        self.pairs.push((h, q));
        proof {
            assert(self.pairs@.drop_last() =~= old(self).pairs@);
        }
    }

    /// Whether the table lets haystack character `h` stand in for query
    /// character `q`.
    pub fn allows(&self, h: char, q: char) -> (r: bool)
        ensures
            r == (self@.contains_key(h) && self@[h].contains(q)),
    {
        proof {
            lemma_pairs_map_membership(self.pairs@, h, q);
        }
        let n = self.pairs.len();
        let mut i: usize = 0;
        while i < n
            invariant
                n == self.pairs@.len(),
                i <= n,
                forall|k: int| 0 <= k < i ==> self.pairs@[k] != (h, q),
            decreases n - i,
        {
            let (ph, pq) = self.pairs[i];
            if ph == h && pq == q {
                proof {
                    lemma_pairs_map_membership(self.pairs@, h, q);
                    assert(self.pairs@[i as int] == (h, q));
                    assert(self.pairs@.contains((h, q)));
                }
                return true;
            }
            i = i + 1;
        }
        proof {
            assert(!self.pairs@.contains((h, q)));
        }
        false
    }
}

/// A table holds the pair `(h, q)` exactly when some recorded pair equals it.
proof fn lemma_pairs_map_membership(ps: Seq<(char, char)>, h: char, q: char)
    ensures
        (pairs_map(ps).contains_key(h) && pairs_map(ps)[h].contains(q)) <==> ps.contains((h, q)),
    decreases ps.len(),
{
    if ps.len() == 0 {
        assert(!pairs_map(ps).contains_key(h));
    } else {
        let prefix = ps.drop_last();
        lemma_pairs_map_membership(prefix, h, q);
        let m = pairs_map(prefix);
        let lh = ps.last().0;
        let lq = ps.last().1;
        if lh == h && lq == q {
            assert(pairs_map(ps)[h].contains(q)) by {
                if m.contains_key(h) {
                    assert(pairs_map(ps)[h] == m[h].push(q));
                    assert(pairs_map(ps)[h][m[h].len() as int] == q);
                } else {
                    assert(pairs_map(ps)[h] == seq![q]);
                    assert(pairs_map(ps)[h][0] == q);
                }
            }
            assert(ps.contains((h, q))) by {
                assert(ps[ps.len() - 1] == (h, q));
            }
        } else {
            assert(ps.contains((h, q)) <==> prefix.contains((h, q))) by {
                if prefix.contains((h, q)) {
                    let k = choose|k: int| 0 <= k < prefix.len() && prefix[k] == (h, q);
                    assert(ps[k] == (h, q));
                }
                if ps.contains((h, q)) {
                    let k = choose|k: int| 0 <= k < ps.len() && ps[k] == (h, q);
                    assert(ps[k] == (h, q));
                    assert(k < ps.len() - 1);
                    assert(prefix[k] == (h, q));
                }
            }
            if lh == h {
                if m.contains_key(h) {
                    assert(pairs_map(ps)[h] == m[h].push(lq));
                    assert(m[h].push(lq).contains(q) <==> m[h].contains(q)) by {
                        if m[h].contains(q) {
                            let k = choose|k: int| 0 <= k < m[h].len() && m[h][k] == q;
                            assert(m[h].push(lq)[k] == q);
                        }
                        if m[h].push(lq).contains(q) {
                            let k = choose|k: int|
                                0 <= k < m[h].push(lq).len() && m[h].push(lq)[k] == q;
                            assert(k < m[h].len());
                            assert(m[h][k] == q);
                        }
                    }
                } else {
                    assert(pairs_map(ps)[h] == seq![lq]);
                    assert(!seq![lq].contains(q)) by {
                        if seq![lq].contains(q) {
                            let k = choose|k: int| 0 <= k < seq![lq].len() && seq![lq][k] == q;
                            assert(seq![lq][0] == lq);
                        }
                    }
                }
            } else {
                assert(pairs_map(ps).contains_key(h) == m.contains_key(h));
                if m.contains_key(h) {
                    assert(pairs_map(ps)[h] == m[h]);
                }
            }
        }
    }
}

/// What a dictionary line contributes: a line with exactly three characters
/// after trimming maps its first character to its third; any other line is
/// dropped.
pub open spec fn line_entry(line: Seq<char>) -> Option<(char, char)> {
    if trimmed(line).len() == 3 {
        Some((trimmed(line)[0], trimmed(line)[2]))
    } else {
        None
    }
}

/// The table that a sequence of dictionary lines accumulates to.
pub open spec fn table_of(lines: Seq<Seq<char>>) -> Map<char, Seq<char>>
    decreases lines.len(),
{
    if lines.len() == 0 {
        Map::empty()
    } else {
        match line_entry(lines.last()) {
            Some(p) => table_insert(table_of(lines.drop_last()), p.0, p.1),
            None => table_of(lines.drop_last()),
        }
    }
}

/// Parses one dictionary line: the trimmed line must hold exactly three
/// characters — haystack character, ignored separator, query character.
pub fn parse_line(line: &str) -> (r: Option<(char, char)>)
    ensures
        r == line_entry(line@),
{
    let cs = chars_of(line);
    let t = trim_chars(&cs);
    if t.len() == 3 {
        Some((t[0], t[2]))
    } else {
        None
    }
}

/// Builds the equivalence table from the dictionary's lines, dropping every
/// line that does not trim to exactly three characters.
pub fn build_table(lines: &Vec<String>) -> (t: EquivalenceTable)
    ensures
        t@ == table_of(lines.deep_view()),
{
    let mut t = EquivalenceTable::new();
    let n = lines.len();
    let mut i: usize = 0;
    while i < n
        invariant
            n == lines@.len(),
            lines.deep_view().len() == lines@.len(),
            i <= n,
            forall|k: int| 0 <= k < n ==> lines.deep_view()[k] == lines@[k]@,
            t@ == table_of(lines.deep_view().take(i as int)),
        decreases n - i,
    {
        proof {
            assert(lines.deep_view().take(i + 1).drop_last() =~= lines.deep_view().take(i as int));
            assert(lines.deep_view().take(i + 1).last() == lines@[i as int]@);
        }
        match parse_line(lines[i].as_str()) {
            Some(p) => {
                t.insert(p.0, p.1);
            },
            None => {},
        }
        i = i + 1;
    }
    proof {
        assert(lines.deep_view().take(n as int) =~= lines.deep_view());
    }
    t
}

} // verus!
