//! The traversal engine's state and decisions: the pending-directory queue,
//! the result collection, and what one directory listing contributes to each.
//!
//! The engine is driven from outside: the caller repeatedly claims a pending
//! directory with `next_dir`, lists it on disk, and hands the listing back
//! through `absorb`, which files the non-hidden subdirectories into the
//! queue and the matching entries into the results.  Workers may share one
//! engine behind a lock; the filesystem is never touched here.

use vstd::prelude::*;
use vstd::seq_lib::lemma_seq_contains_after_push;

use crate::matcher::name_matches;
use crate::matcher::query_ok;
use crate::matcher::regex_compiles;
use crate::matcher::spec_matches;
use crate::table::EquivalenceTable;
use crate::text::decode_name;

verus! {

/// One entry of a directory listing: its full path, its bare name, and
/// whether it is itself a directory — all as raw bytes, since a filesystem
/// name need not be valid text.
pub struct DirEntry {
    pub path: Vec<u8>,
    pub name: Vec<u8>,
    pub is_dir: bool,
}

/// Whether a name marks a hidden entry: it decodes as text and its first
/// character is the hidden-file marker.  A name that is not valid text is
/// never hidden.
pub open spec fn spec_hidden(name: Seq<u8>) -> bool {
    vstd::utf8::valid_utf8(name) && vstd::utf8::decode_utf8(name).len() > 0
        && vstd::utf8::decode_utf8(name)[0] == '.'
}

/// Whether the entry named by these bytes is hidden.
pub fn is_hidden(name: &Vec<u8>) -> (r: bool)
    ensures
        r == spec_hidden(name@),
{
    match decode_name(name.as_slice()) {
        None => false,
        Some(cs) => cs.len() > 0 && cs[0] == '.',
    }
}

/// The paths of a listing's non-hidden subdirectories, in listing order.
pub open spec fn subdirs_of(es: Seq<DirEntry>) -> Seq<Seq<u8>>
    decreases es.len(),
{
    if es.len() == 0 {
        Seq::empty()
    } else {
        let prev = subdirs_of(es.drop_last());
        if !spec_hidden(es.last().name@) && es.last().is_dir {
            prev.push(es.last().path@)
        } else {
            prev
        }
    }
}

/// The paths of a listing's non-hidden entries whose name the matcher
/// accepts, in listing order.
pub open spec fn matched_of(q: Seq<char>, t: Map<char, Seq<char>>, es: Seq<DirEntry>) -> Seq<
    Seq<u8>,
>
    decreases es.len(),
{
    if es.len() == 0 {
        Seq::empty()
    } else {
        let prev = matched_of(q, t, es.drop_last());
        if !spec_hidden(es.last().name@) && spec_matches(q, es.last().name@, t) {
            prev.push(es.last().path@)
        } else {
            prev
        }
    }
}

/// The traversal engine's shared state: the query and table, fixed for the
/// run; the LIFO queue of directories still to be scanned; and the
/// append-only collection of matching paths.
#[derive(Debug)]
pub struct Traversal {
    query: String,
    table: EquivalenceTable,
    pending: Vec<Vec<u8>>,
    results: Vec<Vec<u8>>,
}

impl Traversal {
    /// The query's characters.
    pub closed spec fn query_view(self) -> Seq<char> {
        self.query@
    }

    /// The equivalence table's mapping.
    pub closed spec fn table_view(self) -> Map<char, Seq<char>> {
        self.table@
    }

    /// The queued directory paths, oldest first; the last is claimed next.
    pub closed spec fn pending_view(self) -> Seq<Seq<u8>> {
        self.pending.deep_view()
    }

    /// The matching paths collected so far.
    pub closed spec fn results_view(self) -> Seq<Seq<u8>> {
        self.results.deep_view()
    }

    /// A fresh engine: the queue holds exactly the start path and no result
    /// has been collected.
    pub fn new(root: Vec<u8>, query: String, table: EquivalenceTable) -> (t: Traversal)
        ensures
            t.query_view() == query@,
            t.table_view() == table@,
            t.pending_view() == seq![root@],
            t.results_view() == Seq::<Seq<u8>>::empty(),
    {
        let ghost root_bytes = root@;
        let mut pending: Vec<Vec<u8>> = Vec::new();
        pending.push(root);
        let t = Traversal { query, table, pending, results: Vec::new() };
        proof {
            assert(t.pending.deep_view() =~~= seq![root_bytes]);
            assert(t.results.deep_view() =~= Seq::<Seq<u8>>::empty());
        }
        t
    }

    /// Claims the most recently queued directory, if any work is pending.
    /// The queue is LIFO: the last queued path is handed out first.
    pub fn next_dir(&mut self) -> (r: Option<Vec<u8>>)
        ensures
            final(self).query_view() == old(self).query_view(),
            final(self).table_view() == old(self).table_view(),
            final(self).results_view() == old(self).results_view(),
            old(self).pending_view().len() == 0 ==> r is None && final(self).pending_view()
                == old(self).pending_view(),
            old(self).pending_view().len() > 0 ==> (r matches Some(d) && d@ == old(
                self,
            ).pending_view().last() && final(self).pending_view() == old(
                self,
            ).pending_view().drop_last()),
    {
        let r = self.pending.pop();
        proof {
            if old(self).pending@.len() > 0 {
                assert(self.pending.deep_view() =~~= old(self).pending.deep_view().drop_last());
            }
        }
        r
    }

    /// Absorbs one directory listing: every non-hidden subdirectory joins
    /// the queue and every non-hidden matching entry joins the results, each
    /// batch appended atomically in listing order.  Returns false — leaving
    /// the engine unchanged — exactly when the query is not a valid regular
    /// expression, the caller's fatal condition.
    pub fn absorb(&mut self, entries: &Vec<DirEntry>) -> (ok: bool)
        ensures
            final(self).query_view() == old(self).query_view(),
            final(self).table_view() == old(self).table_view(),
            ok == regex_compiles(old(self).query_view()),
            ok ==> final(self).pending_view() == old(self).pending_view() + subdirs_of(entries@)
                && final(self).results_view() == old(self).results_view() + matched_of(
                old(self).query_view(),
                old(self).table_view(),
                entries@,
            ),
            !ok ==> final(self).pending_view() == old(self).pending_view()
                && final(self).results_view() == old(self).results_view(),
    {
        if !query_ok(&self.query) {
            return false;
        }
        let mut local_dirs: Vec<Vec<u8>> = Vec::new();
        let mut local_results: Vec<Vec<u8>> = Vec::new();
        let n = entries.len();
        let mut i: usize = 0;
        proof {
            assert(local_dirs.deep_view() =~~= subdirs_of(entries@.take(0)));
            assert(local_results.deep_view() =~~= matched_of(
                old(self).query_view(),
                old(self).table_view(),
                entries@.take(0),
            ));
        }
        while i < n
            invariant
                *self == *old(self),
                regex_compiles(old(self).query_view()),
                n == entries@.len(),
                i <= n,
                local_dirs.deep_view() == subdirs_of(entries@.take(i as int)),
                local_results.deep_view() == matched_of(
                    old(self).query_view(),
                    old(self).table_view(),
                    entries@.take(i as int),
                ),
            decreases n - i,
        {
            proof {
                assert(entries@.take(i + 1).drop_last() =~= entries@.take(i as int));
                assert(entries@.take(i + 1).last() == entries@[i as int]);
            }
            let e = &entries[i];
            let ghost dirs_before = local_dirs.deep_view();
            let ghost results_before = local_results.deep_view();
            if !is_hidden(&e.name) {
                if e.is_dir {
                    local_dirs.push(vstd::slice::slice_to_vec(e.path.as_slice()));
                    proof {
                        assert(local_dirs.deep_view() =~~= dirs_before.push(e.path@));
                    }
                }
                match name_matches(&self.query, &e.name, &self.table) {
                    Some(true) => {
                        local_results.push(vstd::slice::slice_to_vec(e.path.as_slice()));
                        proof {
                            assert(local_results.deep_view() =~~= results_before.push(e.path@));
                        }
                    },
                    Some(false) => {},
                    None => {
                        proof {
                            assert(false);
                        }
                    },
                }
            }
            i = i + 1;
        }
        proof {
            assert(entries@.take(n as int) =~= entries@);
        }
        let ghost pending_before = self.pending.deep_view();
        let ghost results_before = self.results.deep_view();
        let ghost dirs_local = local_dirs.deep_view();
        let ghost matched_local = local_results.deep_view();
        self.results.append(&mut local_results);
        self.pending.append(&mut local_dirs);
        proof {
            assert(self.pending.deep_view() =~~= pending_before + dirs_local);
            assert(self.results.deep_view() =~~= results_before + matched_local);
        }
        true
    }

    /// Hands the collected results back once the caller has decided that the
    /// run is over.
    pub fn into_results(self) -> (r: Vec<Vec<u8>>)
        ensures
            r.deep_view() == self.results_view(),
    {
        self.results
    }
}

/// A path stands among a listing's matches exactly when some entry of the
/// listing bears it, is not hidden, and has a name the matcher accepts:
/// the per-listing completeness and soundness of the filter.
pub proof fn lemma_matched_characterized(
    q: Seq<char>,
    t: Map<char, Seq<char>>,
    es: Seq<DirEntry>,
    p: Seq<u8>,
)
    ensures
        matched_of(q, t, es).contains(p) <==> exists|i: int|
            0 <= i < es.len() && es[i].path@ == p && !spec_hidden(es[i].name@) && spec_matches(
                q,
                es[i].name@,
                t,
            ),
    decreases es.len(),
{
    if es.len() > 0 {
        let prefix = es.drop_last();
        lemma_matched_characterized(q, t, prefix, p);
        let last = es[es.len() - 1];
        assert(es.last() == last);
        assert(forall|i: int| 0 <= i < prefix.len() ==> prefix[i] == es[i]);
        let kept = !spec_hidden(last.name@) && spec_matches(q, last.name@, t);
        if kept {
            lemma_seq_contains_after_push(matched_of(q, t, prefix), last.path@, p);
            assert(matched_of(q, t, es) == matched_of(q, t, prefix).push(last.path@));
        } else {
            assert(matched_of(q, t, es) == matched_of(q, t, prefix));
        }
        if matched_of(q, t, es).contains(p) {
            if kept && last.path@ == p {
                assert(es[es.len() - 1].path@ == p && !spec_hidden(es[es.len() - 1].name@)
                    && spec_matches(q, es[es.len() - 1].name@, t));
            } else {
                assert(matched_of(q, t, prefix).contains(p));
                let i = choose|i: int|
                    0 <= i < prefix.len() && prefix[i].path@ == p && !spec_hidden(prefix[i].name@)
                        && spec_matches(q, prefix[i].name@, t);
                assert(es[i].path@ == p && !spec_hidden(es[i].name@) && spec_matches(
                    q,
                    es[i].name@,
                    t,
                ));
            }
        }
        if exists|i: int|
            0 <= i < es.len() && es[i].path@ == p && !spec_hidden(es[i].name@) && spec_matches(
                q,
                es[i].name@,
                t,
            ) {
            let i = choose|i: int|
                0 <= i < es.len() && es[i].path@ == p && !spec_hidden(es[i].name@) && spec_matches(
                    q,
                    es[i].name@,
                    t,
                );
            if i == es.len() - 1 {
                assert(kept && last.path@ == p);
                assert(matched_of(q, t, es).contains(p));
            } else {
                assert(prefix[i].path@ == p && !spec_hidden(prefix[i].name@) && spec_matches(
                    q,
                    prefix[i].name@,
                    t,
                ));
                assert(matched_of(q, t, prefix).contains(p));
                assert(matched_of(q, t, es).contains(p));
            }
        }
    }
}

/// A path stands among a listing's staged subdirectories exactly when some
/// entry of the listing bears it, is not hidden, and is a directory.
pub proof fn lemma_subdirs_characterized(es: Seq<DirEntry>, p: Seq<u8>)
    ensures
        subdirs_of(es).contains(p) <==> exists|i: int|
            0 <= i < es.len() && es[i].path@ == p && !spec_hidden(es[i].name@) && es[i].is_dir,
    decreases es.len(),
{
    if es.len() > 0 {
        let prefix = es.drop_last();
        lemma_subdirs_characterized(prefix, p);
        let last = es[es.len() - 1];
        assert(es.last() == last);
        assert(forall|i: int| 0 <= i < prefix.len() ==> prefix[i] == es[i]);
        let kept = !spec_hidden(last.name@) && last.is_dir;
        if kept {
            lemma_seq_contains_after_push(subdirs_of(prefix), last.path@, p);
            assert(subdirs_of(es) == subdirs_of(prefix).push(last.path@));
        } else {
            assert(subdirs_of(es) == subdirs_of(prefix));
        }
        if subdirs_of(es).contains(p) {
            if kept && last.path@ == p {
                assert(es[es.len() - 1].path@ == p && !spec_hidden(es[es.len() - 1].name@)
                    && es[es.len() - 1].is_dir);
            } else {
                assert(subdirs_of(prefix).contains(p));
                let i = choose|i: int|
                    0 <= i < prefix.len() && prefix[i].path@ == p && !spec_hidden(prefix[i].name@)
                        && prefix[i].is_dir;
                assert(es[i].path@ == p && !spec_hidden(es[i].name@) && es[i].is_dir);
            }
        }
        if exists|i: int|
            0 <= i < es.len() && es[i].path@ == p && !spec_hidden(es[i].name@) && es[i].is_dir {
            let i = choose|i: int|
                0 <= i < es.len() && es[i].path@ == p && !spec_hidden(es[i].name@) && es[i].is_dir;
            if i == es.len() - 1 {
                assert(kept && last.path@ == p);
                assert(subdirs_of(es).contains(p));
            } else {
                assert(prefix[i].path@ == p && !spec_hidden(prefix[i].name@) && prefix[i].is_dir);
                assert(subdirs_of(prefix).contains(p));
                assert(subdirs_of(es).contains(p));
            }
        }
    }
}

/// A path borne only by hidden entries of a listing is neither reported as
/// a match nor staged for recursion, however well its name would match.
pub proof fn lemma_hidden_never_reported(
    q: Seq<char>,
    t: Map<char, Seq<char>>,
    es: Seq<DirEntry>,
    p: Seq<u8>,
)
    requires
        forall|i: int| 0 <= i < es.len() && es[i].path@ == p ==> spec_hidden(#[trigger] es[i].name@),
    ensures
        !matched_of(q, t, es).contains(p),
        !subdirs_of(es).contains(p),
{
    lemma_matched_characterized(q, t, es, p);
    lemma_subdirs_characterized(es, p);
}

} // verus!
