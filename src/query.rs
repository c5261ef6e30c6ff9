//! The query engine: full and incremental substring search over lowercase names.
use vstd::prelude::*;

use rayon::iter::{IndexedParallelIterator, IntoParallelRefIterator, ParallelIterator};

use crate::filesystem::{position_range, FileOrder, FileSystem, FsModel};
use crate::order::sorted_by;
use crate::text::{contains, contains_seq, query_key, to_lowercase, trim_end, trimmed_end};

verus! {

/// Whether a position addresses an entry whose lowercase name contains `key`.
pub open spec fn hit(lower: Seq<Seq<char>>, key: Seq<char>) -> spec_fn(usize) -> bool {
    |p: usize| (p as int) < lower.len() && contains_seq(lower[p as int], key)
}

/// The view that a search for `key` yields before sorting, from `candidates`;
/// an empty key yields every position in record order.
pub open spec fn view_after(m: FsModel, key: Seq<char>, new: FsModel, candidates: Seq<usize>) -> bool {
    &&& new.same_store(m)
    &&& new.order == m.order
    &&& new.direction == m.direction
    &&& if key.len() == 0 {
        new.shown == position_range(m.len())
    } else {
        &&& new.shown.to_multiset() == candidates.filter(hit(m.lower, key)).to_multiset()
        &&& sorted_by(new, new.shown)
    }
}

/// `new` is `m` after a full search for `key`: every position whose lowercase
/// name contains `key`, sorted by the active key and direction.
pub open spec fn search_post(m: FsModel, key: Seq<char>, new: FsModel) -> bool {
    view_after(m, key, new, position_range(m.len()))
}

/// `new` is `m` after a search for `key` among the positions shown: those
/// of them whose lowercase name contains `key`, sorted.
pub open spec fn search_shown_post(m: FsModel, key: Seq<char>, new: FsModel) -> bool {
    view_after(m, key, new, m.shown)
}

/// `Some(i)` where `name` contains `key`.
fn keep_match(i: usize, name: &String, key: &str) -> (r: Option<usize>)
    ensures
        r == if contains_seq(name@, key@) {
            Some(i)
        } else {
            None
        },
{
    if contains(name.as_str(), key) {
        Some(i)
    } else {
        None
    }
}

/// `Some(p)` where `p` addresses an entry whose lowercase name contains `key`.
fn keep_shown(p: usize, lower: &Vec<String>, key: &str) -> (r: Option<usize>)
    ensures
        r == if hit(lower@.map_values(|s: String| s@), key@)(p) {
            Some(p)
        } else {
            None
        },
{
    if p < lower.len() {
        keep_match(p, &lower[p], key)
    } else {
        None
    }
}

/// Relies on rayon's `par_iter().enumerate().filter_map(..).collect()` into a
/// `Vec`: the positions kept come out in the order of the input. The filter is
/// `keep_match`.
#[verifier::external_body]
fn par_matching_positions(lower: &Vec<String>, key: &str) -> (r: Vec<usize>)
    ensures
        r@ == position_range(lower@.len() as int).filter(
            hit(lower@.map_values(|s: String| s@), key@),
        ),
{
    lower.par_iter().enumerate().filter_map(|(i, name)| keep_match(i, name, key)).collect()
}

/// Relies on rayon's `par_iter().filter_map(..).collect()` into a `Vec`: the
/// positions kept come out in the order of the input. The filter is
/// `keep_shown`.
#[verifier::external_body]
fn par_matching_shown(shown: &Vec<usize>, lower: &Vec<String>, key: &str) -> (r: Vec<usize>)
    ensures
        r@ == shown@.filter(hit(lower@.map_values(|s: String| s@), key@)),
{
    shown.par_iter().filter_map(|&p| keep_shown(p, lower, key)).collect()
}

/// The positions `0..n` in record order.
pub fn all_positions(n: usize) -> (r: Vec<usize>)
    ensures
        r@ == position_range(n as int),
{
    let mut v: Vec<usize> = Vec::new();
    let mut i: usize = 0;
    while i < n
        invariant
            i <= n,
            v@ == position_range(i as int),
        decreases n - i,
    {
        v.push(i);
        i = i + 1;
        assert(v@ =~= position_range(i as int));
    }
    v
}

/// The search key of a query.
fn normalize(query: &str) -> (r: String)
    ensures
        r@ == query_key(query@),
        trimmed_end(query@).len() == 0 ==> r@.len() == 0,
{
    to_lowercase(trim_end(query))
}

impl FileSystem {
    /// Searches every entry: the view becomes the positions whose lowercase
    /// name contains the query (trailing white space removed, lowercase),
    /// sorted. An empty query shows every position in record order.
    pub fn search(&mut self, query: &str)
        requires
            old(self).wf(),
            old(self).order != FileOrder::ModifedDate,
        ensures
            final(self).wf(),
            search_post(old(self)@, query_key(query@), final(self)@),
            trimmed_end(query@).len() == 0 ==> final(self)@.shown == position_range(
                old(self)@.len(),
            ),
    {
        let key = normalize(query);
        self.search_key(key.as_str());
    }

    /// Searches only the positions shown: valid where the previous query's key
    /// occurs in this one's, since no other entry can match then. The view
    /// keeps the shown positions whose lowercase name contains the query, sorted.
    /// An empty query shows every position in record order.
    pub fn search_shown(&mut self, query: &str)
        requires
            old(self).wf(),
            old(self).order != FileOrder::ModifedDate,
        ensures
            final(self).wf(),
            search_shown_post(old(self)@, query_key(query@), final(self)@),
            trimmed_end(query@).len() == 0 ==> final(self)@.shown == position_range(
                old(self)@.len(),
            ),
    {
        let key = normalize(query);
        self.search_shown_key(key.as_str());
    }

    /// Searches every entry for a normalized key: the view becomes the
    /// positions whose lowercase name contains `key`, sorted; an empty key
    /// shows every position in record order.
    pub fn search_key(&mut self, key: &str)
        requires
            old(self).wf(),
            old(self).order != FileOrder::ModifedDate,
        ensures
            final(self).wf(),
            search_post(old(self)@, key@, final(self)@),
    {
        if key.is_empty() {
            self.shown = all_positions(self.frn_mapping.len());
            assert(self@.same_store(old(self)@));
            return ;
        }
        self.shown = par_matching_positions(&self.lowercase_filenames, key);
        proof {
            assert(self@.same_store(old(self)@));
            self.lemma_filter_in_bounds(position_range(self@.len()), key@);
        }
        self.sort();
    }

    /// Searches the positions shown for a normalized key: the view keeps
    /// those whose lowercase name contains `key`, sorted; an empty key shows
    /// every position in record order.
    pub fn search_shown_key(&mut self, key: &str)
        requires
            old(self).wf(),
            old(self).order != FileOrder::ModifedDate,
        ensures
            final(self).wf(),
            search_shown_post(old(self)@, key@, final(self)@),
    {
        if key.is_empty() {
            self.shown = all_positions(self.frn_mapping.len());
            assert(self@.same_store(old(self)@));
            return ;
        }
        self.shown = par_matching_shown(&self.shown, &self.lowercase_filenames, key);
        proof {
            assert(self@.same_store(old(self)@));
            self.lemma_filter_in_bounds(old(self)@.shown, key@);
        }
        self.sort();
    }

    /// A view filtered by `hit` addresses entries only.
    proof fn lemma_filter_in_bounds(&self, candidates: Seq<usize>, key: Seq<char>)
        requires
            self.wf(),
            self@.shown == candidates.filter(hit(self@.lower, key)),
        ensures
            self@.view_in_bounds(),
    {
        assert forall|i: int| 0 <= i < self@.shown.len() implies (#[trigger] self@.shown[i] as int)
            < self@.len() by {
            broadcast use vstd::seq_lib::group_filter_ensures;

            assert(self@.shown.contains(self@.shown[i]));
        }
    }
}

} // verus!
