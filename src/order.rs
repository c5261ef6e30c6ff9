//! The sort engine: orders the view by the active key and direction.
use vstd::prelude::*;

use rayon::slice::ParallelSliceMut;

use crate::filesystem::{FileOrder, FileSystem, FsModel, SortDirection};
use crate::text::{compare_str, flip, lemma_lex_flip, lemma_lex_trans, lex_cmp};

verus! {

/// Order of two integers.
pub open spec fn num_cmp(a: int, b: int) -> core::cmp::Ordering {
    if a < b {
        core::cmp::Ordering::Less
    } else if a > b {
        core::cmp::Ordering::Greater
    } else {
        core::cmp::Ordering::Equal
    }
}

/// Ascending order of the entries at positions `a` and `b` under the active key.
pub open spec fn key_cmp(m: FsModel, a: usize, b: usize) -> core::cmp::Ordering {
    match m.order {
        FileOrder::Name => lex_cmp(m.names[a as int], m.names[b as int]),
        FileOrder::Size => num_cmp(m.sizes[a as int] as int, m.sizes[b as int] as int),
        _ => num_cmp(a as int, b as int),
    }
}

/// The key has a direction; record order is always ascending.
pub open spec fn has_direction(order: FileOrder) -> bool {
    order != FileOrder::RecordNumber
}

/// Order of the entries at `a` and `b` under the active key and direction.
pub open spec fn entry_cmp(m: FsModel, a: usize, b: usize) -> core::cmp::Ordering {
    if has_direction(m.order) && m.direction == SortDirection::Descending {
        key_cmp(m, b, a)
    } else {
        key_cmp(m, a, b)
    }
}

/// `v` is ordered by the active key and direction.
pub open spec fn sorted_by(m: FsModel, v: Seq<usize>) -> bool {
    forall|i: int, j: int|
        0 <= i < j < v.len() ==> entry_cmp(m, #[trigger] v[i], #[trigger] v[j])
            != core::cmp::Ordering::Greater
}

/// `entry_cmp` is a total order on the entries of `m`: swapping two entries
/// flips the result, and each outcome is transitive.
pub open spec fn total_on_entries(m: FsModel) -> bool {
    &&& forall|a: usize, b: usize|
        (a as int) < m.len() && (b as int) < m.len() ==> #[trigger] entry_cmp(m, a, b) == flip(
            entry_cmp(m, b, a),
        )
    &&& forall|a: usize, b: usize, c: usize|
        (a as int) < m.len() && (b as int) < m.len() && (c as int) < m.len() && #[trigger] entry_cmp(
            m,
            a,
            b,
        ) == #[trigger] entry_cmp(m, b, c) ==> entry_cmp(m, a, c) == entry_cmp(m, a, b)
}

/// Every key orders the entries totally.
pub proof fn lemma_entry_cmp_total(m: FsModel)
    ensures
        total_on_entries(m),
{
    assert forall|a: usize, b: usize|
        (a as int) < m.len() && (b as int) < m.len() implies #[trigger] entry_cmp(m, a, b) == flip(
        entry_cmp(m, b, a),
    ) by {
        lemma_lex_flip(m.names[a as int], m.names[b as int]);
        lemma_lex_flip(m.names[b as int], m.names[a as int]);
    }
    assert forall|a: usize, b: usize, c: usize|
        (a as int) < m.len() && (b as int) < m.len() && (c as int) < m.len() && #[trigger] entry_cmp(
            m,
            a,
            b,
        ) == #[trigger] entry_cmp(m, b, c) implies entry_cmp(m, a, c) == entry_cmp(m, a, b) by {
        if m.order == FileOrder::Name {
            if has_direction(m.order) && m.direction == SortDirection::Descending {
                lemma_lex_trans(m.names[c as int], m.names[b as int], m.names[a as int]);
            } else {
                lemma_lex_trans(m.names[a as int], m.names[b as int], m.names[c as int]);
            }
        }
    }
}

/// The two directions swapped.
pub open spec fn flipped(d: SortDirection) -> SortDirection {
    match d {
        SortDirection::Ascending => SortDirection::Descending,
        SortDirection::Descending => SortDirection::Ascending,
    }
}

/// `new` is `m` after a direction toggle: the direction flips and, for a key
/// with a direction, the view is reversed in place.
pub open spec fn toggle_post(m: FsModel, new: FsModel) -> bool {
    &&& new.same_store(m)
    &&& new.order == m.order
    &&& new.direction == flipped(m.direction)
    &&& new.shown == if has_direction(m.order) {
        m.shown.reverse()
    } else {
        m.shown
    }
}

/// `new` is `m` with its view sorted: same store, key and direction, the
/// same positions in the view, now in order.
pub open spec fn sort_post(m: FsModel, new: FsModel) -> bool {
    &&& new.same_store(m)
    &&& new.order == m.order
    &&& new.direction == m.direction
    &&& new.shown.to_multiset() == m.shown.to_multiset()
    &&& sorted_by(new, new.shown)
}

/// Relies on `slice::sort_unstable`: the same elements, in non-decreasing order.
#[verifier::external_body]
fn sort_unstable(v: &mut Vec<usize>)
    ensures
        final(v)@.to_multiset() == old(v)@.to_multiset(),
        forall|i: int, j: int| 0 <= i < j < final(v)@.len() ==> final(v)@[i] <= final(v)@[j],
{
    v.sort_unstable()
}

/// Relies on rayon's `par_sort_unstable_by`: with a comparator that is a total
/// order, the same elements come out ordered by it. The comparator is
/// `FileSystem::compare_positions`.
#[verifier::external_body]
fn par_sort_positions(v: &mut Vec<usize>, fs: &FileSystem)
    requires
        fs.wf(),
        total_on_entries(fs@),
        forall|i: int| 0 <= i < old(v)@.len() ==> (#[trigger] old(v)@[i] as int) < fs@.len(),
    ensures
        final(v)@.to_multiset() == old(v)@.to_multiset(),
        sorted_by(fs@, final(v)@),
{
    v.par_sort_unstable_by(|&a, &b| fs.compare_positions(a, b))
}

/// Reverses `v` in place.
fn reverse_in_place(v: &mut Vec<usize>)
    ensures
        final(v)@ == old(v)@.reverse(),
{
    let ghost s = v@;
    let n = v.len();
    let mut i: usize = 0;
    while i < n / 2
        invariant
            n == s.len(),
            v@.len() == n,
            i <= n / 2,
            forall|k: int| 0 <= k < i ==> #[trigger] v@[k] == s[n - 1 - k],
            forall|k: int| n - i <= k < n ==> #[trigger] v@[k] == s[n - 1 - k],
            forall|k: int| i <= k < n - i ==> v@[k] == s[k],
        decreases n / 2 - i,
    {
        let a = v[i];
        let b = v[n - 1 - i];
        v[i] = b;
        v[n - 1 - i] = a;
        i = i + 1;
    }
    assert(v@ =~= s.reverse());
}

impl FileSystem {
    /// Compares the entries at positions `a` and `b` under the active key and
    /// direction.
    pub fn compare_positions(&self, a: usize, b: usize) -> (r: core::cmp::Ordering)
        requires
            self.wf(),
            (a as int) < self@.len(),
            (b as int) < self@.len(),
        ensures
            r == entry_cmp(self@, a, b),
    {
        let descending = self.order != FileOrder::RecordNumber && self.direction
            == SortDirection::Descending;
        let (x, y) = if descending {
            (b, a)
        } else {
            (a, b)
        };
        match self.order {
            FileOrder::Name => compare_str(self.filenames[x].as_str(), self.filenames[y].as_str()),
            FileOrder::Size => {
                let (sx, sy) = (self.filesizes[x], self.filesizes[y]);
                if sx < sy {
                    core::cmp::Ordering::Less
                } else if sx > sy {
                    core::cmp::Ordering::Greater
                } else {
                    core::cmp::Ordering::Equal
                }
            },
            _ => {
                if x < y {
                    core::cmp::Ordering::Less
                } else if x > y {
                    core::cmp::Ordering::Greater
                } else {
                    core::cmp::Ordering::Equal
                }
            },
        }
    }

    /// Sorts the view by the active key and direction. Record order is a
    /// plain ascending sort of positions; name and size run a parallel sort.
    /// Ordering by modification date has no comparator and is not accepted.
    pub fn sort(&mut self)
        requires
            old(self).wf(),
            old(self)@.view_in_bounds(),
            old(self).order != FileOrder::ModifedDate,
        ensures
            final(self).wf(),
            sort_post(old(self)@, final(self)@),
    {
        let mut shown: Vec<usize> = Vec::new();
        core::mem::swap(&mut shown, &mut self.shown);
        assert(self@.same_store(old(self)@));
        assert(self@.wf());
        assert(shown@ == old(self)@.shown);
        assert forall|i: int| 0 <= i < shown@.len() implies (#[trigger] shown@[i] as int) < self@.len() by {
            assert((old(self)@.shown[i] as int) < old(self)@.len());
        }
        if self.order == FileOrder::RecordNumber {
            sort_unstable(&mut shown);
        } else {
            proof {
                lemma_entry_cmp_total(self@);
            }
            par_sort_positions(&mut shown, self);
        }
        self.shown = shown;
        assert(self@.same_store(old(self)@));
    }

    /// Flips the direction. For a key with a direction the view, sorted under
    /// the old one, is reversed in place rather than sorted again.
    pub fn toggle_direction(&mut self)
        requires
            old(self).wf(),
        ensures
            final(self).wf(),
            toggle_post(old(self)@, final(self)@),
    {
        self.direction = match self.direction {
            SortDirection::Ascending => SortDirection::Descending,
            SortDirection::Descending => SortDirection::Ascending,
        };
        assert(self@.same_store(old(self)@));
        assert(self@.wf());
        if self.order != FileOrder::RecordNumber {
            reverse_in_place(&mut self.shown);
        }
        assert(self@.same_store(old(self)@));
    }

    /// Selects a sort key and direction. The same key with the other direction
    /// reverses the view; another key sorts the view under the new key.
    pub fn set_order(&mut self, order: FileOrder, direction: SortDirection)
        requires
            old(self).wf(),
            old(self)@.view_in_bounds(),
            order != FileOrder::ModifedDate,
        ensures
            final(self).wf(),
            final(self).order == order,
            final(self).direction == direction,
            final(self)@.same_store(old(self)@),
            order != old(self).order ==> sort_post(
                FsModel { order, direction, ..old(self)@ },
                final(self)@,
            ),
            order == old(self).order && direction == old(self).direction ==> final(self)@
                == old(self)@,
            order == old(self).order && direction != old(self).direction ==> toggle_post(
                old(self)@,
                final(self)@,
            ),
    {
        if order == self.order {
            if direction != self.direction {
                self.toggle_direction();
            }
        } else {
            self.order = order;
            self.direction = direction;
            self.sort();
        }
    }
}

} // verus!
