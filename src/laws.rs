//! Properties that hold across operations of the index.
use vstd::prelude::*;

use crate::filesystem::{non_decreasing, position_range, FileOrder, FsModel, SortDirection, NO_POSITION};
use crate::load::in_use;
use crate::order::{entry_cmp, lemma_entry_cmp_total, sort_post, sorted_by, toggle_post};
use crate::path::{ancestors, path_of, prepend, ROOT_FRN};
use crate::query::{hit, search_post, search_shown_post};
use crate::text::contains_seq;

verus! {

broadcast use vstd::seq_lib::group_to_multiset_ensures;

/// The record numbers that the map holds a position for.
pub open spec fn occupied_rids(m: FsModel) -> Set<u64> {
    Set::new(|r: u64| m.pos_of(r) is Some)
}

/// How often `x` occurs in `s` filtered by `f`.
proof fn lemma_filter_count(s: Seq<usize>, f: spec_fn(usize) -> bool, x: usize)
    ensures
        s.filter(f).to_multiset().count(x) == if f(x) {
            s.to_multiset().count(x)
        } else {
            0
        },
    decreases s.len(),
{
    if s.len() > 0 {
        let init = s.drop_last();
        lemma_filter_count(init, f, x);
        assert(s =~= init.push(s.last()));
        init.lemma_filter_push(s.last(), f);
    }
}

/// A key that occurs in a key that occurs in `s` occurs in `s`.
proof fn lemma_contains_trans(s: Seq<char>, k2: Seq<char>, k1: Seq<char>)
    requires
        contains_seq(s, k2),
        contains_seq(k2, k1),
    ensures
        contains_seq(s, k1),
{
    let i = choose|i: int| 0 <= i && i + k2.len() <= s.len() && #[trigger] s.subrange(i, i + k2.len()) == k2;
    let j = choose|j: int| 0 <= j && j + k1.len() <= k2.len() && #[trigger] k2.subrange(j, j + k1.len()) == k1;
    assert(s.subrange(i + j, i + j + k1.len()) =~= k1);
}

/// Two sequences in non-decreasing order that hold the same elements are equal.
proof fn lemma_sorted_same_elements(a: Seq<usize>, b: Seq<usize>)
    requires
        non_decreasing(a),
        non_decreasing(b),
        a.to_multiset() == b.to_multiset(),
    ensures
        a == b,
    decreases a.len(),
{
    assert(a.len() == a.to_multiset().len());
    assert(b.len() == b.to_multiset().len());
    if a.len() > 0 {
        let x = a.last();
        let y = b.last();
        assert(a.to_multiset().count(x) > 0);
        assert(b.contains(x));
        assert(b.to_multiset().count(y) > 0);
        assert(a.contains(y));
        let i = choose|i: int| 0 <= i < b.len() && b[i] == x;
        let j = choose|j: int| 0 <= j < a.len() && a[j] == y;
        assert(x <= y);
        assert(y <= x);
        assert(a =~= a.drop_last().push(x));
        assert(b =~= b.drop_last().push(y));
        let ma = a.drop_last().to_multiset();
        let mb = b.drop_last().to_multiset();
        assert(a.drop_last().push(x).to_multiset() == ma.insert(x));
        assert(b.drop_last().push(y).to_multiset() == mb.insert(y));
        assert forall|z: usize| ma.count(z) == mb.count(z) by {
            assert(ma.insert(x).count(z) == mb.insert(x).count(z));
        }
        assert(ma =~= mb);
        lemma_sorted_same_elements(a.drop_last(), b.drop_last());
    }
}

/// Refining a search: where the key of the first query occurs in the key of
/// the second, searching the shown positions for the second after a full
/// search for the first shows the same positions, under the same store, as a
/// full search for the second.
pub proof fn lemma_refine_matches_search(
    m0: FsModel,
    k1: Seq<char>,
    k2: Seq<char>,
    m1: FsModel,
    m2: FsModel,
    m3: FsModel,
)
    requires
        m0.wf(),
        contains_seq(k2, k1),
        search_post(m0, k1, m1),
        search_shown_post(m1, k2, m2),
        search_post(m0, k2, m3),
    ensures
        m2.shown.to_multiset() == m3.shown.to_multiset(),
        m2.same_store(m3),
        m2.order == m3.order,
        m2.direction == m3.direction,
        k2.len() != 0 ==> sorted_by(m2, m2.shown) && sorted_by(m3, m3.shown),
        m0.order == FileOrder::RecordNumber ==> m2.shown == m3.shown,
{
    let all = position_range(m0.len());
    let h1 = hit(m0.lower, k1);
    let h2 = hit(m0.lower, k2);
    if k2.len() == 0 {
        assert(k1.len() == 0);
    } else {
        assert forall|x: usize| #[trigger] m2.shown.to_multiset().count(x) == m3.shown.to_multiset().count(x) by {
            lemma_filter_count(m1.shown, h2, x);
            lemma_filter_count(all, h1, x);
            lemma_filter_count(all, h2, x);
            if h2(x) && k1.len() != 0 {
                lemma_contains_trans(m0.lower[x as int], k2, k1);
            }
        }
        assert(m2.shown.to_multiset() =~= m3.shown.to_multiset());
        if m0.order == FileOrder::RecordNumber {
            assert(non_decreasing(m2.shown)) by {
                assert forall|i: int, j: int| 0 <= i < j < m2.shown.len() implies m2.shown[i] <= m2.shown[j] by {
                    assert(entry_cmp(m2, m2.shown[i], m2.shown[j]) != core::cmp::Ordering::Greater);
                }
            }
            assert(non_decreasing(m3.shown)) by {
                assert forall|i: int, j: int| 0 <= i < j < m3.shown.len() implies m3.shown[i] <= m3.shown[j] by {
                    assert(entry_cmp(m3, m3.shown[i], m3.shown[j]) != core::cmp::Ordering::Greater);
                }
            }
            lemma_sorted_same_elements(m2.shown, m3.shown);
        }
    }
}

/// Toggling the direction after sorting by name ascending gives the exact
/// reverse of the sorted view, which is then in descending order by name.
pub proof fn lemma_toggle_reverses(m1: FsModel, m2: FsModel)
    requires
        m1.order == FileOrder::Name,
        m1.direction == SortDirection::Ascending,
        sorted_by(m1, m1.shown),
        toggle_post(m1, m2),
    ensures
        m2.shown == m1.shown.reverse(),
        m2.order == FileOrder::Name,
        m2.direction == SortDirection::Descending,
        sorted_by(m2, m2.shown),
{
    let n = m1.shown.len();
    assert forall|i: int, j: int| 0 <= i < j < m2.shown.len() implies entry_cmp(
        m2,
        #[trigger] m2.shown[i],
        #[trigger] m2.shown[j],
    ) != core::cmp::Ordering::Greater by {
        assert(m2.shown[i] == m1.shown[n - 1 - i]);
        assert(m2.shown[j] == m1.shown[n - 1 - j]);
        assert(entry_cmp(m1, m1.shown[n - 1 - j], m1.shown[n - 1 - i]) != core::cmp::Ordering::Greater);
    }
}

/// Two views sorted under the same key that hold the same positions are
/// equal when no two of their positions compare equal.
proof fn lemma_sorted_unique_by(m: FsModel, a: Seq<usize>, b: Seq<usize>)
    requires
        forall|i: int| 0 <= i < a.len() ==> (#[trigger] a[i] as int) < m.len(),
        a.to_multiset() == b.to_multiset(),
        sorted_by(m, a),
        sorted_by(m, b),
        forall|i: int, j: int|
            0 <= i < a.len() && 0 <= j < a.len() && a[i] != a[j] ==> entry_cmp(m, #[trigger] a[i], #[trigger] a[j])
                != core::cmp::Ordering::Equal,
    ensures
        a == b,
    decreases a.len(),
{
    lemma_entry_cmp_total(m);
    assert(a.len() == a.to_multiset().len());
    assert(b.len() == b.to_multiset().len());
    if a.len() > 0 {
        let x = a.last();
        let y = b.last();
        assert(a.to_multiset().count(x) > 0);
        assert(b.contains(x));
        assert(b.to_multiset().count(y) > 0);
        assert(a.contains(y));
        let i = choose|i: int| 0 <= i < b.len() && b[i] == x;
        let j = choose|j: int| 0 <= j < a.len() && a[j] == y;
        if x != y {
            assert(entry_cmp(m, x, y) != core::cmp::Ordering::Greater);
            assert(entry_cmp(m, y, x) != core::cmp::Ordering::Greater);
            assert(entry_cmp(m, a[a.len() - 1], a[j]) != core::cmp::Ordering::Equal);
            assert(false);
        }
        assert(a =~= a.drop_last().push(x));
        assert(b =~= b.drop_last().push(y));
        let ma = a.drop_last().to_multiset();
        let mb = b.drop_last().to_multiset();
        assert(a.drop_last().push(x).to_multiset() == ma.insert(x));
        assert(b.drop_last().push(y).to_multiset() == mb.insert(y));
        assert forall|z: usize| ma.count(z) == mb.count(z) by {
            assert(ma.insert(x).count(z) == mb.insert(x).count(z));
        }
        assert(ma =~= mb);
        let a2 = a.drop_last();
        assert forall|i: int, j: int|
            0 <= i < a2.len() && 0 <= j < a2.len() && a2[i] != a2[j] implies entry_cmp(m, #[trigger] a2[i], #[trigger] a2[j])
                != core::cmp::Ordering::Equal by {
            assert(a2[i] == a[i] && a2[j] == a[j]);
        }
        lemma_sorted_unique_by(m, a2, b.drop_last());
    }
}

/// Sorting by name descending, after a sort by name ascending, gives the
/// exact reverse of the ascending view where no two shown entries have the
/// same name: reversing in place is the same as sorting again.
pub proof fn lemma_resort_reverses(m1: FsModel, m3: FsModel)
    requires
        m1.order == FileOrder::Name,
        m1.direction == SortDirection::Ascending,
        m1.view_in_bounds(),
        sorted_by(m1, m1.shown),
        forall|i: int, j: int|
            0 <= i < m1.shown.len() && 0 <= j < m1.shown.len() && m1.shown[i] != m1.shown[j]
                ==> m1.names[#[trigger] m1.shown[i] as int] != m1.names[#[trigger] m1.shown[j] as int],
        sort_post(FsModel { direction: SortDirection::Descending, ..m1 }, m3),
    ensures
        m3.shown == m1.shown.reverse(),
{
    let m2 = FsModel { direction: SortDirection::Descending, ..m1 };
    let r = m1.shown.reverse();
    let n = m1.shown.len();
    m1.shown.lemma_reverse_to_multiset();
    assert forall|i: int, j: int| 0 <= i < j < r.len() implies entry_cmp(
        m3,
        #[trigger] r[i],
        #[trigger] r[j],
    ) != core::cmp::Ordering::Greater by {
        assert(r[i] == m1.shown[n - 1 - i]);
        assert(r[j] == m1.shown[n - 1 - j]);
        assert(entry_cmp(m1, m1.shown[n - 1 - j], m1.shown[n - 1 - i]) != core::cmp::Ordering::Greater);
    }
    assert forall|i: int| 0 <= i < r.len() implies (#[trigger] r[i] as int) < m3.len() by {
        assert(r[i] == m1.shown[n - 1 - i]);
    }
    assert forall|i: int, j: int|
        0 <= i < r.len() && 0 <= j < r.len() && r[i] != r[j] implies entry_cmp(m3, #[trigger] r[i], #[trigger] r[j])
            != core::cmp::Ordering::Equal by {
        assert(r[i] == m1.shown[n - 1 - i]);
        assert(r[j] == m1.shown[n - 1 - j]);
        assert(m1.names[r[i] as int] != m1.names[r[j] as int]);
        crate::text::lemma_lex_equal(m1.names[r[j] as int], m1.names[r[i] as int]);
    }
    lemma_sorted_unique_by(m3, r, m3.shown);
}

/// Deleting a known entry: one entry fewer, the record number becomes
/// unknown, and where the entry was not last, the former last entry now
/// sits at the freed position and the map points there; where it was last,
/// the rest stays where it was.
pub proof fn lemma_delete_relocates(m: FsModel, rid: u64, new: FsModel)
    requires
        m.consistent(),
        m.pos_of(rid) is Some,
        m.delete_post(rid, new),
    ensures
        new.len() == m.len() - 1,
        new.pos_of(rid) is None,
        ({
            let p = m.pos_of(rid).unwrap() as int;
            let last = m.len() - 1;
            if p != last {
                &&& new.frns[p] == m.frns[last]
                &&& new.pos_of(m.frns[last]) == Some(p as usize)
                &&& forall|q: int| 0 <= q < new.len() && q != p ==> new.frns[q] == m.frns[q]
            } else {
                &&& new.frns == m.frns.drop_last()
                &&& forall|r: u64| r != rid ==> new.pos_of(r) == m.pos_of(r)
            }
        }),
{
    let p = m.pos_of(rid).unwrap() as int;
    let last = m.len() - 1;
    assert(m.positions[m.frns[last] as int] as int == last);
    if p == last {
        assert(new.frns =~= m.frns.drop_last());
    }
}

/// Deleting the same file twice: the second delete changes nothing.
pub proof fn lemma_delete_twice(m0: FsModel, rid: u64, m1: FsModel, m2: FsModel)
    requires
        m0.consistent(),
        m0.delete_post(rid, m1),
        m1.delete_post(rid, m2),
    ensures
        m2 == m1,
{
    if m0.pos_of(rid) is Some {
        let last = m0.len() - 1;
        assert(m0.positions[m0.frns[last] as int] as int == last);
        assert(m1.pos_of(rid) is None);
    }
}

/// Renaming a file the index does not know changes nothing, and no rename
/// changes the number of entries.
pub proof fn lemma_rename_keeps_count(
    m: FsModel,
    rid: u64,
    parent: u64,
    name: Option<Seq<char>>,
    new: FsModel,
)
    requires
        m.rename_post(rid, parent, name, new),
    ensures
        new.len() == m.len(),
        m.pos_of(rid) is None ==> new == m,
{
}

/// A consistent store has exactly one occupied map entry per entry.
pub proof fn lemma_occupied_count(m: FsModel)
    requires
        m.consistent(),
    ensures
        occupied_rids(m) == m.frns.to_set(),
        occupied_rids(m).len() == m.len(),
{
    assert forall|r: u64| #[trigger] occupied_rids(m).contains(r) <==> m.frns.to_set().contains(r) by {
        if m.pos_of(r) is Some {
            assert(m.positions[r as int] != NO_POSITION);
            assert(m.frns[m.positions[r as int] as int] == r);
            assert(m.frns.contains(r));
        }
        if m.frns.to_set().contains(r) {
            assert(m.frns.contains(r));
            let p = choose|p: int| 0 <= p < m.frns.len() && m.frns[p] == r;
            assert(m.positions[m.frns[p] as int] as int == p);
            assert(m.pos_of(r) is Some);
        }
    }
    assert(occupied_rids(m) =~= m.frns.to_set());
    assert forall|a: int, b: int| 0 <= a < m.len() && 0 <= b < m.len() && a != b implies m.frns[a]
        != m.frns[b] by {
        assert(m.positions[m.frns[a] as int] as int == a);
        assert(m.positions[m.frns[b] as int] as int == b);
    }
    m.frns.unique_seq_to_set();
}

/// A bulk load of `N` records in use gives `N` entries, a view of all `N`
/// positions in record order, and exactly `N` occupied map entries.
pub proof fn lemma_load_counts(records: Seq<crate::filesystem::ScanRecord>, m: FsModel)
    requires
        m.consistent(),
        m.frns == in_use(records).map_values(|x: crate::filesystem::ScanRecord| x.number),
        m.shown == position_range(m.len()),
    ensures
        m.len() == in_use(records).len(),
        m.shown == position_range(in_use(records).len() as int),
        occupied_rids(m).len() == in_use(records).len(),
{
    lemma_occupied_count(m);
}

/// The path of an entry ends in the chain of its parents: with the entry's
/// own name added, the last component is that name, each position on the
/// chain (entry first, root-most last) has as parent the record number of
/// the next, and the root-most one has the root as parent.
pub proof fn lemma_path_chain(m: FsModel, p: usize)
    requires
        m.wf(),
        (p as int) < m.len(),
        path_of(m, p) is Some,
    ensures
        path_of(m, p).unwrap().push(m.names[p as int]).last() == m.names[p as int],
        ({
            let chain = seq![p] + ancestors(m, p, m.len() as nat).unwrap();
            &&& path_of(m, p).unwrap().len() == chain.len()
            &&& m.parents[chain.last() as int] == ROOT_FRN
            &&& forall|i: int| 0 <= i < chain.len() - 1 ==> m.frns[#[trigger] chain[i + 1] as int] == m.parents[chain[i] as int]
        }),
{
    lemma_chain(m, p, m.len() as nat);
}

proof fn lemma_chain(m: FsModel, p: usize, fuel: nat)
    requires
        m.wf(),
        (p as int) < m.len(),
        ancestors(m, p, fuel) is Some,
    ensures
        ({
            let chain = seq![p] + ancestors(m, p, fuel).unwrap();
            &&& m.parents[chain.last() as int] == ROOT_FRN
            &&& forall|i: int| 0 <= i < chain.len() - 1 ==> m.frns[#[trigger] chain[i + 1] as int] == m.parents[chain[i] as int]
        }),
    decreases fuel,
{
    if m.parents[p as int] != ROOT_FRN {
        let q = m.pos_of(m.parents[p as int]).unwrap();
        let rest = ancestors(m, q, (fuel - 1) as nat).unwrap();
        lemma_chain(m, q, (fuel - 1) as nat);
        let tail = seq![q] + rest;
        assert(ancestors(m, p, fuel) == Some(tail));
        let chain = seq![p] + ancestors(m, p, fuel).unwrap();
        assert(chain =~= seq![p] + tail);
        assert(m.positions[m.parents[p as int] as int] != NO_POSITION);
        assert(m.frns[q as int] == m.parents[p as int]);
        assert forall|i: int| 0 <= i < chain.len() - 1 implies m.frns[#[trigger] chain[i + 1] as int] == m.parents[chain[i] as int] by {
            if i == 0 {
                assert(chain[1] == q);
            } else {
                assert(chain[i] == tail[i - 1]);
                assert(chain[i + 1] == tail[i]);
                assert(m.frns[tail[(i - 1) + 1] as int] == m.parents[tail[i - 1] as int]);
            }
        }
    }
}


/// `c` is a chain of parent links: it starts at an entry, each next position
/// is where the map holds the parent of the one before (none of them being a
/// child of the root), and the last one is a child of the root.
pub open spec fn parent_chain(m: FsModel, c: Seq<usize>) -> bool {
    &&& c.len() > 0
    &&& forall|i: int| 0 <= i < c.len() ==> (#[trigger] c[i] as int) < m.len()
    &&& forall|i: int|
        0 <= i < c.len() - 1 ==> m.parents[#[trigger] c[i] as int] != ROOT_FRN && m.pos_of(
            m.parents[c[i] as int],
        ) == Some(c[i + 1])
    &&& m.parents[c.last() as int] == ROOT_FRN
}

/// Following a chain of parent links with enough steps finds it.
proof fn lemma_chain_found(m: FsModel, c: Seq<usize>, fuel: nat)
    requires
        parent_chain(m, c),
        fuel + 1 >= c.len(),
    ensures
        ancestors(m, c[0], fuel) == Some(c.drop_first()),
    decreases c.len(),
{
    if c.len() == 1 {
        assert(c.drop_first() =~= Seq::<usize>::empty());
    } else {
        let t = c.drop_first();
        assert(m.parents[c[0] as int] != ROOT_FRN);
        assert(m.pos_of(m.parents[c[0] as int]) == Some(c[1]));
        assert forall|i: int| 0 <= i < t.len() - 1 implies m.parents[#[trigger] t[i] as int] != ROOT_FRN
            && m.pos_of(m.parents[t[i] as int]) == Some(t[i + 1]) by {
            assert(t[i] == c[i + 1] && t[i + 1] == c[i + 2]);
        }
        assert forall|i: int| 0 <= i < t.len() implies (#[trigger] t[i] as int) < m.len() by {
            assert(t[i] == c[i + 1]);
        }
        lemma_chain_found(m, t, (fuel - 1) as nat);
        assert(seq![c[1]] + t.drop_first() =~= t);
        assert(prepend(seq![c[1]], ancestors(m, c[1], (fuel - 1) as nat)) == Some(t));
    }
}

/// A chain that passes no position twice has at most as many positions as
/// there are entries.
proof fn lemma_chain_short(m: FsModel, c: Seq<usize>)
    requires
        parent_chain(m, c),
        c.no_duplicates(),
    ensures
        c.len() <= m.len(),
{
    let ci = c.map_values(|x: usize| x as int);
    assert forall|i: int, j: int| 0 <= i < ci.len() && 0 <= j < ci.len() && i != j implies ci[i] != ci[j] by {
        assert(c[i] != c[j]);
    }
    assert(ci.no_duplicates());
    ci.unique_seq_to_set();
    vstd::set_lib::lemma_int_range(0, m.len());
    assert forall|x: int| ci.to_set().contains(x) implies vstd::set_lib::set_int_range(0, m.len()).contains(x) by {
        let i = choose|i: int| 0 <= i < ci.len() && ci[i] == x;
        assert((c[i] as int) < m.len());
    }
    vstd::set_lib::lemma_len_subset(ci.to_set(), vstd::set_lib::set_int_range(0, m.len()));
}

/// An entry whose parent links reach the root without passing a position
/// twice has a path: the volume root, then the names along the chain from the
/// root down, so each component's entry is the parent of the next and the
/// first is a child of the root.
pub proof fn lemma_acyclic_chain_has_path(m: FsModel, c: Seq<usize>)
    requires
        m.wf(),
        parent_chain(m, c),
        c.no_duplicates(),
    ensures
        ancestors(m, c[0], m.len() as nat) == Some(c.drop_first()),
        path_of(m, c[0]) == Some(
            seq![m.volume] + c.drop_first().reverse().map_values(|q: usize| m.names[q as int]),
        ),
{
    lemma_chain_short(m, c);
    lemma_chain_found(m, c, m.len() as nat);
}

} // verus!
