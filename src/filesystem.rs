//! The record store: parallel arrays of entries, the sparse map from record
//! number to position, and the mutations that keep the two in step.
use vstd::prelude::*;

use crate::codec::{file_id_to_frn, frn_of, FileId};
use crate::text::{lower_of, to_lowercase};

verus! {

/// Marks a record number that has no entry in the position map.
pub const NO_POSITION: usize = usize::MAX;

/// Direction of the active sort key.
#[derive(Clone, Copy, Debug, PartialEq, Eq, Structural)]
pub enum SortDirection {
    Ascending,
    Descending,
}

/// Key by which the view is ordered. Ordering by modification date is
/// declared but has no comparator.
#[derive(Clone, Copy, Debug, PartialEq, Eq, Structural)]
pub enum FileOrder {
    RecordNumber,
    Name,
    ModifedDate,
    Size,
}

/// Index of every file on a volume.
pub struct FileSystem {
    /// Position of each record number's entry, indexed by record number, or `NO_POSITION`.
    pub position_mapping: Vec<usize>,
    /// Record number of the entry at each position.
    pub frn_mapping: Vec<u64>,
    /// Record number of the parent directory of the entry at each position.
    pub parent_mapping: Vec<u64>,
    pub filesizes: Vec<u64>,
    pub modified_dates: Vec<Option<u64>>,
    pub filenames: Vec<String>,
    /// Lowercase form of each name, the key that searches look in.
    pub lowercase_filenames: Vec<String>,
    /// The current query result: positions in display order.
    pub shown: Vec<usize>,
    pub volume_path: String,
    pub order: FileOrder,
    pub direction: SortDirection,
}

/// One record of a full scan of the volume's file table.
pub struct ScanRecord {
    pub number: u64,
    pub parent: u64,
    pub name: String,
    pub size: u64,
    pub modified: Option<u64>,
    pub in_use: bool,
}

/// The mathematical content of a `FileSystem`.
pub struct FsModel {
    pub positions: Seq<usize>,
    pub frns: Seq<u64>,
    pub parents: Seq<u64>,
    pub sizes: Seq<u64>,
    pub dates: Seq<Option<u64>>,
    pub names: Seq<Seq<char>>,
    pub lower: Seq<Seq<char>>,
    pub shown: Seq<usize>,
    pub volume: Seq<char>,
    pub order: FileOrder,
    pub direction: SortDirection,
}

/// `s` with its element at `p` replaced by its last one, and the last one dropped.
pub open spec fn swap_removed<A>(s: Seq<A>, p: int) -> Seq<A> {
    s.update(p, s.last()).drop_last()
}

/// `s` extended with `NO_POSITION` entries until it has at least `n` of them.
pub open spec fn grown_to(s: Seq<usize>, n: int) -> Seq<usize> {
    if s.len() >= n {
        s
    } else {
        s + Seq::new((n - s.len()) as nat, |i: int| NO_POSITION)
    }
}

/// `s` is in non-decreasing order.
pub open spec fn non_decreasing(s: Seq<usize>) -> bool {
    forall|i: int, j: int| 0 <= i < j < s.len() ==> s[i] <= s[j]
}

/// The positions `0..n` in record order.
pub open spec fn position_range(n: int) -> Seq<usize> {
    Seq::new(n as nat, |i: int| i as usize)
}

impl FsModel {
    pub open spec fn len(self) -> int {
        self.frns.len() as int
    }

    /// The position that the map holds for `rid`, if any.
    pub open spec fn pos_of(self, rid: u64) -> Option<usize> {
        if (rid as int) < self.positions.len() && self.positions[rid as int] != NO_POSITION {
            Some(self.positions[rid as int])
        } else {
            None
        }
    }

    /// Structural well-formedness: the parallel arrays have one length, every
    /// map entry that is not the sentinel names a position holding its record
    /// number, every stored record number lies inside the map, and each
    /// lowercase name is the lowercase form of its name.
    pub open spec fn wf(self) -> bool {
        &&& self.len() < NO_POSITION
        &&& self.parents.len() == self.len()
        &&& self.sizes.len() == self.len()
        &&& self.dates.len() == self.len()
        &&& self.names.len() == self.len()
        &&& self.lower.len() == self.len()
        &&& forall|r: int|
            0 <= r < self.positions.len() && #[trigger] self.positions[r] != NO_POSITION ==> {
                &&& (self.positions[r] as int) < self.len()
                &&& self.frns[self.positions[r] as int] as int == r
            }
        &&& forall|p: int| 0 <= p < self.len() ==> (#[trigger] self.frns[p] as int) < self.positions.len()
        &&& forall|p: int| 0 <= p < self.len() ==> #[trigger] self.lower[p] == lower_of(self.names[p])
    }

    /// The map and the store agree both ways: every stored entry is the one
    /// that the map holds for its record number.
    pub open spec fn consistent(self) -> bool {
        &&& self.wf()
        &&& forall|p: int| 0 <= p < self.len() ==> self.positions[#[trigger] self.frns[p] as int] as int == p
    }

    /// Every position in the view addresses an entry.
    pub open spec fn view_in_bounds(self) -> bool {
        forall|i: int| 0 <= i < self.shown.len() ==> (#[trigger] self.shown[i] as int) < self.len()
    }

    /// Everything but the view, the sort key and the direction is the same.
    pub open spec fn same_store(self, other: FsModel) -> bool {
        &&& self.positions == other.positions
        &&& self.frns == other.frns
        &&& self.parents == other.parents
        &&& self.sizes == other.sizes
        &&& self.dates == other.dates
        &&& self.names == other.names
        &&& self.lower == other.lower
        &&& self.volume == other.volume
    }

    /// `new` is `self` after deleting the entry of `rid`: nothing changes for
    /// an unknown `rid`; otherwise the entry leaves by swap-remove, the entry
    /// that was last moves to the freed position and the map follows it, and
    /// the view loses the freed position where it holds it.
    pub open spec fn delete_post(self, rid: u64, new: FsModel) -> bool {
        match self.pos_of(rid) {
            None => new == self,
            Some(p) => {
                let p = p as int;
                let last = self.len() - 1;
                &&& new.frns == swap_removed(self.frns, p)
                &&& new.parents == swap_removed(self.parents, p)
                &&& new.sizes == swap_removed(self.sizes, p)
                &&& new.dates == swap_removed(self.dates, p)
                &&& new.names == swap_removed(self.names, p)
                &&& new.lower == swap_removed(self.lower, p)
                &&& new.positions == if p == last {
                    self.positions.update(rid as int, NO_POSITION)
                } else {
                    self.positions.update(rid as int, NO_POSITION).update(
                        self.frns[last] as int,
                        p as usize,
                    )
                }
                &&& if self.shown.contains(p as usize) {
                    exists|i: int|
                        0 <= i < self.shown.len() && self.shown[i] == p as usize && new.shown
                            == #[trigger] self.shown.remove(i)
                } else {
                    new.shown == self.shown
                }
                &&& new.volume == self.volume
                &&& new.order == self.order
                &&& new.direction == self.direction
            },
        }
    }

    /// `new` is `self` after a create event for `rid` under `parent`: nothing
    /// changes without a name; otherwise a new last entry with that name, no
    /// size and no date, and the map, grown as needed, points `rid` at it.
    pub open spec fn create_post(
        self,
        rid: u64,
        parent: u64,
        name: Option<Seq<char>>,
        new: FsModel,
    ) -> bool {
        match name {
            None => new == self,
            Some(n) => {
                &&& new.frns == self.frns.push(rid)
                &&& new.parents == self.parents.push(parent)
                &&& new.sizes == self.sizes.push(0)
                &&& new.dates == self.dates.push(None)
                &&& new.names == self.names.push(n)
                &&& new.lower == self.lower.push(lower_of(n))
                &&& new.positions == grown_to(self.positions, rid + 1).update(
                    rid as int,
                    self.len() as usize,
                )
                &&& new.shown == self.shown
                &&& new.volume == self.volume
                &&& new.order == self.order
                &&& new.direction == self.direction
            },
        }
    }

    /// `new` is `self` after a rename event for `rid`: nothing changes for an
    /// unknown `rid`; otherwise the entry keeps its position and record number,
    /// takes the new parent, and takes the new name where one is given.
    pub open spec fn rename_post(
        self,
        rid: u64,
        parent: u64,
        name: Option<Seq<char>>,
        new: FsModel,
    ) -> bool {
        match (self.pos_of(rid), name) {
            (Some(p), Some(n)) => {
                let p = p as int;
                &&& new.parents == self.parents.update(p, parent)
                &&& new.names == self.names.update(p, n)
                &&& new.lower == self.lower.update(p, lower_of(n))
                &&& new.positions == self.positions
                &&& new.frns == self.frns
                &&& new.sizes == self.sizes
                &&& new.dates == self.dates
                &&& new.shown == self.shown
                &&& new.volume == self.volume
                &&& new.order == self.order
                &&& new.direction == self.direction
            },
            _ => new == self,
        }
    }
}

/// The view of a name argument that may be absent.
pub open spec fn name_view(name: Option<&str>) -> Option<Seq<char>> {
    match name {
        Some(n) => Some(n@),
        None => None,
    }
}

impl View for FileSystem {
    type V = FsModel;

    open spec fn view(&self) -> FsModel {
        FsModel {
            positions: self.position_mapping@,
            frns: self.frn_mapping@,
            parents: self.parent_mapping@,
            sizes: self.filesizes@,
            dates: self.modified_dates@,
            names: self.filenames@.map_values(|s: String| s@),
            lower: self.lowercase_filenames@.map_values(|s: String| s@),
            shown: self.shown@,
            volume: self.volume_path@,
            order: self.order,
            direction: self.direction,
        }
    }
}

/// Extends the map with `NO_POSITION` entries until `rid` indexes it.
pub(crate) fn grow_positions(positions: &mut Vec<usize>, rid: u64)
    ensures
        final(positions)@ == grown_to(old(positions)@, rid + 1),
{
    let ghost start = positions@;
    while (positions.len() as u64) <= rid
        invariant
            positions@.len() >= start.len(),
            positions@.len() <= start.len() || positions@.len() <= rid + 1,
            positions@.subrange(0, start.len() as int) == start,
            forall|i: int| start.len() <= i < positions@.len() ==> positions@[i] == NO_POSITION,
        decreases rid + 1 - positions@.len(),
    {
        positions.push(NO_POSITION);
    }
    assert(positions@ =~= grown_to(start, rid + 1));
}

/// A record number that indexes a vector of `len` elements, as an index.
pub(crate) fn as_index(x: u64, len: usize) -> (r: usize)
    requires
        (x as int) < len,
    ensures
        r as int == x as int,
{
    x as usize
}

impl FileSystem {
    /// The well-formedness of the store.
    pub open spec fn wf(&self) -> bool {
        &&& self@.wf()
    }

    /// Number of entries.
    pub fn len(&self) -> (r: usize)
        requires
            self.wf(),
        ensures
            r == self@.len(),
    {
        self.frn_mapping.len()
    }

    /// The position of the entry of record number `rid`, if there is one.
    pub fn position_of(&self, rid: u64) -> (r: Option<usize>)
        requires
            self.wf(),
        ensures
            r == self@.pos_of(rid),
            r matches Some(p) ==> (p as int) < self@.len() && self@.frns[p as int] == rid,
    {
        if rid < self.position_mapping.len() as u64 {
            let p = self.position_mapping[as_index(rid, self.position_mapping.len())];
            if p != NO_POSITION {
                return Some(p);
            }
        }
        None
    }
}


/// Searches `v` for `x` by halving: on a vector in non-decreasing order,
/// `Ok` gives an index that holds `x`, and `Err` the index where `x` would
/// go, as `x` is absent.
fn binary_search(v: &Vec<usize>, x: usize) -> (r: Result<usize, usize>)
    ensures
        match r {
            Ok(i) => i < v@.len() && v@[i as int] == x,
            Err(_) => non_decreasing(v@) ==> !v@.contains(x),
        },
{
    let mut lo: usize = 0;
    let mut hi: usize = v.len();
    while lo < hi
        invariant
            lo <= hi <= v@.len(),
            non_decreasing(v@) ==> forall|k: int| 0 <= k < lo ==> v@[k] < x,
            non_decreasing(v@) ==> forall|k: int| hi <= k < v@.len() ==> v@[k] > x,
        decreases hi - lo,
    {
        let mid = lo + (hi - lo) / 2;
        if v[mid] < x {
            lo = mid + 1;
        } else if v[mid] > x {
            hi = mid;
        } else {
            return Ok(mid);
        }
    }
    Err(lo)
}

/// The first index of `v` that holds `x`, if any. Finds the freed position
/// where the view is not in position order.
fn find_position(v: &Vec<usize>, x: usize) -> (r: Option<usize>)
    ensures
        match r {
            Some(i) => i < v@.len() && v@[i as int] == x,
            None => !v@.contains(x),
        },
{
    let mut i: usize = 0;
    while i < v.len()
        invariant
            i <= v@.len(),
            forall|k: int| 0 <= k < i ==> v@[k] != x,
        decreases v@.len() - i,
    {
        if v[i] == x {
            return Some(i);
        }
        i = i + 1;
    }
    None
}

impl FileSystem {
    /// Stores a new last entry and returns its position. The map is left as
    /// it is: the caller points the record number at the new position.
    pub fn append(
        &mut self,
        rid: u64,
        parent_rid: u64,
        name: String,
        size: u64,
        modified: Option<u64>,
    ) -> (r: usize)
        requires
            old(self)@.len() + 1 < usize::MAX,
            old(self)@.names.len() == old(self)@.len(),
            old(self)@.lower.len() == old(self)@.len(),
        ensures
            r as int == old(self)@.len(),
            final(self)@.frns == old(self)@.frns.push(rid),
            final(self)@.parents == old(self)@.parents.push(parent_rid),
            final(self)@.sizes == old(self)@.sizes.push(size),
            final(self)@.dates == old(self)@.dates.push(modified),
            final(self)@.names == old(self)@.names.push(name@),
            final(self)@.lower == old(self)@.lower.push(lower_of(name@)),
            final(self)@.positions == old(self)@.positions,
            final(self)@.shown == old(self)@.shown,
            final(self)@.volume == old(self)@.volume,
            final(self).order == old(self).order,
            final(self).direction == old(self).direction,
    {
        let ghost m = self@;
        let position = self.frn_mapping.len();
        self.lowercase_filenames.push(to_lowercase(name.as_str()));
        self.filenames.push(name);
        self.filesizes.push(size);
        self.modified_dates.push(modified);
        self.frn_mapping.push(rid);
        self.parent_mapping.push(parent_rid);
        proof {
            assert(self@.names =~= m.names.push(name@));
            assert(self@.lower =~= m.lower.push(lower_of(name@)));
        }
        position
    }

    /// Removes the entry at `position` by moving the last entry into its
    /// place. Returns the record number that now sits at `position`, or `None`
    /// where `position` was last. The map is left as it is: the caller points
    /// the moved record number at `position`.
    pub fn swap_remove(&mut self, position: usize) -> (r: Option<u64>)
        requires
            old(self)@.wf(),
            (position as int) < old(self)@.len(),
        ensures
            r == if position as int == old(self)@.len() - 1 {
                None
            } else {
                Some(old(self)@.frns.last())
            },
            final(self)@.frns == swap_removed(old(self)@.frns, position as int),
            final(self)@.parents == swap_removed(old(self)@.parents, position as int),
            final(self)@.sizes == swap_removed(old(self)@.sizes, position as int),
            final(self)@.dates == swap_removed(old(self)@.dates, position as int),
            final(self)@.names == swap_removed(old(self)@.names, position as int),
            final(self)@.lower == swap_removed(old(self)@.lower, position as int),
            final(self)@.positions == old(self)@.positions,
            final(self)@.shown == old(self)@.shown,
            final(self)@.volume == old(self)@.volume,
            final(self).order == old(self).order,
            final(self).direction == old(self).direction,
    {
        let ghost m = self@;
        let last = self.frn_mapping.len() - 1;
        let moved = self.frn_mapping[last];
        self.filenames.swap_remove(position);
        self.lowercase_filenames.swap_remove(position);
        self.filesizes.swap_remove(position);
        self.modified_dates.swap_remove(position);
        self.frn_mapping.swap_remove(position);
        self.parent_mapping.swap_remove(position);
        proof {
            assert(self@.names =~= swap_removed(m.names, position as int));
            assert(self@.lower =~= swap_removed(m.lower, position as int));
        }
        if position == last {
            None
        } else {
            Some(moved)
        }
    }
}

impl FileSystem {
    /// Applies a delete event: the entry of the file's record number leaves
    /// the store and its position leaves the view; an unknown file is ignored.
    pub fn delete(&mut self, file_id: FileId)
        requires
            old(self).wf(),
        ensures
            final(self).wf(),
            old(self)@.delete_post(frn_of(file_id), final(self)@),
            old(self)@.consistent() ==> final(self)@.consistent(),
    {
        let frn = file_id_to_frn(file_id);
        let ghost m = self@;
        let p = match self.position_of(frn) {
            None => {
                return ;
            },
            Some(p) => p,
        };
        let last = self.frn_mapping.len() - 1;
        let replacement = self.swap_remove(p);
        let freed = as_index(frn, self.position_mapping.len());
        self.position_mapping[freed] = NO_POSITION;
        if let Some(moved_rid) = replacement {
            let moved = as_index(moved_rid, self.position_mapping.len());
            self.position_mapping[moved] = p;
        }
        let mut found: Option<usize> = None;
        if let Ok(i) = binary_search(&self.shown, p) {
            found = Some(i);
        }
        if found.is_none() {
            found = find_position(&self.shown, p);
        }
        if let Some(i) = found {
            self.shown.remove(i);
        }
        proof {
            let n = self@;
            assert forall|r: int|
                0 <= r < n.positions.len() && #[trigger] n.positions[r] != NO_POSITION implies {
                &&& (n.positions[r] as int) < n.len()
                &&& n.frns[n.positions[r] as int] as int == r
            } by {
                if r != frn as int && !(p != last && r == m.frns[last as int] as int) {
                    assert(m.positions[r] != NO_POSITION);
                    assert(m.frns[m.positions[r] as int] as int == r);
                }
            }
            assert forall|q: int| 0 <= q < n.len() implies #[trigger] n.lower[q] == lower_of(
                n.names[q],
            ) by {
                if q == p as int {
                    assert(m.lower[last as int] == lower_of(m.names[last as int]));
                } else {
                    assert(m.lower[q] == lower_of(m.names[q]));
                }
            }
            assert forall|q: int| 0 <= q < n.len() implies (#[trigger] n.frns[q] as int)
                < n.positions.len() by {
                if q == p as int {
                    assert((m.frns[last as int] as int) < m.positions.len());
                } else {
                    assert((m.frns[q] as int) < m.positions.len());
                }
            }
            if m.consistent() {
                assert forall|q: int| 0 <= q < n.len() implies n.positions[#[trigger] n.frns[q] as int]
                    as int == q by {
                    if q == p as int {
                    } else {
                        assert(m.positions[m.frns[q] as int] as int == q);
                        assert(m.frns[q] != frn);
                        assert(m.positions[m.frns[last as int] as int] as int == last);
                    }
                }
            }
            if let Some(i) = found {
                assert(m.shown.contains(p));
                assert(n.shown == m.shown.remove(i as int));
            }
        }
    }

    /// Applies a create event: a named file becomes a new last entry, with no
    /// size and no date, and the map (grown as needed) points at it; without
    /// a name nothing changes.
    pub fn create(&mut self, file_id: FileId, parent_id: FileId, file_name: Option<&str>)
        requires
            old(self).wf(),
            old(self)@.len() + 1 < usize::MAX,
        ensures
            final(self).wf(),
            old(self)@.create_post(
                frn_of(file_id),
                frn_of(parent_id),
                name_view(file_name),
                final(self)@,
            ),
            old(self)@.consistent() && old(self)@.pos_of(frn_of(file_id)) is None
                ==> final(self)@.consistent(),
    {
        if let Some(name) = file_name {
            let frn = file_id_to_frn(file_id);
            let parent = file_id_to_frn(parent_id);
            let ghost m = self@;
            let position = self.append(frn, parent, name.to_owned(), 0, None);
            grow_positions(&mut self.position_mapping, frn);
            let slot = as_index(frn, self.position_mapping.len());
            self.position_mapping[slot] = position;
            proof {
                let n = self@;
                assert forall|r: int|
                    0 <= r < n.positions.len() && #[trigger] n.positions[r] != NO_POSITION implies {
                    &&& (n.positions[r] as int) < n.len()
                    &&& n.frns[n.positions[r] as int] as int == r
                } by {
                    if r != frn as int {
                        assert(r < m.positions.len());
                        assert(m.positions[r] != NO_POSITION);
                    }
                }
                assert forall|q: int| 0 <= q < n.len() implies #[trigger] n.lower[q] == lower_of(
                    n.names[q],
                ) by {
                    if q < m.len() {
                        assert(m.lower[q] == lower_of(m.names[q]));
                    }
                }
                assert forall|q: int| 0 <= q < n.len() implies (#[trigger] n.frns[q] as int)
                    < n.positions.len() by {
                    if q < m.len() {
                        assert((m.frns[q] as int) < m.positions.len());
                    }
                }
                if m.consistent() && m.pos_of(frn) is None {
                    assert forall|q: int| 0 <= q < n.len() implies n.positions[#[trigger] n.frns[q]
                        as int] as int == q by {
                        if q < m.len() {
                            assert(m.positions[m.frns[q] as int] as int == q);
                            assert(m.frns[q] != frn);
                        }
                    }
                }
            }
        }
    }

    /// Applies a rename event: a known file takes the new parent, and the new
    /// name where the event carries one; position and record number stay.
    /// An unknown file is ignored.
    pub fn rename(&mut self, file_id: FileId, parent_id: FileId, file_name: Option<&str>)
        requires
            old(self).wf(),
        ensures
            final(self).wf(),
            old(self)@.rename_post(
                frn_of(file_id),
                frn_of(parent_id),
                name_view(file_name),
                final(self)@,
            ),
            old(self)@.consistent() ==> final(self)@.consistent(),
    {
        let frn = file_id_to_frn(file_id);
        let parent = file_id_to_frn(parent_id);
        let ghost m = self@;
        let p = match self.position_of(frn) {
            None => {
                return ;
            },
            Some(p) => p,
        };
        let name = match file_name {
            None => {
                return ;
            },
            Some(name) => name,
        };
        self.lowercase_filenames[p] = to_lowercase(name);
        self.filenames[p] = name.to_owned();
        proof {
            assert(self@.names =~= m.names.update(p as int, name@));
            assert(self@.lower =~= m.lower.update(p as int, lower_of(name@)));
        }
        self.parent_mapping[p] = parent;
        proof {
            let n = self@;
            assert(n.names.len() == m.names.len());
            assert forall|q: int| 0 <= q < n.len() implies #[trigger] n.lower[q] == lower_of(
                n.names[q],
            ) by {
                if q != p as int {
                    assert(m.lower[q] == lower_of(m.names[q]));
                }
            }
        }
    }

    /// Applies an attribute or time stamp change event. Nothing in the store
    /// tracks those yet, so the store is left as it is.
    pub fn update(&mut self, file_id: FileId, parent_id: FileId, file_name: Option<&str>)
        requires
            old(self).wf(),
        ensures
            final(self)@ == old(self)@,
            final(self).wf(),
    {
    }
}

} // verus!
