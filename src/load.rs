//! Bulk ingestion of a full scan of the volume's file table.
use vstd::prelude::*;

use crate::filesystem::{
    as_index, grow_positions, position_range, FileOrder, FileSystem, ScanRecord, SortDirection,
    NO_POSITION,
};
use crate::query::all_positions;
use crate::text::lower_of;

verus! {

/// The records of a scan that are in use, in scan order.
pub open spec fn in_use(rs: Seq<ScanRecord>) -> Seq<ScanRecord> {
    rs.filter(|r: ScanRecord| r.in_use)
}

/// Record numbers rise strictly through the scan.
pub open spec fn strictly_increasing(rs: Seq<ScanRecord>) -> bool {
    forall|i: int, j: int| 0 <= i < j < rs.len() ==> rs[i].number < rs[j].number
}

impl FileSystem {
    /// Builds the index from a scan: each record in use becomes an entry, in
    /// scan order, the map starts with room for `capacity` record numbers
    /// (grown where a record needs more), and the view shows every position
    /// in record order.
    pub fn load(volume_path: String, capacity: usize, records: &Vec<ScanRecord>) -> (r: FileSystem)
        requires
            strictly_increasing(records@),
            records@.len() < usize::MAX,
        ensures
            r.wf(),
            r@.consistent(),
            r@.frns == in_use(records@).map_values(|x: ScanRecord| x.number),
            r@.parents == in_use(records@).map_values(|x: ScanRecord| x.parent),
            r@.sizes == in_use(records@).map_values(|x: ScanRecord| x.size),
            r@.dates == in_use(records@).map_values(|x: ScanRecord| x.modified),
            r@.names == in_use(records@).map_values(|x: ScanRecord| x.name@),
            r@.positions.len() >= capacity,
            r@.shown == position_range(r@.len()),
            r@.volume == volume_path@,
            r.order == FileOrder::RecordNumber,
            r.direction == SortDirection::Descending,
    {
        let mut fs = FileSystem {
            position_mapping: vec![NO_POSITION; capacity],
            frn_mapping: Vec::new(),
            parent_mapping: Vec::new(),
            filesizes: Vec::new(),
            modified_dates: Vec::new(),
            filenames: Vec::new(),
            lowercase_filenames: Vec::new(),
            shown: Vec::new(),
            volume_path,
            order: FileOrder::RecordNumber,
            direction: SortDirection::Descending,
        };
        let mut i: usize = 0;
        while i < records.len()
            invariant
                i <= records@.len(),
                records@.len() < usize::MAX,
                strictly_increasing(records@),
                fs@.consistent(),
                fs@.len() <= i,
                fs@.positions.len() >= capacity,
                fs@.shown.len() == 0,
                fs@.volume == volume_path@,
                fs.order == FileOrder::RecordNumber,
                fs.direction == SortDirection::Descending,
                fs@.frns == in_use(records@.subrange(0, i as int)).map_values(|x: ScanRecord| x.number),
                fs@.parents == in_use(records@.subrange(0, i as int)).map_values(|x: ScanRecord| x.parent),
                fs@.sizes == in_use(records@.subrange(0, i as int)).map_values(|x: ScanRecord| x.size),
                fs@.dates == in_use(records@.subrange(0, i as int)).map_values(|x: ScanRecord| x.modified),
                fs@.names == in_use(records@.subrange(0, i as int)).map_values(|x: ScanRecord| x.name@),
                forall|p: int, k: int|
                    0 <= p < fs@.len() && i <= k < records@.len() ==> #[trigger] fs@.frns[p]
                        < #[trigger] records@[k].number,
            decreases records@.len() - i,
        {
            let ghost m = fs@;
            let rec = &records[i];
            proof {
                assert(records@.subrange(0, i + 1) =~= records@.subrange(0, i as int).push(records@[i as int]));
                records@.subrange(0, i as int).lemma_filter_push(records@[i as int], |r: ScanRecord| r.in_use);
            }
            if rec.in_use {
                let position = fs.append(rec.number, rec.parent, rec.name.clone(), rec.size, rec.modified);
                grow_positions(&mut fs.position_mapping, rec.number);
                let slot = as_index(rec.number, fs.position_mapping.len());
                fs.position_mapping[slot] = position;
                proof {
                    let n = fs@;
                    assert forall|r: int|
                        0 <= r < n.positions.len() && #[trigger] n.positions[r] != NO_POSITION implies {
                        &&& (n.positions[r] as int) < n.len()
                        &&& n.frns[n.positions[r] as int] as int == r
                    } by {
                        if r != rec.number as int {
                            assert(r < m.positions.len());
                            assert(m.positions[r] != NO_POSITION);
                        }
                    }
                    assert forall|q: int| 0 <= q < n.len() implies #[trigger] n.lower[q] == lower_of(
                        n.names[q],
                    ) by {
                        if q < m.len() {
                            assert(m.lower[q] == lower_of(m.names[q]));
                        }
                    }
                    assert forall|q: int| 0 <= q < n.len() implies (#[trigger] n.frns[q] as int)
                        < n.positions.len() by {
                        if q < m.len() {
                            assert((m.frns[q] as int) < m.positions.len());
                        }
                    }
                    assert forall|q: int| 0 <= q < n.len() implies n.positions[#[trigger] n.frns[q]
                        as int] as int == q by {
                        if q < m.len() {
                            assert(m.positions[m.frns[q] as int] as int == q);
                            assert(m.frns[q] < records@[i as int].number);
                        }
                    }
                    assert forall|p: int, k: int|
                        0 <= p < n.len() && i + 1 <= k < records@.len() implies #[trigger] n.frns[p]
                            < #[trigger] records@[k].number by {
                        if p < m.len() {
                            assert(m.frns[p] < records@[k].number);
                        }
                    }
                }
            }
            i = i + 1;
        }
        proof {
            assert(records@.subrange(0, i as int) =~= records@);
        }
        fs.shown = all_positions(fs.frn_mapping.len());
        fs
    }
}

} // verus!
