//! Dispatch of change-journal records, and the choices the user interface
//! makes between the index's entry points.
use vstd::prelude::*;

use crate::codec::{frn_of, FileId};
use crate::filesystem::{name_view, position_range, FileOrder, FileSystem, FsModel};
use crate::order::{sort_post, toggle_post};
use crate::query::{search_post, search_shown_post};
use crate::text::{contains, contains_seq, query_key};

verus! {

/// Reason bit: the file or directory was deleted.
pub const USN_REASON_FILE_DELETE: u32 = 0x0000_0200;

/// Reason bit: the record carries the new name of a renamed file.
pub const USN_REASON_RENAME_NEW_NAME: u32 = 0x0000_2000;

/// Reason bit: the file or directory was created.
pub const USN_REASON_FILE_CREATE: u32 = 0x0000_0100;

/// Reason bit: attributes or time stamps changed.
pub const USN_REASON_BASIC_INFO_CHANGE: u32 = 0x0000_8000;

/// The delete step of a journal record.
pub open spec fn delete_step(m: FsModel, reason: u32, rid: u64, new: FsModel) -> bool {
    if reason & USN_REASON_FILE_DELETE != 0 {
        m.delete_post(rid, new)
    } else {
        new == m
    }
}

/// The rename step of a journal record.
pub open spec fn rename_step(
    m: FsModel,
    reason: u32,
    rid: u64,
    parent: u64,
    name: Option<Seq<char>>,
    new: FsModel,
) -> bool {
    if reason & USN_REASON_RENAME_NEW_NAME != 0 {
        m.rename_post(rid, parent, name, new)
    } else {
        new == m
    }
}

/// The create step of a journal record.
pub open spec fn create_step(
    m: FsModel,
    reason: u32,
    rid: u64,
    parent: u64,
    name: Option<Seq<char>>,
    new: FsModel,
) -> bool {
    if reason & USN_REASON_FILE_CREATE != 0 {
        m.create_post(rid, parent, name, new)
    } else {
        new == m
    }
}

/// `new` is `m` after one journal record: delete, rename and create run in
/// that order, each where its bit is set; an attribute change alters nothing.
pub open spec fn event_post(
    m: FsModel,
    reason: u32,
    rid: u64,
    parent: u64,
    name: Option<Seq<char>>,
    new: FsModel,
) -> bool {
    exists|m1: FsModel, m2: FsModel|
        #[trigger] delete_step(m, reason, rid, m1) && #[trigger] rename_step(
            m1,
            reason,
            rid,
            parent,
            name,
            m2,
        ) && create_step(m2, reason, rid, parent, name, new)
}

impl FileSystem {
    /// Applies one change-journal record: each handler whose reason bit is set
    /// runs once. The old name of a rename is not needed, as the record with
    /// the new name carries everything.
    pub fn apply_event(
        &mut self,
        reason: u32,
        file_id: FileId,
        parent_id: FileId,
        file_name: Option<&str>,
    )
        requires
            old(self).wf(),
            old(self)@.len() + 1 < usize::MAX,
        ensures
            final(self).wf(),
            event_post(
                old(self)@,
                reason,
                frn_of(file_id),
                frn_of(parent_id),
                name_view(file_name),
                final(self)@,
            ),
    {
        let ghost m0 = self@;
        if reason & USN_REASON_FILE_DELETE != 0 {
            self.delete(file_id);
        }
        let ghost m1 = self@;
        if reason & USN_REASON_RENAME_NEW_NAME != 0 {
            self.rename(file_id, parent_id, file_name);
        }
        let ghost m2 = self@;
        if reason & USN_REASON_FILE_CREATE != 0 {
            self.create(file_id, parent_id, file_name);
        }
        if reason & USN_REASON_BASIC_INFO_CHANGE != 0 {
            self.update(file_id, parent_id, file_name);
        }
        assert(event_post(
            m0,
            reason,
            frn_of(file_id),
            frn_of(parent_id),
            name_view(file_name),
            self@,
        )) by {
            assert(delete_step(m0, reason, frn_of(file_id), m1));
            assert(rename_step(m1, reason, frn_of(file_id), frn_of(parent_id), name_view(file_name), m2));
            assert(create_step(m2, reason, frn_of(file_id), frn_of(parent_id), name_view(file_name), self@));
        }
    }

    /// A click on a column's header: the column already sorting the view
    /// flips its direction (the view is reversed); another column takes over
    /// in the current direction and sorts the view.
    pub fn select_column(&mut self, order: FileOrder)
        requires
            old(self).wf(),
            old(self)@.view_in_bounds(),
            order != FileOrder::ModifedDate,
        ensures
            final(self).wf(),
            order == old(self).order ==> toggle_post(old(self)@, final(self)@),
            order != old(self).order ==> sort_post(
                FsModel { order, ..old(self)@ },
                final(self)@,
            ),
    {
        if order == self.order {
            self.toggle_direction();
        } else {
            self.set_order(order, self.direction);
        }
    }

    /// Runs the query typed after `previous`. An empty query shows every
    /// position in record order; a query that contains a non-empty previous
    /// one searches only the positions shown; any other runs a full search.
    pub fn run_query(&mut self, previous: &str, query: &str)
        requires
            old(self).wf(),
            old(self).order != FileOrder::ModifedDate,
        ensures
            final(self).wf(),
            query@.len() == 0 ==> final(self)@.shown == position_range(old(self)@.len())
                && final(self)@.same_store(old(self)@) && final(self).order == old(self).order
                && final(self).direction == old(self).direction,
            query@.len() != 0 && previous@.len() != 0 && contains_seq(query@, previous@)
                ==> search_shown_post(old(self)@, query_key(query@), final(self)@),
            query@.len() != 0 && !(previous@.len() != 0 && contains_seq(query@, previous@))
                ==> search_post(old(self)@, query_key(query@), final(self)@),
    {
        if query.is_empty() {
            self.shown = crate::query::all_positions(self.frn_mapping.len());
            assert(self@.same_store(old(self)@));
        } else if !previous.is_empty() && contains(query, previous) {
            self.search_shown(query);
        } else {
            self.search(query);
        }
    }
}

} // verus!
