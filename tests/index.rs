use file_search::codec::{file_id_to_frn, FileId};
use file_search::events::{
    USN_REASON_BASIC_INFO_CHANGE, USN_REASON_FILE_CREATE, USN_REASON_FILE_DELETE,
    USN_REASON_RENAME_NEW_NAME,
};
use file_search::filesystem::{FileOrder, FileSystem, ScanRecord, SortDirection, NO_POSITION};
use file_search::query::all_positions;

fn rec(number: u64, parent: u64, name: &str, size: u64, in_use: bool) -> ScanRecord {
    ScanRecord {
        number,
        parent,
        name: name.to_string(),
        size,
        modified: None,
        in_use,
    }
}

fn normal(n: u64) -> FileId {
    FileId::Normal(n)
}

/// Root (5) holds "docs" (10); docs holds the two reports, root holds the image.
fn sample() -> FileSystem {
    let records = vec![
        rec(5, 5, ".", 0, true),
        rec(10, 5, "docs", 0, true),
        rec(11, 10, "report.txt", 300, true),
        rec(12, 10, "reports_old.txt", 100, true),
        rec(13, 5, "image.png", 200, true),
    ];
    FileSystem::load(String::from("C:\\"), 16, &records)
}

fn three_files() -> FileSystem {
    let records = vec![
        rec(20, 5, "report.txt", 3, true),
        rec(21, 5, "reports_old.txt", 1, true),
        rec(22, 5, "image.png", 2, true),
    ];
    FileSystem::load(String::from("C:\\"), 8, &records)
}

fn names_of(fs: &FileSystem) -> Vec<String> {
    fs.shown.iter().map(|&p| fs.filenames[p].clone()).collect()
}

fn sorted(mut v: Vec<usize>) -> Vec<usize> {
    v.sort();
    v
}

#[test]
fn reduce_normal_id_drops_sequence_bits() {
    assert_eq!(file_id_to_frn(normal(0x0012_0000_0000_0042)), 0x42);
    assert_eq!(file_id_to_frn(normal(0xFFFF_FFFF_FFFF_FFFF)), 0x0000_FFFF_FFFF_FFFF);
}

#[test]
fn reduce_extended_id_reads_six_low_bytes() {
    let mut b = [0u8; 16];
    b[0] = 0x34;
    b[1] = 0x12;
    b[5] = 0x01;
    b[6] = 0xFF;
    b[15] = 0xAA;
    assert_eq!(file_id_to_frn(FileId::Extended(b)), 0x0100_0000_1234);
}

#[test]
fn bulk_load_keeps_records_in_use() {
    let records = vec![
        rec(1, 5, "a", 1, true),
        rec(2, 5, "b", 2, false),
        rec(3, 5, "C.TXT", 3, true),
        rec(40, 5, "d", 4, true),
    ];
    let fs = FileSystem::load(String::from("C:\\"), 8, &records);
    assert_eq!(fs.len(), 3);
    assert_eq!(fs.shown, vec![0, 1, 2]);
    assert_eq!(fs.frn_mapping, vec![1, 3, 40]);
    assert_eq!(fs.lowercase_filenames[1], "c.txt");
    assert_eq!(fs.filenames[1], "C.TXT");
    assert_eq!(fs.position_of(40), Some(2));
    assert_eq!(fs.position_of(2), None);
    assert_eq!(fs.position_mapping.len(), 41);
    let occupied = fs.position_mapping.iter().filter(|&&p| p != NO_POSITION).count();
    assert_eq!(occupied, 3);
}

#[test]
fn search_then_refine_equals_search() {
    let mut a = three_files();
    a.search("report");
    assert_eq!(sorted(a.shown.clone()), vec![0, 1]);
    a.search_shown("reports");
    assert_eq!(names_of(&a), vec!["reports_old.txt".to_string()]);
    let mut b = three_files();
    b.search("reports");
    assert_eq!(sorted(a.shown.clone()), sorted(b.shown.clone()));
}

#[test]
fn search_normalizes_query() {
    let mut fs = three_files();
    fs.search("REPORT   ");
    assert_eq!(fs.shown, vec![0, 1]);
    fs.search("PNG");
    assert_eq!(fs.shown, vec![2]);
    fs.search("zzz");
    assert!(fs.shown.is_empty());
}

#[test]
fn empty_query_shows_everything_in_record_order() {
    let mut fs = three_files();
    fs.set_order(FileOrder::Name, SortDirection::Descending);
    fs.search("   ");
    assert_eq!(fs.shown, vec![0, 1, 2]);
    fs.search("image");
    fs.search_shown("");
    assert_eq!(fs.shown, vec![0, 1, 2]);
}

#[test]
fn search_sorts_by_size() {
    let mut fs = three_files();
    fs.set_order(FileOrder::Size, SortDirection::Ascending);
    fs.search(".");
    assert_eq!(fs.shown, vec![1, 2, 0]);
    fs.toggle_direction();
    assert_eq!(fs.shown, vec![0, 2, 1]);
    assert_eq!(fs.direction, SortDirection::Descending);
}

#[test]
fn sort_by_name_then_toggle_reverses() {
    let mut fs = sample();
    fs.set_order(FileOrder::Name, SortDirection::Ascending);
    let ascending = fs.shown.clone();
    assert_eq!(
        names_of(&fs),
        vec![".", "docs", "image.png", "report.txt", "reports_old.txt"]
    );
    fs.toggle_direction();
    let mut reversed = ascending.clone();
    reversed.reverse();
    assert_eq!(fs.shown, reversed);
    fs.set_order(FileOrder::Name, SortDirection::Ascending);
    assert_eq!(fs.shown, ascending);
}

#[test]
fn record_order_sort_is_ascending() {
    let mut fs = three_files();
    fs.set_order(FileOrder::Size, SortDirection::Ascending);
    assert_eq!(fs.shown, vec![1, 2, 0]);
    fs.set_order(FileOrder::RecordNumber, SortDirection::Ascending);
    assert_eq!(fs.shown, vec![0, 1, 2]);
}

#[test]
fn compare_positions_follows_key_and_direction() {
    let mut fs = three_files();
    fs.order = FileOrder::Name;
    fs.direction = SortDirection::Ascending;
    assert_eq!(fs.compare_positions(0, 2), std::cmp::Ordering::Greater);
    fs.direction = SortDirection::Descending;
    assert_eq!(fs.compare_positions(0, 2), std::cmp::Ordering::Less);
    fs.order = FileOrder::Size;
    assert_eq!(fs.compare_positions(0, 1), std::cmp::Ordering::Less);
    assert_eq!(fs.compare_positions(1, 1), std::cmp::Ordering::Equal);
}

#[test]
fn delete_non_last_relocates_last_entry() {
    let mut fs = three_files();
    fs.delete(normal(20));
    assert_eq!(fs.len(), 2);
    assert_eq!(fs.frn_mapping, vec![22, 21]);
    assert_eq!(fs.filenames[0], "image.png");
    assert_eq!(fs.lowercase_filenames[0], "image.png");
    assert_eq!(fs.filesizes, vec![2, 1]);
    assert_eq!(fs.position_of(22), Some(0));
    assert_eq!(fs.position_of(20), None);
    assert_eq!(fs.shown, vec![1, 2]);
}

#[test]
fn delete_last_shrinks_without_relocation() {
    let mut fs = three_files();
    fs.delete(normal(22));
    assert_eq!(fs.frn_mapping, vec![20, 21]);
    assert_eq!(fs.position_of(20), Some(0));
    assert_eq!(fs.position_of(21), Some(1));
    assert_eq!(fs.position_of(22), None);
    assert_eq!(fs.shown, vec![0, 1]);
}

#[test]
fn delete_twice_is_noop() {
    let mut fs = three_files();
    fs.delete(normal(21));
    let frns = fs.frn_mapping.clone();
    let shown = fs.shown.clone();
    let map = fs.position_mapping.clone();
    fs.delete(normal(21));
    assert_eq!(fs.frn_mapping, frns);
    assert_eq!(fs.shown, shown);
    assert_eq!(fs.position_mapping, map);
}

#[test]
fn delete_unknown_beyond_map_is_noop() {
    let mut fs = three_files();
    fs.delete(normal(1_000_000));
    assert_eq!(fs.len(), 3);
}

#[test]
fn rename_unknown_is_noop() {
    let mut fs = three_files();
    fs.rename(normal(99), normal(5), Some("x.txt"));
    assert_eq!(fs.len(), 3);
    assert_eq!(fs.filenames, vec!["report.txt", "reports_old.txt", "image.png"]);
}

#[test]
fn rename_known_updates_names_and_parent() {
    let mut fs = three_files();
    fs.rename(normal(0x0003_0000_0000_0016), normal(7), Some("Photo.PNG"));
    assert_eq!(fs.filenames[2], "Photo.PNG");
    assert_eq!(fs.lowercase_filenames[2], "photo.png");
    assert_eq!(fs.parent_mapping[2], 7);
    assert_eq!(fs.position_of(22), Some(2));
    fs.rename(normal(22), normal(8), None);
    assert_eq!(fs.filenames[2], "Photo.PNG");
    assert_eq!(fs.parent_mapping[2], 7);
}

#[test]
fn create_appends_and_grows_map() {
    let mut fs = three_files();
    fs.create(normal(100), normal(5), Some("New File.TXT"));
    assert_eq!(fs.len(), 4);
    assert_eq!(fs.position_of(100), Some(3));
    assert_eq!(fs.position_mapping.len(), 101);
    assert_eq!(fs.filenames[3], "New File.TXT");
    assert_eq!(fs.lowercase_filenames[3], "new file.txt");
    assert_eq!(fs.filesizes[3], 0);
    assert_eq!(fs.modified_dates[3], None);
    fs.search("new file");
    assert_eq!(fs.shown, vec![3]);
}

#[test]
fn create_without_name_is_noop() {
    let mut fs = three_files();
    fs.create(normal(100), normal(5), None);
    assert_eq!(fs.len(), 3);
    assert_eq!(fs.position_of(100), None);
}

#[test]
fn update_changes_nothing() {
    let mut fs = three_files();
    fs.update(normal(20), normal(5), Some("other"));
    assert_eq!(fs.filenames[0], "report.txt");
}

#[test]
fn path_walks_parents_to_root() {
    let fs = sample();
    let p = fs.position_of(12).unwrap();
    assert_eq!(fs.ancestors_of(p), Some(vec![1]));
    assert_eq!(
        fs.path(p),
        Some(vec!["C:\\".to_string(), "docs".to_string()])
    );
    let img = fs.position_of(13).unwrap();
    assert_eq!(fs.path(img), Some(vec!["C:\\".to_string()]));
}

#[test]
fn path_with_missing_parent_is_none() {
    let mut fs = sample();
    fs.delete(normal(10));
    let p = fs.position_of(11).unwrap();
    assert_eq!(fs.path(p), None);
}

#[test]
fn path_with_cycle_is_none() {
    let records = vec![rec(7, 8, "a", 0, true), rec(8, 7, "b", 0, true)];
    let fs = FileSystem::load(String::from("C:\\"), 4, &records);
    assert_eq!(fs.path(0), None);
}

#[test]
fn all_positions_counts_up() {
    assert_eq!(all_positions(4), vec![0, 1, 2, 3]);
    assert!(all_positions(0).is_empty());
}

#[test]
fn apply_event_dispatches_by_reason_bits() {
    let mut fs = three_files();
    fs.apply_event(USN_REASON_FILE_CREATE, normal(30), normal(5), Some("fresh.rs"));
    assert_eq!(fs.position_of(30), Some(3));
    fs.apply_event(USN_REASON_RENAME_NEW_NAME, normal(30), normal(6), Some("Moved.rs"));
    assert_eq!(fs.filenames[3], "Moved.rs");
    assert_eq!(fs.parent_mapping[3], 6);
    fs.apply_event(USN_REASON_BASIC_INFO_CHANGE, normal(30), normal(6), Some("x"));
    assert_eq!(fs.filenames[3], "Moved.rs");
    fs.apply_event(USN_REASON_FILE_DELETE, normal(30), normal(6), Some("Moved.rs"));
    assert_eq!(fs.position_of(30), None);
    assert_eq!(fs.len(), 3);
    // Delete and create on one record: the old occupant leaves, the new one arrives.
    fs.apply_event(
        USN_REASON_FILE_DELETE | USN_REASON_FILE_CREATE,
        normal(20),
        normal(5),
        Some("again.txt"),
    );
    assert_eq!(fs.len(), 3);
    assert_eq!(fs.filenames[fs.position_of(20).unwrap()], "again.txt");
    fs.apply_event(0x0000_1000, normal(21), normal(5), Some("ignored"));
    assert_eq!(fs.filenames[1], "reports_old.txt");
}

#[test]
fn select_column_toggles_or_switches() {
    let mut fs = three_files();
    fs.select_column(FileOrder::Size);
    assert_eq!(fs.order, FileOrder::Size);
    assert_eq!(fs.direction, SortDirection::Descending);
    assert_eq!(fs.shown, vec![0, 2, 1]);
    fs.select_column(FileOrder::Size);
    assert_eq!(fs.direction, SortDirection::Ascending);
    assert_eq!(fs.shown, vec![1, 2, 0]);
    fs.select_column(FileOrder::Name);
    assert_eq!(fs.direction, SortDirection::Ascending);
    assert_eq!(names_of(&fs), vec!["image.png", "report.txt", "reports_old.txt"]);
}

#[test]
fn run_query_chooses_entry_point() {
    let mut fs = three_files();
    fs.run_query("", "report");
    assert_eq!(fs.shown, vec![0, 1]);
    fs.run_query("report", "reports");
    assert_eq!(fs.shown, vec![1]);
    fs.run_query("reports", "image");
    assert_eq!(fs.shown, vec![2]);
    fs.run_query("image", "");
    assert_eq!(fs.shown, vec![0, 1, 2]);
}

#[test]
fn search_key_takes_normalized_key() {
    let mut fs = three_files();
    fs.search_key("REPORT");
    assert!(fs.shown.is_empty());
    fs.search_key("report");
    assert_eq!(fs.shown, vec![0, 1]);
    fs.search_shown_key("old");
    assert_eq!(fs.shown, vec![1]);
    fs.search_shown_key("");
    assert_eq!(fs.shown, vec![0, 1, 2]);
}

#[test]
fn search_shown_skips_stale_positions() {
    let mut fs = three_files();
    fs.search("e");
    assert_eq!(fs.shown, vec![0, 1, 2]);
    fs.delete(normal(20));
    assert_eq!(fs.shown, vec![1, 2]);
    fs.search_shown("e");
    assert_eq!(fs.shown, vec![1]);
}

fn assert_consistent(fs: &FileSystem) {
    for (p, &rid) in fs.frn_mapping.iter().enumerate() {
        assert_eq!(fs.position_of(rid), Some(p));
    }
    for (rid, &p) in fs.position_mapping.iter().enumerate() {
        if p != NO_POSITION {
            assert_eq!(fs.frn_mapping[p], rid as u64);
        }
    }
    let n = fs.len();
    assert_eq!(fs.filenames.len(), n);
    assert_eq!(fs.lowercase_filenames.len(), n);
    assert_eq!(fs.parent_mapping.len(), n);
    assert_eq!(fs.filesizes.len(), n);
    assert_eq!(fs.modified_dates.len(), n);
}

#[test]
fn append_leaves_map_alone() {
    let mut fs = three_files();
    let p = fs.append(50, 5, "Big.Bin".to_string(), 7, Some(3));
    assert_eq!(p, 3);
    assert_eq!(fs.position_of(50), None);
    assert_eq!(fs.filesizes[3], 7);
    assert_eq!(fs.modified_dates[3], Some(3));
    assert_eq!(fs.lowercase_filenames[3], "big.bin");
}

#[test]
fn swap_remove_reports_moved_record() {
    let mut fs = three_files();
    assert_eq!(fs.swap_remove(0), Some(22));
    assert_eq!(fs.frn_mapping, vec![22, 21]);
    assert_eq!(fs.filenames, vec!["image.png", "reports_old.txt"]);
    assert_eq!(fs.swap_remove(1), None);
    assert_eq!(fs.frn_mapping, vec![22]);
}

#[test]
fn store_stays_consistent_through_events() {
    let mut fs = sample();
    assert_consistent(&fs);
    fs.create(normal(14), normal(10), Some("a.txt"));
    assert_consistent(&fs);
    fs.delete(normal(11));
    assert_consistent(&fs);
    fs.rename(normal(14), normal(5), Some("b.txt"));
    assert_consistent(&fs);
    fs.delete(normal(14));
    assert_consistent(&fs);
    fs.create(normal(64), normal(5), Some("far.txt"));
    assert_consistent(&fs);
    fs.delete(normal(5));
    assert_consistent(&fs);
    fs.delete(normal(64));
    fs.delete(normal(10));
    fs.delete(normal(12));
    fs.delete(normal(13));
    assert_consistent(&fs);
    assert_eq!(fs.len(), 0);
    fs.delete(normal(13));
    assert_eq!(fs.len(), 0);
}

#[test]
fn delete_removes_freed_position_from_name_sorted_view() {
    let mut fs = three_files();
    fs.set_order(FileOrder::Name, SortDirection::Descending);
    fs.search(".");
    assert_eq!(fs.shown, vec![1, 0, 2]);
    fs.delete(normal(20));
    assert_eq!(fs.shown, vec![1, 2]);
}

#[test]
fn query_is_case_folded_beyond_ascii() {
    let records = vec![rec(1, 5, "École.txt", 1, true), rec(2, 5, "ecole.txt", 1, true)];
    let mut fs = FileSystem::load(String::from("C:\\"), 4, &records);
    fs.search("ÉCOLE");
    assert_eq!(fs.shown, vec![0]);
    fs.search("éCOLE\u{3000}\t");
    assert_eq!(fs.shown, vec![0]);
}

#[test]
fn resort_descending_equals_reverse() {
    let mut fs = sample();
    fs.set_order(FileOrder::Name, SortDirection::Ascending);
    let mut reversed = fs.shown.clone();
    reversed.reverse();
    fs.direction = SortDirection::Descending;
    fs.sort();
    assert_eq!(fs.shown, reversed);
}
