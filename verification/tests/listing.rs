use file_explorer::file_system::get_directory_item_count;
use file_explorer::listing::{build_listing, classify, modified_label, page, raw_entry_le, sort_visible};
use file_explorer::models::{EntryKind, FileDetail, RawEntry};
use file_explorer::path::FsPath;

fn path(text: &str) -> FsPath {
    FsPath::new(
        "/".to_string(),
        text.split('/').filter(|s| !s.is_empty()).map(|s| s.to_string()).collect(),
    )
}

fn file(name: &str, size: u64) -> RawEntry {
    RawEntry { name: name.to_string(), is_dir: false, size, modified: Some(1_000), children: Vec::new() }
}

fn dir(name: &str) -> RawEntry {
    RawEntry { name: name.to_string(), is_dir: true, size: 4096, modified: Some(1_000), children: Vec::new() }
}

fn names(listing: &[FileDetail]) -> Vec<String> {
    listing.iter().map(|d| d.name.clone()).collect()
}

#[test]
fn listing_puts_directories_first_and_drops_hidden_entries() {
    let raw = vec![file("b.txt", 2), dir("A"), dir(".git"), file("a.txt", 1)];
    let listing = build_listing(raw, &path("/x"), 1_000);
    assert_eq!(names(&listing), vec!["A", "a.txt", "b.txt"]);
    assert_eq!(listing[0].kind, EntryKind::Directory);
    assert_eq!(listing[1].kind, EntryKind::File { extension: Some("txt".to_string()) });
}

#[test]
fn each_group_is_in_case_sensitive_order() {
    let raw = vec![
        file("b", 1),
        dir("zeta"),
        file("B", 1),
        dir("Alpha"),
        file("a", 1),
        dir("alpha"),
        file("A", 1),
    ];
    let listing = build_listing(raw, &path("/x"), 1_000);
    assert_eq!(names(&listing), vec!["Alpha", "alpha", "zeta", "A", "B", "a", "b"]);
}

#[test]
fn entries_of_the_same_name_keep_their_order() {
    let raw = vec![file("same", 1), file("same", 2), file("same", 3), file("other", 9)];
    let listing = build_listing(raw, &path("/x"), 1_000);
    assert_eq!(names(&listing), vec!["other", "same", "same", "same"]);
    assert_eq!(listing[1].size, 1);
    assert_eq!(listing[2].size, 2);
    assert_eq!(listing[3].size, 3);
}

#[test]
fn an_unreadable_directory_lists_nothing() {
    let listing = build_listing(Vec::new(), &path("/missing"), 1_000);
    assert!(listing.is_empty());
}

#[test]
fn a_directory_precedes_a_file_whatever_their_names() {
    assert!(raw_entry_le(&dir("z"), &file("a", 1)));
    assert!(!raw_entry_le(&file("a", 1), &dir("z")));
    assert!(raw_entry_le(&file("a", 1), &file("b", 1)));
    assert!(raw_entry_le(&dir("a"), &dir("a")));
}

#[test]
fn sort_visible_keeps_every_visible_entry() {
    let raw = vec![file("c", 3), file(".x", 0), file("a", 1), dir("d"), file("b", 2)];
    let sorted = sort_visible(raw);
    let got: Vec<(String, u64)> = sorted.iter().map(|e| (e.name.clone(), e.size)).collect();
    assert_eq!(
        got,
        vec![
            ("d".to_string(), 4096),
            ("a".to_string(), 1),
            ("b".to_string(), 2),
            ("c".to_string(), 3)
        ]
    );
}

#[test]
fn a_directory_is_listed_with_size_zero() {
    let d = classify(&dir("photos.d"), &path("/home"), 1_000);
    assert_eq!(d.size, 0);
    assert_eq!(d.kind, EntryKind::Directory);
    assert_eq!(d.name, "photos.d");
    assert_eq!(d.full_path, path("/home/photos.d"));
    assert_eq!(d.kind.type_tag(), "directory");
    assert!(d.kind.is_directory());
}

#[test]
fn a_file_is_listed_with_its_size_and_extension() {
    let d = classify(&file("Report.PDF", 12_345), &path("/home/user"), 1_000);
    assert_eq!(d.size, 12_345);
    assert_eq!(d.kind, EntryKind::File { extension: Some("pdf".to_string()) });
    assert_eq!(d.full_path, path("/home/user/Report.PDF"));
    assert_eq!(d.kind.type_tag(), "pdf file");
    assert!(!d.kind.is_directory());
    assert_eq!(d.modified, "just now");
}

#[test]
fn a_file_without_extension_has_the_plain_tag() {
    let d = classify(&file("Makefile", 10), &path("/src"), 1_000);
    assert_eq!(d.kind, EntryKind::File { extension: None });
    assert_eq!(d.kind.type_tag(), "file");
}

#[test]
fn a_change_under_a_minute_old_is_just_now() {
    assert_eq!(modified_label(1_000, Some(1_000)), "just now");
    assert_eq!(modified_label(1_059, Some(1_000)), "just now");
}

#[test]
fn a_change_ahead_of_now_is_just_now() {
    assert_eq!(modified_label(1_000, Some(5_000_000)), "just now");
}

#[test]
fn a_change_under_an_hour_old_is_given_in_minutes() {
    assert_eq!(modified_label(1_060, Some(1_000)), "1 minutes ago");
    assert_eq!(modified_label(1_000 + 119, Some(1_000)), "1 minutes ago");
    assert_eq!(modified_label(1_000 + 3_599, Some(1_000)), "59 minutes ago");
}

#[test]
fn a_change_under_a_day_old_is_given_in_hours() {
    assert_eq!(modified_label(1_000 + 3_600, Some(1_000)), "1 hours ago");
    assert_eq!(modified_label(1_000 + 86_399, Some(1_000)), "23 hours ago");
}

#[test]
fn an_older_change_is_given_as_a_rough_date() {
    assert_eq!(modified_label(86_400, Some(0)), "1970-01-01");
    assert_eq!(modified_label(u64::MAX, Some(86_400 * 400)), "1971-02-06");
    assert_eq!(modified_label(u64::MAX, Some(86_400 * 59 + 17)), "1970-02-30");
    assert_eq!(modified_label(2_000_000_000, Some(1_700_000_000)), "2023-12-01");
}

#[test]
fn the_rough_date_can_name_a_thirteenth_month() {
    assert_eq!(modified_label(u64::MAX, Some(86_400 * 364)), "1970-13-05");
    assert_eq!(modified_label(u64::MAX, Some(86_400 * 360)), "1970-13-01");
    assert_eq!(modified_label(u64::MAX, Some(86_400 * 365)), "1971-01-01");
}

#[test]
fn a_time_that_could_not_be_read_is_unknown() {
    assert_eq!(modified_label(1_000, None), "unknown");
}

#[test]
fn a_page_is_a_slice_of_the_listing() {
    let raw: Vec<RawEntry> = (0..10).map(|i| file(&format!("f{}", i), i)).collect();
    let listing = build_listing(raw, &path("/x"), 1_000);
    assert_eq!(names(&page(&listing, 0, 3)), vec!["f0", "f1", "f2"]);
    assert_eq!(names(&page(&listing, 3, 3)), vec!["f3", "f4", "f5"]);
    assert_eq!(names(&page(&listing, 8, 5)), vec!["f8", "f9"]);
    assert_eq!(page(&listing, 0, 100).len(), 10);
    assert!(page(&listing, 10, 5).is_empty());
    assert!(page(&listing, 99, 5).is_empty());
    assert!(page(&listing, 2, 0).is_empty());
    assert_eq!(page(&listing, 9, usize::MAX).len(), 1);
    assert!(page(&listing, usize::MAX, usize::MAX).is_empty());
}

#[test]
fn the_item_count_leaves_hidden_entries_out() {
    let raw = vec![file("a", 1), file(".b", 1), dir(".c"), dir("d")];
    assert_eq!(get_directory_item_count(&raw), 2);
    assert_eq!(get_directory_item_count(&Vec::new()), 0);
}

#[test]
fn a_large_directory_is_listed_as_a_stable_sort_lists_it() {
    let mut seed: u64 = 0x2545_f491_4f6c_dd1d;
    let mut raw = Vec::new();
    for i in 0..5_000u64 {
        seed ^= seed << 13;
        seed ^= seed >> 7;
        seed ^= seed << 17;
        let name = format!("{}{}", ["a", "B", "c", "D", "é", "_"][(seed % 6) as usize], seed % 700);
        raw.push(if seed % 5 == 0 { dir(&name) } else { file(&name, i) });
    }
    let mut expected: Vec<(bool, String, u64)> =
        raw.iter().map(|e| (e.is_dir, e.name.clone(), if e.is_dir { 0 } else { e.size })).collect();
    expected.sort_by(|a, b| b.0.cmp(&a.0).then(a.1.cmp(&b.1)));
    let listing = build_listing(raw, &path("/big"), 1_000);
    let got: Vec<(bool, String, u64)> =
        listing.iter().map(|d| (d.kind.is_directory(), d.name.clone(), d.size)).collect();
    assert_eq!(got, expected);
}
