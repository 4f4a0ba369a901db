use cricket::selection::{
    check_absolute, NOT_ABSOLUTE,
    add_size, check_entry, check_kind, check_selection, Selection, CHOOSE_COUNT, NOT_REGULAR,
    SAME_NAME, SYMLINK, TOO_LARGE, TOO_MANY_ENTRIES, UNPORTABLE_NAME,
};

#[test]
fn duplicate_destination_names_are_rejected() {
    let mut selection = Selection::new();
    assert_eq!(selection.admit_name("hello.txt"), Ok(()));
    assert!(selection.admit_name("hello.txt").is_err());
}

#[test]
fn names_that_differ_only_in_case_collide() {
    let mut selection = Selection::new();
    assert_eq!(selection.admit_name("Report.PDF"), Ok(()));
    assert_eq!(selection.admit_name("report.pdf"), Err(SAME_NAME.to_string()));
    assert_eq!(selection.admit_name("ÉTÉ"), Ok(()));
    assert_eq!(selection.admit_name("été"), Err(SAME_NAME.to_string()));
    assert_eq!(selection.names, vec!["report.pdf".to_string(), "été".to_string()]);
}

#[test]
fn unportable_names_are_rejected() {
    let mut selection = Selection::new();
    assert_eq!(selection.admit_name("a\\b"), Err(UNPORTABLE_NAME.to_string()));
    assert_eq!(selection.admit_name("a\0b"), Err(UNPORTABLE_NAME.to_string()));
    assert_eq!(selection.admit_name(&"x".repeat(256)), Err(UNPORTABLE_NAME.to_string()));
    assert_eq!(selection.admit_name(&"é".repeat(128)), Err(UNPORTABLE_NAME.to_string()));
    assert_eq!(selection.admit_name(&"x".repeat(255)), Ok(()));
    assert_eq!(selection.names.len(), 1);
}

#[test]
fn selection_holds_one_to_two_hundred_items() {
    assert_eq!(check_selection(0), Err(CHOOSE_COUNT.to_string()));
    assert_eq!(check_selection(1), Ok(()));
    assert_eq!(check_selection(200), Ok(()));
    assert_eq!(check_selection(201), Err(CHOOSE_COUNT.to_string()));
}

#[test]
fn only_files_and_folders_are_sent() {
    assert_eq!(check_kind(true, false), Ok(()));
    assert_eq!(check_kind(false, true), Ok(()));
    assert_eq!(check_kind(false, false), Err(NOT_REGULAR.to_string()));
}

#[test]
fn entries_are_limited_and_links_refused() {
    assert_eq!(check_entry(0, false), Ok(()));
    assert_eq!(check_entry(99_999, false), Ok(()));
    assert_eq!(check_entry(100_000, false), Ok(()));
    assert_eq!(check_entry(100_001, false), Err(TOO_MANY_ENTRIES.to_string()));
    assert_eq!(check_entry(100_001, true), Err(TOO_MANY_ENTRIES.to_string()));
    assert_eq!(check_entry(3, true), Err(SYMLINK.to_string()));
}

#[test]
fn sizes_add_up_over_files_only() {
    assert_eq!(add_size(5, true, 6), Ok(11));
    assert_eq!(add_size(5, false, 4096), Ok(5));
    assert_eq!(add_size(u64::MAX, true, 1), Err(TOO_LARGE.to_string()));
    assert_eq!(add_size(u64::MAX, true, 0), Ok(u64::MAX));
}

#[test]
fn selected_paths_must_be_absolute() {
    assert_eq!(check_absolute("relative/file.txt"), Err(NOT_ABSOLUTE.to_string()));
    assert_eq!(check_absolute("relative.txt"), Err(NOT_ABSOLUTE.to_string()));
    assert_eq!(check_absolute(""), Err(NOT_ABSOLUTE.to_string()));
    assert_eq!(check_absolute("/tmp/file.txt"), Ok(()));
}
