use homefiles::listing::{dir_content, Entry, FType, Meta, Sort, Target};

fn file(name: &str, size: u64, created: u64) -> Meta {
    Meta { name: name.to_string(), is_dir: false, size, created }
}

fn folder(name: &str, created: u64) -> Meta {
    Meta { name: name.to_string(), is_dir: true, size: 4096, created }
}

fn names(entries: &[Entry]) -> Vec<String> {
    entries.iter().map(|e| e.name.clone()).collect()
}

fn sample() -> Target {
    Target::Dir(vec![
        Some(file("b.txt", 10, 3)),
        Some(folder("photos", 5)),
        Some(file("a.txt", 30, 1)),
        Some(file("B.txt", 10, 2)),
    ])
}

#[test]
fn listing_by_name_is_ascending() {
    let l = dir_content(sample(), Sort::Name);
    assert!(l.success);
    assert_eq!(l.kind, FType::Folder);
    assert_eq!(l.count, 4);
    assert_eq!(names(&l.entries), vec!["B.txt", "a.txt", "b.txt", "photos"]);
}

#[test]
fn listing_by_size_is_descending_and_stable() {
    let l = dir_content(sample(), Sort::Size);
    assert_eq!(names(&l.entries), vec!["photos", "a.txt", "b.txt", "B.txt"]);
    for w in l.entries.windows(2) {
        assert!(w[0].size >= w[1].size);
    }
}

#[test]
fn listing_by_date_is_newest_first() {
    let l = dir_content(sample(), Sort::Date);
    assert_eq!(names(&l.entries), vec!["photos", "b.txt", "B.txt", "a.txt"]);
}

#[test]
fn listing_by_type_puts_folders_first() {
    let l = dir_content(
        Target::Dir(vec![Some(file("x", 1, 1)), None, Some(folder("d", 1))]),
        Sort::Type,
    );
    assert_eq!(names(&l.entries), vec!["d", "x", "Error"]);
}

#[test]
fn listing_missing_path_fails_with_one_error() {
    let l = dir_content(Target::Missing, Sort::Name);
    assert!(!l.success);
    assert_eq!(l.count, 1);
    assert_eq!(l.entries.len(), 1);
    assert_eq!(l.entries[0].ftype, FType::Error);
    assert_eq!(l.entries[0].name, "Error");
}

#[test]
fn listing_unreadable_directory() {
    let l = dir_content(Target::DirUnreadable, Sort::Size);
    assert!(!l.success);
    assert_eq!(l.kind, FType::Error);
    assert_eq!(l.entries.len(), 1);
    assert_eq!(l.entries[0].name, "Folder not work");
}

#[test]
fn listing_special_file_fails_with_one_error() {
    let l = dir_content(Target::Other, Sort::Name);
    assert!(!l.success);
    assert_eq!(l.kind, FType::Error);
    assert_eq!(l.count, 1);
    assert_eq!(l.entries.len(), 1);
    assert_eq!(l.entries[0].ftype, FType::Error);
}

#[test]
fn meta_gives_entry_kind() {
    let e = folder("d", 3).into_entry();
    assert_eq!(e.ftype, FType::Folder);
    assert_eq!(e.name, "d");
    assert_eq!(e.created, 3);
    assert_eq!(file("f", 9, 1).into_entry().ftype, FType::File);
}

#[test]
fn listing_single_file() {
    let l = dir_content(Target::File(file("report.pdf", 7, 9)), Sort::Date);
    assert!(l.success);
    assert_eq!(l.kind, FType::File);
    assert_eq!(l.entries[0].ftype, FType::File);
    assert_eq!(names(&l.entries), vec!["report.pdf"]);
    assert_eq!(l.entries[0].size, 7);
}

#[test]
fn listing_one_unreadable_child_among_three() {
    let l = dir_content(
        Target::Dir(vec![Some(file("a", 1, 1)), None, Some(file("c", 2, 2)), Some(folder("d", 3))]),
        Sort::Name,
    );
    assert!(l.success);
    assert_eq!(l.count, 4);
    assert_eq!(l.entries.iter().filter(|e| e.ftype == FType::Error).count(), 1);
}

#[test]
fn listing_empty_directory() {
    let l = dir_content(Target::Dir(vec![]), Sort::Name);
    assert!(l.success);
    assert_eq!(l.count, 0);
}

#[test]
fn sort_selector_defaults_to_name() {
    assert_eq!(Sort::from_selector(None), Sort::Name);
    assert_eq!(Sort::from_selector(Some("Size")), Sort::Size);
    assert_eq!(Sort::from_selector(Some("Type")), Sort::Type);
    assert_eq!(Sort::from_selector(Some("Date")), Sort::Date);
    assert_eq!(Sort::from_selector(Some("size")), Sort::Name);
}

#[test]
fn error_entry_carries_message() {
    let e = Entry::error("boom");
    assert_eq!(e.name, "boom");
    assert_eq!(e.ftype, FType::Error);
    assert_eq!(e.size, 0);
}
