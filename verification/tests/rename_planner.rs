use hashrename::models::FileEntry;
use hashrename::rename_planner::{format_numbered_name, number_width, plan_renames, OccupiedNames, RenamePlan};
use hashrename::sorter::sort_names;
use std::collections::HashSet;

fn fe(name: &str) -> FileEntry {
    let ext = std::path::Path::new(name)
        .extension()
        .map(|e| e.to_string_lossy().to_string());
    FileEntry {
        path: std::path::PathBuf::from(name),
        file_name: name.to_string(),
        extension: ext,
        size: 1,
        hash: None,
    }
}

fn plan_for(names: &[&str], extra_occupied: &[&str]) -> RenamePlan {
    let mut remaining: Vec<FileEntry> = names.iter().map(|n| fe(n)).collect();
    sort_names(&mut remaining);
    let mut occ = OccupiedNames::new();
    for e in extra_occupied {
        occ.insert(e);
    }
    plan_renames(&remaining, &occ, 1234, "aabbccdd")
}

#[test]
fn basic_numbering() {
    let plan = plan_for(&["Apple.jpg", "IMG_002.jpg", "IMG_100.png", "test.webp"], &[]);
    let finals: Vec<&str> = plan.ops.iter().map(|o| o.final_name.as_str()).collect();
    assert_eq!(finals, vec!["001.jpg", "002.jpg", "003.png", "004.webp"]);
    assert_eq!(plan.width, 3);
}

#[test]
fn width_grows_with_count() {
    assert_eq!(number_width(1), 3);
    assert_eq!(number_width(9), 3);
    assert_eq!(number_width(10), 3);
    assert_eq!(number_width(99), 3);
    assert_eq!(number_width(100), 3);
    assert_eq!(number_width(999), 3);
    assert_eq!(number_width(1000), 4);
    assert_eq!(number_width(9999), 4);
    assert_eq!(number_width(10000), 5);
}

#[test]
fn preserves_extension_case() {
    let plan = plan_for(&["a.JPG", "b.Tar.gz"], &[]);
    assert_eq!(plan.ops[0].final_name, "001.JPG");
    assert_eq!(plan.ops[1].final_name, "002.gz");
}

#[test]
fn no_extension_no_dot() {
    let plan = plan_for(&["Makefile", "README"], &[]);
    assert_eq!(plan.ops[0].final_name, "001");
    assert_eq!(plan.ops[1].final_name, "002");
}

#[test]
fn conflict_with_directory_blocks_file() {
    let plan = plan_for(&["A.jpg", "B.jpg"], &["001.jpg"]);
    assert_eq!(plan.ops.len(), 1);
    assert_eq!(plan.ops[0].original_name, "B.jpg");
    assert_eq!(plan.ops[0].final_name, "002.jpg");
    assert_eq!(plan.blocked.len(), 1);
    assert_eq!(plan.blocked[0].original_name, "A.jpg");
}

#[test]
fn conflict_cascades_converge() {
    let plan = plan_for(&["c.jpg", "002.jpg"], &["001.jpg"]);
    assert_eq!(plan.ops.len(), 0);
    assert_eq!(plan.blocked.len(), 2);
}

#[test]
fn blocked_original_name_guards_later_ops() {
    let mut remaining = vec![fe("002.jpg"), fe("a.jpg")];
    sort_names(&mut remaining);
    let mut occ = OccupiedNames::new();
    occ.insert("001.jpg");
    let plan = plan_renames(&remaining, &occ, 1, "tok");
    assert!(plan.ops.is_empty(), "a.jpg must not take a name that overwrites a blocked file");
    assert_eq!(plan.blocked.len(), 2);
}

#[test]
fn temp_names_unique_and_prefixed() {
    let plan = plan_for(&["a.jpg", "b.jpg", "c.jpg"], &[]);
    let temps: HashSet<&str> = plan.ops.iter().map(|o| o.temporary_name.as_str()).collect();
    assert_eq!(temps.len(), plan.ops.len());
    for t in temps {
        assert!(t.starts_with(".hashrename_tmp_"));
        assert!(!t.ends_with(".jpg"), "a temporary name never keeps the extension");
    }
}

#[test]
fn noop_when_already_numbered() {
    let plan = plan_for(&["001.jpg", "002.jpg"], &[]);
    assert!(plan.ops[0].is_noop);
    assert!(plan.ops[1].is_noop);
}

#[test]
fn temp_name_layout() {
    let plan = plan_for(&["x.png"], &[]);
    assert_eq!(plan.ops[0].temporary_name, ".hashrename_tmp_1234_aabbccdd_1");
    assert_eq!(plan.ops[0].entry_index, 0);
    assert!(!plan.ops[0].is_noop);
}

#[test]
fn numbered_name_formatting() {
    assert_eq!(format_numbered_name(7, 3, Some("jpg")), "007.jpg");
    assert_eq!(format_numbered_name(1234, 3, Some("png")), "1234.png");
    assert_eq!(format_numbered_name(5, 4, None), "0005");
    assert_eq!(format_numbered_name(5, 3, Some("")), "005");
}

#[test]
fn occupied_names_case_rules() {
    let mut cs = OccupiedNames::for_filesystem(true);
    cs.insert("A.jpg");
    assert!(cs.contains("A.jpg"));
    assert!(!cs.contains("a.jpg"));
    let mut ci = OccupiedNames::for_filesystem(false);
    ci.insert("A.jpg");
    assert!(ci.contains("a.JPG"));
    let names = ci.names();
    assert_eq!(names, vec!["A.jpg".to_string()]);
}

#[test]
fn final_names_are_distinct_and_follow_order() {
    let plan = plan_for(&["b.txt", "a.txt", "c.md", "10.txt", "9.txt"], &[]);
    let finals: Vec<&str> = plan.ops.iter().map(|o| o.final_name.as_str()).collect();
    assert_eq!(finals, vec!["001.txt", "002.txt", "003.txt", "004.txt", "005.md"]);
    let originals: Vec<&str> = plan.ops.iter().map(|o| o.original_name.as_str()).collect();
    assert_eq!(originals, vec!["9.txt", "10.txt", "a.txt", "b.txt", "c.md"]);
}
