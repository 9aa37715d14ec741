use hashrename::cli::{exit_status, parse_args, summary_head, summary_tail, Invocation};
use hashrename::digests::HashAlgorithm;
use hashrename::commands::LaunchInfo;
use hashrename::digests::{Md5Hasher, Sha256Hasher};
use hashrename::duplicate_detector::{candidate_groups, Clustering, Comparison, Detection};
use hashrename::error::{FileError, HrError};
use hashrename::execution::{ExecAction, Execution, RenameResult};
use hashrename::lock::{staleness, DirLock, LockContent, Staleness, LOCK_FILE_NAME};
use hashrename::models::{DuplicateGroup, FileEntry, HashValue, PlannedRename, ProcessingResult};
use hashrename::processor::{
    digest_error, keep_journal, rename_stage, RenameStage,
    blocked_errors, hash_needed, occupied_for, remaining_files, split_digests, thread_count, trash_targets,
    ProcessOptions, TrashRun, first_stage, next_stage, marked, Stage,
};
use hashrename::rename_planner::{plan_renames, OccupiedNames, RenameOp, RenamePlan};
use hashrename::renamer::{
    journal_file_name, journal_part_file_name, journal_path, leftover_kind, Journal, Leftover, RecoveryReport,
};
use hashrename::scanner::{extension_of, is_internal_name, EntryKind, ScanErrorKind, ScanResult};
use hashrename::sorter::{check_lowering, sort_names};
use std::collections::HashMap;
use std::path::PathBuf;

fn entry(name: &str, size: u64) -> FileEntry {
    FileEntry {
        path: PathBuf::from("/d").join(name),
        file_name: name.to_string(),
        extension: extension_of(name),
        size,
        hash: None,
    }
}

/// Detection over in-memory contents: digests from `digest`, comparisons
/// by content.
fn detect(files: &[(&str, &[u8])], digest: &dyn Fn(&[u8]) -> HashValue) -> (Vec<FileEntry>, Detection) {
    let mut entries: Vec<FileEntry> = files.iter().map(|(n, c)| entry(n, c.len() as u64)).collect();
    sort_names(&mut entries);
    let content: HashMap<String, Vec<u8>> = files.iter().map(|(n, c)| (n.to_string(), c.to_vec())).collect();
    let needed = hash_needed(&entries);
    let hashes: Vec<Option<HashValue>> = entries
        .iter()
        .zip(needed.iter())
        .map(|(e, &n)| if n { Some(digest(&content[&e.file_name])) } else { None })
        .collect();
    let mut det = Detection::new();
    for g in candidate_groups(&entries, &hashes) {
        let mut cl = Clustering::new(g.members.clone());
        while let Some((a, b)) = cl.next_pair() {
            let same = content[&entries[a].file_name] == content[&entries[b].file_name];
            cl.record(if same { Comparison::Same } else { Comparison::Different });
        }
        let (groups, errors) = cl.into_groups(&entries, &g);
        det.absorb(groups, errors);
    }
    (entries, det)
}

fn md5(c: &[u8]) -> HashValue {
    Md5Hasher.digest(c)
}

#[test]
fn identical_content_across_extensions() {
    let (_, d) = detect(&[("a.jpg", b"DATA1"), ("b.png", b"DATA1"), ("c.webp", b"OTHER")], &md5);
    assert_eq!(d.groups.len(), 1);
    assert_eq!(d.groups[0].keep.file_name, "a.jpg");
    assert_eq!(d.groups[0].duplicates.len(), 1);
    assert_eq!(d.groups[0].duplicates[0].file_name, "b.png");
}

#[test]
fn same_size_different_content_not_duplicates() {
    let (_, d) = detect(&[("x.bin", b"AAAA"), ("y.bin", b"BBBB")], &md5);
    assert!(d.groups.is_empty());
}

#[test]
fn different_sizes_never_compared() {
    let (entries, d) = detect(&[("a", b"same"), ("b", b"same!")], &md5);
    assert!(d.groups.is_empty());
    assert_eq!(hash_needed(&entries), vec![false, false]);
}

#[test]
fn md5_collision_guarded_by_byte_verify() {
    let colliding = |_: &[u8]| HashValue(vec![0xAB; 16]);
    let (_, d) = detect(
        &[("f1.bin", b"CONTENT-ONE"), ("f2.bin", b"CONTENT-TWO"), ("f3.bin", b"CONTENT-ONE")],
        &colliding,
    );
    assert_eq!(d.groups.len(), 1);
    assert_eq!(d.groups[0].keep.file_name, "f1.bin");
    assert_eq!(d.groups[0].duplicates.len(), 1);
    assert_eq!(d.groups[0].duplicates[0].file_name, "f3.bin");
}

#[test]
fn keep_is_natural_sort_first() {
    let (_, d) = detect(&[("IMG_2.jpg", b"same"), ("IMG_10.jpg", b"same"), ("IMG_1.jpg", b"same")], &md5);
    assert_eq!(d.groups.len(), 1);
    assert_eq!(d.groups[0].keep.file_name, "IMG_1.jpg");
    let dup_names: Vec<&str> = d.groups[0].duplicates.iter().map(|f| f.file_name.as_str()).collect();
    assert_eq!(dup_names, vec!["IMG_2.jpg", "IMG_10.jpg"]);
}

#[test]
fn empty_files_all_duplicates_of_each_other() {
    let (_, d) = detect(&[("e1", b""), ("e2", b""), ("e3", b"")], &md5);
    assert_eq!(d.groups.len(), 1);
    assert_eq!(d.groups[0].duplicates.len(), 2);
}

#[test]
fn unreadable_member_is_kept_and_reported() {
    let entries = vec![entry("a", 3), entry("b", 3), entry("c", 3)];
    let h = Some(HashValue(vec![1, 2]));
    let hashes = vec![h.clone(), h.clone(), h];
    let groups = candidate_groups(&entries, &hashes);
    assert_eq!(groups.len(), 1);
    assert_eq!(groups[0].members, vec![0, 1, 2]);
    let mut cl = Clustering::new(groups[0].members.clone());
    assert_eq!(cl.next_pair(), Some((0, 1)));
    cl.record(Comparison::Unreadable("denied".to_string()));
    assert_eq!(cl.next_pair(), Some((0, 2)));
    cl.record(Comparison::Same);
    assert_eq!(cl.next_pair(), None);
    let (gs, errs) = cl.into_groups(&entries, &groups[0]);
    assert_eq!(gs.len(), 1);
    assert_eq!(gs[0].keep.file_name, "a");
    assert_eq!(gs[0].duplicates[0].file_name, "c");
    assert_eq!(gs[0].hash.hex(), "0102");
    assert_eq!(errs.len(), 1);
    assert_eq!(errs[0].operation, "verify");
    assert_eq!(errs[0].message, "内容二次验证失败: denied");
}

#[test]
fn candidate_groups_order_by_size_then_digest() {
    let entries = vec![entry("a", 9), entry("b", 2), entry("c", 9), entry("d", 2), entry("e", 2)];
    let hashes = vec![
        Some(HashValue(vec![0xff])),
        Some(HashValue(vec![0x10])),
        Some(HashValue(vec![0xff])),
        Some(HashValue(vec![0x01])),
        Some(HashValue(vec![0x10])),
    ];
    let groups = candidate_groups(&entries, &hashes);
    assert_eq!(groups.len(), 2);
    assert_eq!(groups[0].size, 2);
    assert_eq!(groups[0].members, vec![1, 4]);
    assert_eq!(groups[1].size, 9);
    assert_eq!(groups[1].members, vec![0, 2]);
}

#[test]
fn hex_renders_lowercase_pairs() {
    assert_eq!(HashValue(vec![0x00, 0x0f, 0xa0, 0xff]).hex(), "000fa0ff");
    assert_eq!(HashValue(vec![]).hex(), "");
}

#[test]
fn digests_match_known_values() {
    assert_eq!(Md5Hasher.digest(b"").hex(), "d41d8cd98f00b204e9800998ecf8427e");
    assert_eq!(Md5Hasher.digest(b"abc").hex(), "900150983cd24fb0d6963f7d28e17f72");
    assert_eq!(
        Sha256Hasher.digest(b"abc").hex(),
        "ba7816bf8f01cfea414140de5dae2223b00361a396177a9cb410ff61f20015ad"
    );
    let h = Md5Hasher;
    let mut s = h.begin();
    h.absorb(&mut s, b"a");
    h.absorb(&mut s, b"bc");
    assert_eq!(h.finish(s), Md5Hasher.digest(b"abc"));
    assert_eq!(Md5Hasher.algorithm(), "md5");
    assert_eq!(Sha256Hasher.algorithm(), "sha256");
}

fn plan_of(names: &[&str]) -> hashrename::rename_planner::RenamePlan {
    let mut remaining: Vec<FileEntry> = names.iter().map(|n| entry(n, 1)).collect();
    sort_names(&mut remaining);
    plan_renames(&remaining, &OccupiedNames::new(), 42, "tok1")
}

#[test]
fn two_phase_rename_happy_path() {
    let remaining = vec![entry("zeta.jpg", 1), entry("alpha.jpg", 1), entry("mid.png", 1)];
    let plan = plan_renames(&remaining, &OccupiedNames::new(), 42, "tok1");
    assert_eq!(plan.ops.len(), 3);
    let mut finals: Vec<String> = plan.ops.iter().map(|o| o.final_name.clone()).collect();
    finals.sort();
    assert_eq!(finals, vec!["001.jpg", "002.jpg", "003.png"]);
    let mut ex = Execution::new(&plan);
    let mut actions = Vec::new();
    loop {
        let a = ex.next_action(false);
        if a == ExecAction::Finished {
            break;
        }
        actions.push(a);
        ex.report(RenameResult::Done);
    }
    assert_eq!(
        actions,
        vec![
            ExecAction::ToTemp(0),
            ExecAction::ToTemp(1),
            ExecAction::ToTemp(2),
            ExecAction::ToFinal(0),
            ExecAction::ToFinal(1),
            ExecAction::ToFinal(2),
        ]
    );
    let out = ex.outcome(&plan, &PathBuf::from("/d"));
    assert_eq!(out.renamed, 3);
    assert!(!out.aborted);
    assert!(out.errors.is_empty());
    assert!(ex.warnings().is_empty());
}

#[test]
fn temp_failure_rolls_back_everything_moved() {
    let plan = plan_of(&["a.jpg", "b.jpg", "c.jpg"]);
    let mut ex = Execution::new(&plan);
    assert_eq!(ex.next_action(false), ExecAction::ToTemp(0));
    ex.report(RenameResult::Done);
    assert_eq!(ex.next_action(false), ExecAction::ToTemp(1));
    ex.report(RenameResult::Done);
    assert_eq!(ex.next_action(false), ExecAction::ToTemp(2));
    ex.report(RenameResult::Failed { already_exists: false, detail: "busy".to_string() });
    assert_eq!(ex.next_action(false), ExecAction::Rollback(0));
    ex.report(RenameResult::Done);
    assert_eq!(ex.next_action(false), ExecAction::Rollback(1));
    ex.report(RenameResult::Failed { already_exists: false, detail: "gone".to_string() });
    assert_eq!(ex.next_action(false), ExecAction::Finished);
    let out = ex.outcome(&plan, &PathBuf::from("/d"));
    assert!(out.aborted);
    assert_eq!(out.renamed, 0);
    assert_eq!(out.errors.len(), 2);
    assert_eq!(out.errors[0].message, "无法重命名为临时名: busy");
    assert_eq!(out.errors[1].message, "回滚临时改名失败: gone");
    assert_eq!(ex.warnings(), vec!["重命名阶段遇到错误,已回滚全部临时改名".to_string()]);
}

#[test]
fn final_name_taken_is_never_replaced() {
    let plan = plan_of(&["a.txt", "b.jpg"]);
    let mut ex = Execution::new(&plan);
    assert_eq!(ex.next_action(false), ExecAction::ToTemp(0));
    ex.report(RenameResult::Done);
    assert_eq!(ex.next_action(false), ExecAction::ToTemp(1));
    ex.report(RenameResult::Done);
    assert_eq!(ex.next_action(false), ExecAction::ToFinal(0));
    ex.report(RenameResult::Failed { already_exists: true, detail: "exists".to_string() });
    assert_eq!(ex.next_action(false), ExecAction::Restore(0));
    ex.report(RenameResult::Done);
    assert_eq!(ex.next_action(false), ExecAction::ToFinal(1));
    ex.report(RenameResult::Done);
    assert_eq!(ex.next_action(false), ExecAction::RestoreIfPresent(0));
    ex.report(RenameResult::Absent);
    assert_eq!(ex.next_action(false), ExecAction::RestoreIfPresent(1));
    ex.report(RenameResult::Absent);
    assert_eq!(ex.next_action(false), ExecAction::Finished);
    let out = ex.outcome(&plan, &PathBuf::from("/d"));
    assert_eq!(out.renamed, 1);
    assert!(!out.aborted);
    assert_eq!(out.errors.len(), 1);
    assert_eq!(out.errors[0].message, "目标名 001.txt 已存在,拒绝覆盖");
}

#[test]
fn cancel_during_phase_one_rolls_back() {
    let plan = plan_of(&["a.jpg", "b.jpg"]);
    let mut ex = Execution::new(&plan);
    assert_eq!(ex.next_action(false), ExecAction::ToTemp(0));
    ex.report(RenameResult::Done);
    assert_eq!(ex.next_action(true), ExecAction::Rollback(0));
    ex.report(RenameResult::Done);
    assert_eq!(ex.next_action(true), ExecAction::Finished);
    let out = ex.outcome(&plan, &PathBuf::from("/d"));
    assert!(out.aborted);
    assert!(out.errors.is_empty());
    assert!(ex.warnings().is_empty());
}

#[test]
fn unresolved_temps_are_counted_in_a_warning() {
    let plan = plan_of(&["a.jpg"]);
    let mut ex = Execution::new(&plan);
    assert_eq!(ex.next_action(false), ExecAction::ToTemp(0));
    ex.report(RenameResult::Done);
    assert_eq!(ex.next_action(false), ExecAction::ToFinal(0));
    ex.report(RenameResult::Failed { already_exists: false, detail: "io".to_string() });
    assert_eq!(ex.next_action(false), ExecAction::Restore(0));
    ex.report(RenameResult::Failed { already_exists: false, detail: "io".to_string() });
    assert_eq!(ex.next_action(false), ExecAction::RestoreIfPresent(0));
    ex.report(RenameResult::Failed { already_exists: false, detail: "io".to_string() });
    assert_eq!(ex.next_action(false), ExecAction::Finished);
    let out = ex.outcome(&plan, &PathBuf::from("/d"));
    assert_eq!(out.errors[0].message, "最终重命名失败: io");
    assert_eq!(
        ex.warnings(),
        vec!["有 2 个临时文件未能还原,journal 已保留,下次运行时将自动恢复".to_string()]
    );
}

#[test]
fn noop_operations_count_without_renaming() {
    let plan = plan_of(&["001.jpg", "002.jpg"]);
    let mut ex = Execution::new(&plan);
    assert_eq!(ex.next_action(false), ExecAction::Finished);
    let out = ex.outcome(&plan, &PathBuf::from("/d"));
    assert_eq!(out.renamed, 2);
}

#[test]
fn journal_names_and_contents() {
    assert_eq!(journal_file_name(99, "deadbeef"), ".hashrename_journal_99_deadbeef.json");
    assert_eq!(journal_part_file_name(7, "t"), ".hashrename_journal_7_t.part");
    assert_eq!(
        journal_path(&PathBuf::from("/d"), 99, "deadbeef"),
        PathBuf::from("/d/.hashrename_journal_99_deadbeef.json")
    );
    let plan = plan_of(&["b.jpg", "001.jpg"]);
    let j = Journal::for_plan(&plan, "tok1", "/d".to_string());
    assert_eq!(j.version, 1);
    assert_eq!(j.entries.len(), 2);
    assert_eq!(j.entries[0].original, "001.jpg");
    assert!(j.entries[0].noop);
    assert_eq!(j.entries[1].final_name, "002.jpg");
    assert_eq!(j.entries[1].temp, ".hashrename_tmp_42_tok1_2");
    assert_eq!(j.pending_entries(), vec![1]);
}

#[test]
fn leftovers_are_classified_by_prefix() {
    assert_eq!(leftover_kind(".hashrename_journal_1_x.json"), Leftover::Journal);
    assert_eq!(leftover_kind(".hashrename_tmp_1_x_1"), Leftover::Temp);
    assert_eq!(leftover_kind(".hashrename.lock"), Leftover::Other);
    assert_eq!(leftover_kind("photo.jpg"), Leftover::Other);
}

#[test]
fn recovery_report_counts_and_messages() {
    let temp = PathBuf::from("/d/t");
    let mut r = RecoveryReport::new();
    assert!(!r.after_final(RenameResult::Done, &temp));
    assert!(r.after_final(RenameResult::Failed { already_exists: true, detail: "x".to_string() }, &temp));
    r.after_restore(RenameResult::Done, &temp);
    assert!(!r.after_final(RenameResult::Failed { already_exists: false, detail: "io".to_string() }, &temp));
    r.after_restore(RenameResult::Failed { already_exists: false, detail: "io2".to_string() }, &temp);
    r.after_journal_removal(Ok(()), &temp);
    r.after_journal_removal(Err("busy".to_string()), &temp);
    r.note_orphans(&vec!["/d/.hashrename_tmp_x".to_string()]);
    r.note_corrupt_journal("/d/j");
    assert_eq!(r.recovered_finals, 1);
    assert_eq!(r.restored_temps, 1);
    assert_eq!(r.removed_journals, 1);
    assert_eq!(r.orphan_temps, 1);
    let msgs: Vec<&str> = r.errors.iter().map(|e| e.message.as_str()).collect();
    assert_eq!(msgs, vec!["无法完成中断的重命名: io", "无法恢复临时文件: io2", "无法删除 journal: busy"]);
    assert_eq!(
        r.warnings,
        vec![
            "发现无法识别来源的临时文件 /d/.hashrename_tmp_x,已排除在处理之外,请手动检查".to_string(),
            "journal 文件损坏,无法自动恢复: /d/j".to_string(),
        ]
    );
    assert_eq!(r.summary(), Some("已恢复上次中断的任务:补完重命名 1 个,还原 1 个".to_string()));
    assert_eq!(RecoveryReport::new().summary(), None);
}

#[test]
fn extensions_follow_path_rules() {
    assert_eq!(extension_of("a.jpg"), Some("jpg".to_string()));
    assert_eq!(extension_of("b.Tar.gz"), Some("gz".to_string()));
    assert_eq!(extension_of(".hidden"), None);
    assert_eq!(extension_of("Makefile"), None);
    assert_eq!(extension_of("trail."), Some("".to_string()));
    assert_eq!(extension_of(".."), None);
    assert_eq!(extension_of("..a"), Some("a".to_string()));
    for n in ["x.y.z", ".a.b", "plain", "a.", ".", "文件.文本"] {
        let std_ext = std::path::Path::new(n).extension().map(|e| e.to_string_lossy().to_string());
        assert_eq!(extension_of(n), std_ext, "{n}");
    }
}

#[test]
fn scan_result_records_and_sorts() {
    let mut s = ScanResult::new();
    assert!(is_internal_name(".hashrename.lock"));
    assert!(!is_internal_name(".hidden"));
    s.note_internal();
    s.note_other(PathBuf::from("/d/sub"), "sub".to_string(), EntryKind::Directory);
    s.note_other(PathBuf::from("/d/ln"), "ln".to_string(), EntryKind::Symlink);
    s.note_other(PathBuf::from("/d/fifo"), "fifo".to_string(), EntryKind::Special);
    s.note_file(PathBuf::from("/d/b.txt"), "b.txt".to_string(), 2);
    s.note_file(PathBuf::from("/d/a.jpg"), "a.jpg".to_string(), 1);
    s.note_error(ScanErrorKind::Metadata, &PathBuf::from("/d/x"), "denied");
    s.finish();
    let names: Vec<&str> = s.files.iter().map(|f| f.file_name.as_str()).collect();
    assert_eq!(names, vec!["a.jpg", "b.txt"]);
    assert_eq!(s.files[0].extension, Some("jpg".to_string()));
    let kinds: Vec<&str> = s.skipped.iter().map(|k| k.kind.as_str()).collect();
    assert_eq!(kinds, vec!["directory", "symlink", "special"]);
    assert_eq!(s.internal_count, 1);
    assert_eq!(s.errors[0].operation, "scan");
    assert_eq!(s.errors[0].message, "无法获取文件信息: denied");
}

#[test]
fn digests_are_needed_only_for_shared_sizes() {
    let files = vec![entry("a", 1), entry("b", 2), entry("c", 1), entry("d", 3)];
    assert_eq!(hash_needed(&files), vec![true, false, true, false]);
}

#[test]
fn digest_results_are_split() {
    let e = FileError::with_display("hash", "/d/b".to_string(), "bad".to_string());
    let (h, errs) = split_digests(vec![Some(Ok(HashValue(vec![1]))), Some(Err(e)), None]);
    assert_eq!(h, vec![Some(HashValue(vec![1])), None, None]);
    assert_eq!(errs.len(), 1);
    assert_eq!(errs[0].message, "bad");
}

#[test]
fn trash_pass_stops_at_first_failure() {
    let (entries, d) = detect(&[("a", b"x"), ("b", b"x"), ("c", b"x"), ("e", b"yy"), ("f", b"yy")], &md5);
    let targets = trash_targets(&entries, &d.groups);
    assert_eq!(targets, vec![1, 2, 4]);
    let mut run = TrashRun::new(targets, entries.len());
    let t = run.next_target(false).unwrap();
    run.report(Ok(()), &entries[t].path);
    let t = run.next_target(false).unwrap();
    run.report(Err("no trash".to_string()), &entries[t].path);
    assert_eq!(run.next_target(false), None);
    assert_eq!(run.count, 1);
    assert_eq!(run.trashed, vec![false, true, false, false, false]);
    assert_eq!(run.errors[0].operation, "trash");
    assert_eq!(run.warnings.len(), 1);
    let rest = remaining_files(&entries, &run.trashed);
    let names: Vec<&str> = rest.iter().map(|f| f.file_name.as_str()).collect();
    assert_eq!(names, vec!["a", "c", "e", "f"]);
}

#[test]
fn trash_pass_stops_on_cancel() {
    let mut run = TrashRun::new(vec![0, 1], 2);
    assert_eq!(run.next_target(true), None);
    assert!(run.stopped);
    assert_eq!(run.count, 0);
}

#[test]
fn skipped_names_are_occupied() {
    let mut s = ScanResult::new();
    s.note_other(PathBuf::from("/d/001.jpg"), "001.jpg".to_string(), EntryKind::Directory);
    let occ = occupied_for(&s.skipped, true);
    assert!(occ.contains("001.jpg"));
    let remaining = vec![entry("A.jpg", 1), entry("B.jpg", 1)];
    let plan = plan_renames(&remaining, &occ, 1, "t");
    let errs = blocked_errors(&plan, &remaining);
    assert_eq!(errs.len(), 1);
    assert_eq!(errs[0].operation, "rename");
    assert_eq!(errs[0].message, plan.blocked[0].reason);
}

#[test]
fn thread_counts_are_clamped() {
    assert_eq!(thread_count(None), 4);
    assert_eq!(thread_count(Some(0)), 1);
    assert_eq!(thread_count(Some(3)), 3);
    assert_eq!(thread_count(Some(64)), 8);
    assert_eq!(ProcessOptions::with_threads(Some(2)).hash_threads, 2);
}

#[test]
fn results_are_finished_and_summarised() {
    let mut r = ProcessingResult::empty();
    r.directory = "/d".to_string();
    r.scanned_count = 5;
    r.errors.push(FileError::with_display("trash", "/d/x".to_string(), "m".to_string()));
    r.finish(false, 10);
    assert_eq!(r.failed_count, 1);
    assert!(!r.ok());
    assert_eq!(exit_status(&r), 1);
    let head = summary_head(&r);
    assert_eq!(head[2], "HashRename 完成(存在部分错误)");
    assert_eq!(head[3], "目录: /d");
    assert_eq!(head[4], "扫描文件: 5");
    assert_eq!(head[9], "失败: 1");
    let tail = summary_tail(&r);
    assert_eq!(tail, vec!["".to_string(), "错误明细(最多显示 20 条):".to_string(), "  [trash] /d/x: m".to_string()]);
    let mut c = ProcessingResult::empty();
    c.finish_cancelled(3);
    assert!(c.cancelled);
    assert_eq!(c.warnings, vec!["任务已取消".to_string()]);
    assert_eq!(summary_head(&c)[2], "HashRename 已取消");
    assert_eq!(exit_status(&ProcessingResult::empty()), 0);
}

#[test]
fn many_errors_are_truncated_in_summary() {
    let mut r = ProcessingResult::empty();
    for i in 0..25 {
        r.errors.push(FileError::with_display("rename", format!("/d/{i}"), "m".to_string()));
    }
    let tail = summary_tail(&r);
    assert_eq!(tail.len(), 2 + 20 + 1);
    assert_eq!(tail[22], "  ... 共 25 条错误");
}

fn args(v: &[&str]) -> Vec<String> {
    v.iter().map(|s| s.to_string()).collect()
}

#[test]
fn arguments_are_parsed() {
    let md5 = HashAlgorithm::Md5;
    assert_eq!(parse_args(&args(&[])), Invocation::Gui { dir: None, dry_run: false, hash: md5 });
    assert_eq!(parse_args(&args(&["--help", "--bogus"])), Invocation::Help);
    assert_eq!(parse_args(&args(&["-V"])), Invocation::Version);
    assert_eq!(parse_args(&args(&["--bogus"])), Invocation::UnknownOption("--bogus".to_string()));
    assert_eq!(parse_args(&args(&["a", "b"])), Invocation::TooManyDirectories);
    assert_eq!(
        parse_args(&args(&["--verbose", "--cli", "/x"])),
        Invocation::Cli { dir: "/x".to_string(), verbose: true, dry_run: false, hash: md5 }
    );
    assert_eq!(
        parse_args(&args(&["--gui", "/y"])),
        Invocation::Gui { dir: Some("/y".to_string()), dry_run: false, hash: md5 }
    );
    assert_eq!(
        parse_args(&args(&["/z"])),
        Invocation::Auto { dir: "/z".to_string(), verbose: false, dry_run: false, hash: md5 }
    );
    assert_eq!(
        parse_args(&args(&["--uninstall-context-menu"])),
        Invocation::ContextMenu { install: false }
    );
    assert_eq!(
        parse_args(&args(&["--install-context-menu", "/z"])),
        Invocation::ContextMenu { install: true }
    );
    assert_eq!(parse_args(&args(&["--cli"])), Invocation::Gui { dir: None, dry_run: false, hash: md5 });
}

#[test]
fn preview_and_algorithm_options_are_parsed() {
    assert_eq!(
        parse_args(&args(&["--dry-run", "/d"])),
        Invocation::Auto { dir: "/d".to_string(), verbose: false, dry_run: true, hash: HashAlgorithm::Md5 }
    );
    assert_eq!(
        parse_args(&args(&["--hash", "md5", "/d"])),
        Invocation::Auto { dir: "/d".to_string(), verbose: false, dry_run: false, hash: HashAlgorithm::Md5 }
    );
    assert_eq!(
        parse_args(&args(&["--hash", "sha256", "--dry-run", "--cli", "/x"])),
        Invocation::Cli { dir: "/x".to_string(), verbose: false, dry_run: true, hash: HashAlgorithm::Sha256 }
    );
    assert_eq!(
        parse_args(&args(&["--gui", "/y", "--hash", "sha256"])),
        Invocation::Gui { dir: Some("/y".to_string()), dry_run: false, hash: HashAlgorithm::Sha256 }
    );
    assert_eq!(parse_args(&args(&["--hash", "xxh3", "/d"])), Invocation::UnknownAlgorithm("xxh3".to_string()));
    assert_eq!(parse_args(&args(&["/d", "--hash"])), Invocation::UnknownAlgorithm(String::new()));
    assert_eq!(parse_args(&args(&["--hash", "MD5"])), Invocation::UnknownAlgorithm("MD5".to_string()));
}

#[test]
fn algorithm_names_are_parsed() {
    assert_eq!(HashAlgorithm::parse("md5"), Ok(HashAlgorithm::Md5));
    assert_eq!(HashAlgorithm::parse("sha256"), Ok(HashAlgorithm::Sha256));
    assert_eq!(HashAlgorithm::parse("xxh3"), Err("未知哈希算法: xxh3(可选:md5 / sha256)".to_string()));
    assert_eq!(HashAlgorithm::Sha256.as_str(), "sha256");
    assert_eq!(HashAlgorithm::default(), HashAlgorithm::Md5);
}

#[test]
fn stages_follow_each_other() {
    let walk = |dry_run: bool, has_ops: bool| {
        let mut s = first_stage(dry_run);
        let mut seen = vec![s];
        while s != Stage::Done {
            s = next_stage(s, false, dry_run, has_ops).unwrap();
            seen.push(s);
        }
        seen
    };
    assert_eq!(walk(false, true), vec![Stage::Recover, Stage::Scan, Stage::Hash, Stage::Verify, Stage::Trash, Stage::Plan, Stage::Rename, Stage::Done]);
    assert_eq!(walk(false, false), vec![Stage::Recover, Stage::Scan, Stage::Hash, Stage::Verify, Stage::Trash, Stage::Plan, Stage::Done]);
    assert_eq!(walk(true, true), vec![Stage::Scan, Stage::Hash, Stage::Verify, Stage::Plan, Stage::Done]);
    assert_eq!(next_stage(Stage::Hash, true, false, true), None);
    assert_eq!(next_stage(Stage::Verify, true, true, true), None);
    assert_eq!(next_stage(Stage::Plan, true, false, false), None);
    assert_eq!(next_stage(Stage::Plan, true, true, true), None);
    assert_eq!(next_stage(Stage::Recover, true, false, true), Some(Stage::Scan));
    assert_eq!(next_stage(Stage::Trash, true, false, true), Some(Stage::Plan));
    assert_eq!(next_stage(Stage::Rename, true, false, true), Some(Stage::Done));
}

#[test]
fn a_preview_marks_every_duplicate_and_records_its_plan() {
    assert_eq!(marked(&vec![2, 0], 3), vec![true, false, true]);
    assert_eq!(marked(&vec![], 2), vec![false, false]);
    let files = vec![entry("a.txt", 1), entry("b.txt", 1), entry("c.txt", 2)];
    let gone = marked(&vec![1], 3);
    let remaining = remaining_files(&files, &gone);
    let mut r = ProcessingResult::for_run(&ProcessOptions::new(Some(2), HashAlgorithm::Sha256, true));
    assert_eq!(r.hash_algorithm, "sha256");
    assert!(r.dry_run);
    r.absorb_remaining(&remaining);
    assert_eq!(r.kept_count, 2);
    let group = DuplicateGroup {
        size: 1,
        hash: HashValue(vec![1; 16]),
        keep: files[0].clone(),
        duplicates: vec![files[1].clone()],
    };
    let op = |i: usize, from: &str, to: &str| RenameOp {
        entry_index: i,
        original: PathBuf::from("/d").join(from),
        original_name: from.to_string(),
        temporary_name: format!(".hashrename-tmp-{i}"),
        final_name: to.to_string(),
        is_noop: from == to,
    };
    let plan = RenamePlan { ops: vec![op(0, "a.txt", "1.txt"), op(1, "2.txt", "2.txt")], blocked: vec![], width: 1 };
    r.record_preview(&[group], &plan);
    assert_eq!(r.planned_trashes, vec!["b.txt".to_string()]);
    assert_eq!(r.planned_renames.len(), 1);
    assert_eq!(r.planned_renames[0].from, "a.txt");
    assert_eq!(r.planned_renames[0].to, "1.txt");
}

#[test]
fn a_preview_summary_lists_the_plan() {
    let mut r = ProcessingResult::empty();
    r.directory = "/d".to_string();
    r.hash_algorithm = "md5".to_string();
    r.dry_run = true;
    r.scanned_count = 3;
    r.duplicate_count = 1;
    r.planned_trashes = vec!["b.txt".to_string()];
    r.planned_renames = vec![PlannedRename { from: "a.txt".to_string(), to: "1.txt".to_string() }];
    r.warnings = vec!["w".to_string()];
    r.errors.push(FileError::with_display("plan", "/d/x".to_string(), "m".to_string()));
    r.finish(false, 5);
    let head = summary_head(&r);
    let expected: Vec<String> = [
        "",
        "====================",
        "HashRename 预览完成(未修改任何文件)",
        "目录: /d",
        "哈希算法: md5",
        "扫描文件: 3",
        "发现重复: 1",
        "计划移入回收站: 1",
        "计划重命名: 1",
        "",
        "将移入回收站(最多显示 30 条):",
        "  ☠ b.txt",
        "",
        "将重命名(最多显示 50 条):",
        "  a.txt → 1.txt",
        "⚠ w",
    ]
    .iter()
    .map(|s| s.to_string())
    .collect();
    assert_eq!(head, expected);
    assert!(summary_tail(&r).is_empty());
    let mut many = ProcessingResult::empty();
    many.dry_run = true;
    many.planned_trashes = (0..40).map(|i| format!("{i}.txt")).collect();
    let h = summary_head(&many);
    assert_eq!(h[6], "计划移入回收站: 40");
    assert_eq!(h[7], "计划重命名: 0");
    assert_eq!(h.len(), 8 + 2 + 30);
    assert_eq!(h[h.len() - 1], "  ☠ 29.txt");
    let mut c = ProcessingResult::empty();
    c.dry_run = true;
    c.cancelled = true;
    assert_eq!(summary_head(&c)[2], "HashRename 已取消");
}

#[test]
fn equal_names_keep_their_order_when_sorted() {
    let mut v = vec![entry("b", 1), entry("a", 1), entry("b", 2), entry("a", 2), entry("a", 3)];
    sort_names(&mut v);
    let got: Vec<(String, u64)> = v.iter().map(|f| (f.file_name.clone(), f.size)).collect();
    assert_eq!(
        got,
        vec![
            ("a".to_string(), 1),
            ("a".to_string(), 2),
            ("a".to_string(), 3),
            ("b".to_string(), 1),
            ("b".to_string(), 2),
        ]
    );
    check_lowering("Ärger10.TXT");
}

#[test]
fn lock_staleness_rules() {
    let c = LockContent { pid: 10, token: "t".to_string(), started_at_ms: 1_000 };
    assert_eq!(staleness(None, 5_000, 1), Staleness::Stale);
    assert_eq!(staleness(Some(&c), 5_000, 1), Staleness::DependsOn(10));
    assert_eq!(staleness(Some(&c), 5_000, 10), Staleness::Held);
    assert_eq!(staleness(Some(&c), 1_000 + 86_400_001, 10), Staleness::Stale);
    assert_eq!(staleness(Some(&c), 1_000 + 86_400_000, 1), Staleness::DependsOn(10));
    assert_eq!(staleness(Some(&c), 0, 1), Staleness::DependsOn(10));
    let mut l = DirLock::new(PathBuf::from("/d").join(LOCK_FILE_NAME));
    assert_eq!(l.release(), Some(PathBuf::from("/d/.hashrename.lock")));
    assert_eq!(l.release(), None);
}

#[test]
fn launch_info_carries_dir_and_version() {
    let l = LaunchInfo::new(Some("/d".to_string()), "1.0.0");
    assert_eq!(l.dir.as_deref(), Some("/d"));
    assert_eq!(l.version, "1.0.0");
}

#[test]
fn fatal_result_carries_one_error() {
    let r = ProcessingResult::fatal("/d".to_string(), &PathBuf::from("/d"), "boom".to_string());
    assert_eq!(r.directory, "/d");
    assert_eq!(r.failed_count, 1);
    assert_eq!(r.errors.len(), 1);
    assert_eq!(r.errors[0].operation, "fatal");
    assert_eq!(r.errors[0].path, "/d");
    assert_eq!(r.errors[0].message, "boom");
    assert!(!r.ok());
}

#[test]
fn io_errors_name_operation_and_path() {
    let e = HrError::io("lock", &PathBuf::from("/d/x"), std::io::Error::other("denied"));
    match e {
        HrError::Io { operation, path, source } => {
            assert_eq!(operation, "lock");
            assert_eq!(path, "/d/x");
            assert_eq!(source.to_string(), "denied");
        }
        _ => panic!("expected an I/O error"),
    }
}

#[test]
fn stage_decisions() {
    assert_eq!(rename_stage(true, false), RenameStage::Execute);
    assert_eq!(rename_stage(true, true), RenameStage::Cancel);
    assert_eq!(rename_stage(false, true), RenameStage::Cancel);
    assert_eq!(rename_stage(false, false), RenameStage::Skip);
    assert!(keep_journal(1));
    assert!(!keep_journal(0));
    let p = PathBuf::from("/d/a");
    assert_eq!(digest_error(&p, true, "x").message, "任务已取消");
    assert_eq!(digest_error(&p, false, "x").message, "无法读取文件进行哈希: x");
    assert_eq!(digest_error(&p, false, "x").operation, "hash");
}

#[test]
fn results_absorb_stages() {
    let mut r = ProcessingResult::empty();
    let mut run = TrashRun::new(vec![0], 1);
    let t = run.next_target(false).unwrap();
    run.report(Err("x".to_string()), &PathBuf::from(format!("/d/{t}")));
    r.absorb_trash(&mut run);
    assert_eq!(r.trashed_count, 0);
    assert_eq!(r.errors.len(), 1);
    assert_eq!(r.warnings.len(), 1);
    r.journal_failed(FileError::with_display("plan", "/d/j".to_string(), "no".to_string()));
    assert_eq!(r.errors.len(), 2);
    assert_eq!(r.warnings[1], "无法写入 journal,已放弃重命名阶段");
    let mut rec = RecoveryReport::new();
    rec.note_corrupt_journal("/d/j");
    r.absorb_recovery(rec);
    assert_eq!(r.warnings.len(), 3);
}

#[test]
fn kept_files_are_scanned_less_trashed() {
    let files = vec![entry("a.txt", 1), entry("b.txt", 1), entry("c.txt", 1)];
    let mut run = TrashRun::new(vec![0, 2], files.len());
    while let Some(t) = run.next_target(false) {
        run.report(Ok(()), &files[t].path);
    }
    let remaining = remaining_files(&files, &run.trashed);
    assert_eq!(run.count, 2);
    assert_eq!(remaining.len() + run.count, files.len());
    assert_eq!(remaining[0].file_name, "b.txt");
    let mut r = ProcessingResult::empty();
    r.scanned_count = files.len();
    r.absorb_trash(&mut run);
    r.absorb_remaining(&remaining);
    assert_eq!(r.kept_count, r.scanned_count - r.trashed_count);
}
