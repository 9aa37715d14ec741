//! The rename journal, and recovery after an interrupted run.
//!
//! Before any file is renamed, the plan is written to a journal beside the
//! files. A run that is interrupted leaves its journal (and possibly some
//! temporary files) behind; the next run finishes each interrupted rename
//! whose temporary file is still there, or, when its final name has been
//! taken meanwhile, moves it back to its original name.

use vstd::prelude::*;
use std::path::PathBuf;
use crate::rename_planner::{RenamePlan, RenameOp};
use crate::error::FileError;
use crate::paths::{join_name, joined, shown};
use crate::platform::INTERNAL_PREFIX;
use crate::execution::RenameResult;
use crate::text::{push_str, push_all, decimal, decimal_chars, starts_with, has_prefix};

verus! {

/// Name of the journal of the run (`pid`, `token`).
pub open spec fn journal_name(pid: nat, token: Seq<char>) -> Seq<char> {
    INTERNAL_PREFIX@ + "_journal_"@ + decimal(pid) + "_"@ + token + ".json"@
}

/// Name of the journal being written, before it is moved into place.
pub open spec fn journal_part_name(pid: nat, token: Seq<char>) -> Seq<char> {
    INTERNAL_PREFIX@ + "_journal_"@ + decimal(pid) + "_"@ + token + ".part"@
}

fn journal_stem(pid: u32, token: &str) -> (r: String)
    ensures
        r@ == INTERNAL_PREFIX@ + "_journal_"@ + decimal(pid as nat) + "_"@ + token@,
{
    let mut s = String::new();
    push_str(&mut s, INTERNAL_PREFIX);
    push_str(&mut s, "_journal_");
    let d = decimal_chars(pid as u64);
    push_all(&mut s, &d);
    push_str(&mut s, "_");
    push_str(&mut s, token);
    s
}

pub fn journal_file_name(pid: u32, token: &str) -> (r: String)
    ensures
        r@ == journal_name(pid as nat, token@),
{
    let mut s = journal_stem(pid, token);
    push_str(&mut s, ".json");
    s
}

pub fn journal_part_file_name(pid: u32, token: &str) -> (r: String)
    ensures
        r@ == journal_part_name(pid as nat, token@),
{
    let mut s = journal_stem(pid, token);
    push_str(&mut s, ".part");
    s
}

/// The journal of the run (`pid`, `token`) in `dir`.
pub fn journal_path(dir: &PathBuf, pid: u32, token: &str) -> (r: PathBuf)
    ensures
        r == joined(*dir, journal_name(pid as nat, token@)),
{
    let name = journal_file_name(pid, token);
    join_name(dir, name.as_str())
}

/// One planned rename, as the journal records it.
pub struct JournalEntry {
    pub temp: String,
    pub original: String,
    pub final_name: String,
    pub noop: bool,
}

/// A rename plan as written to disk.
pub struct Journal {
    pub version: u32,
    pub token: String,
    pub directory: String,
    pub entries: Vec<JournalEntry>,
}

pub open spec fn entry_matches(e: JournalEntry, op: RenameOp) -> bool {
    &&& e.temp@ == op.temporary_name@
    &&& e.original@ == op.original_name@
    &&& e.final_name@ == op.final_name@
    &&& e.noop == op.is_noop
}

impl Journal {
    /// The journal of `plan` for the run `token` in the directory shown as
    /// `directory`: one entry per operation, in order.
    pub fn for_plan(plan: &RenamePlan, token: &str, directory: String) -> (r: Journal)
        ensures
            r.version == 1,
            r.token@ == token@,
            r.directory@ == directory@,
            r.entries@.len() == plan.ops@.len(),
            forall|i: int| 0 <= i < r.entries@.len() ==> entry_matches(#[trigger] r.entries@[i], plan.ops@[i]),
    {
        let mut entries: Vec<JournalEntry> = Vec::new();
        let mut i: usize = 0;
        while i < plan.ops.len()
            invariant
                i <= plan.ops@.len(),
                entries@.len() == i,
                forall|k: int| 0 <= k < i ==> entry_matches(#[trigger] entries@[k], plan.ops@[k]),
            decreases plan.ops@.len() - i,
        {
            let op = &plan.ops[i];
            entries.push(JournalEntry {
                temp: op.temporary_name.clone(),
                original: op.original_name.clone(),
                final_name: op.final_name.clone(),
                noop: op.is_noop,
            });
            i += 1;
        }
        Journal { version: 1, token: token.to_string(), directory, entries }
    }

    /// Positions of the entries that an interrupted run may have left half
    /// done: those that change a name.
    pub fn pending_entries(&self) -> (r: Vec<usize>)
        ensures
            forall|k: int| 0 <= k < r@.len() ==> (#[trigger] r@[k]) < self.entries@.len() && !self.entries@[r@[k] as int].noop,
            forall|i: int| 0 <= i < self.entries@.len() && !self.entries@[i].noop ==> r@.contains(i as usize),
            forall|k1: int, k2: int| 0 <= k1 < k2 < r@.len() ==> r@[k1] < r@[k2],
    {
        let mut r: Vec<usize> = Vec::new();
        let mut i: usize = 0;
        while i < self.entries.len()
            invariant
                i <= self.entries@.len(),
                forall|k: int| 0 <= k < r@.len() ==> (#[trigger] r@[k]) < i && !self.entries@[r@[k] as int].noop,
                forall|j: int| 0 <= j < i && !self.entries@[j].noop ==> r@.contains(j as usize),
                forall|k1: int, k2: int| 0 <= k1 < k2 < r@.len() ==> r@[k1] < r@[k2],
            decreases self.entries@.len() - i,
        {
            if !self.entries[i].noop {
                let ghost before = r@;
                r.push(i);
                assert forall|j: int| 0 <= j < i + 1 && !self.entries@[j].noop implies r@.contains(j as usize) by {
                    if j < i {
                        assert(before.contains(j as usize));
                        let k = choose|k: int| 0 <= k < before.len() && before[k] == j as usize;
                        assert(r@[k] == j as usize);
                    } else {
                        assert(r@[r@.len() - 1] == j as usize);
                    }
                }
            }
            i += 1;
        }
        r
    }
}

/// What a leftover of the library's own in a directory is.
#[derive(Debug, PartialEq, Eq)]
pub enum Leftover {
    /// A journal of an earlier run.
    Journal,
    /// A temporary file.
    Temp,
    /// Anything else.
    Other,
}

pub open spec fn leftover_of(name: Seq<char>) -> Leftover {
    if has_prefix(name, INTERNAL_PREFIX@ + "_journal_"@) {
        Leftover::Journal
    } else if has_prefix(name, INTERNAL_PREFIX@ + "_tmp_"@) {
        Leftover::Temp
    } else {
        Leftover::Other
    }
}

/// Classifies a directory entry by its name.
pub fn leftover_kind(name: &str) -> (r: Leftover)
    ensures
        r == leftover_of(name@),
{
    let mut j = String::new();
    push_str(&mut j, INTERNAL_PREFIX);
    push_str(&mut j, "_journal_");
    let mut t = String::new();
    push_str(&mut t, INTERNAL_PREFIX);
    push_str(&mut t, "_tmp_");
    if starts_with(name, j.as_str()) {
        Leftover::Journal
    } else if starts_with(name, t.as_str()) {
        Leftover::Temp
    } else {
        Leftover::Other
    }
}

/// What recovery did.
pub struct RecoveryReport {
    /// Interrupted renames completed.
    pub recovered_finals: usize,
    /// Temporary files moved back to their original names.
    pub restored_temps: usize,
    /// Temporary files of no known run, left alone.
    pub orphan_temps: usize,
    pub removed_journals: usize,
    pub errors: Vec<FileError>,
    pub warnings: Vec<String>,
}

pub open spec fn orphan_warning(shown: Seq<char>) -> Seq<char> {
    "发现无法识别来源的临时文件 "@ + shown + ",已排除在处理之外,请手动检查"@
}

pub open spec fn corrupt_journal_warning(shown: Seq<char>) -> Seq<char> {
    "journal 文件损坏,无法自动恢复: "@ + shown
}

pub open spec fn recovered_warning(finals: nat, restored: nat) -> Seq<char> {
    "已恢复上次中断的任务:补完重命名 "@ + decimal(finals) + " 个,还原 "@ + decimal(restored) + " 个"@
}

impl RecoveryReport {
    pub fn new() -> (r: Self)
        ensures
            r.recovered_finals == 0,
            r.restored_temps == 0,
            r.orphan_temps == 0,
            r.removed_journals == 0,
            r.errors@.len() == 0,
            r.warnings@.len() == 0,
    {
        RecoveryReport {
            recovered_finals: 0,
            restored_temps: 0,
            orphan_temps: 0,
            removed_journals: 0,
            errors: Vec::new(),
            warnings: Vec::new(),
        }
    }

    /// Records the temporary files of no known run (shown as `shown`): they
    /// are counted and each gets a warning.
    pub fn note_orphans(&mut self, shown: &Vec<String>)
        ensures
            final(self).orphan_temps == shown@.len(),
            final(self).warnings@.len() == old(self).warnings@.len() + shown@.len(),
            forall|i: int| 0 <= i < old(self).warnings@.len() ==> final(self).warnings@[i] == old(self).warnings@[i],
            forall|i: int| 0 <= i < shown@.len() ==> (#[trigger] final(self).warnings@[old(self).warnings@.len() + i])@
                == orphan_warning(shown@[i]@),
            final(self).recovered_finals == old(self).recovered_finals,
            final(self).restored_temps == old(self).restored_temps,
            final(self).removed_journals == old(self).removed_journals,
            final(self).errors@ == old(self).errors@,
    {
        let ghost w0 = self.warnings@;
        self.orphan_temps = shown.len();
        let mut i: usize = 0;
        while i < shown.len()
            invariant
                i <= shown@.len(),
                self.orphan_temps == shown@.len(),
                self.recovered_finals == old(self).recovered_finals,
                self.restored_temps == old(self).restored_temps,
                self.removed_journals == old(self).removed_journals,
                self.errors@ == old(self).errors@,
                w0 == old(self).warnings@,
                self.warnings@.len() == w0.len() + i,
                forall|k: int| 0 <= k < w0.len() ==> self.warnings@[k] == w0[k],
                forall|k: int| 0 <= k < i ==> (#[trigger] self.warnings@[w0.len() + k])@ == orphan_warning(shown@[k]@),
            decreases shown@.len() - i,
        {
            let mut w = String::new();
            push_str(&mut w, "发现无法识别来源的临时文件 ");
            push_str(&mut w, shown[i].as_str());
            push_str(&mut w, ",已排除在处理之外,请手动检查");
            self.warnings.push(w);
            i += 1;
        }
    }

    /// Records a journal that could not be read or parsed.
    pub fn note_corrupt_journal(&mut self, shown: &str)
        ensures
            final(self).warnings@.len() == old(self).warnings@.len() + 1,
            final(self).warnings@.drop_last() == old(self).warnings@,
            final(self).warnings@.last()@ == corrupt_journal_warning(shown@),
            final(self).recovered_finals == old(self).recovered_finals,
            final(self).restored_temps == old(self).restored_temps,
            final(self).orphan_temps == old(self).orphan_temps,
            final(self).removed_journals == old(self).removed_journals,
            final(self).errors@ == old(self).errors@,
    {
        let mut w = String::new();
        push_str(&mut w, "journal 文件损坏,无法自动恢复: ");
        push_str(&mut w, shown);
        self.warnings.push(w);
        assert(self.warnings@.drop_last() =~= old(self).warnings@);
    }

    /// Records the attempt to complete an interrupted rename of the
    /// temporary file `temp`; says whether the file must now be moved back
    /// to its original name (its final name was taken meanwhile).
    pub fn after_final(&mut self, result: RenameResult, temp: &PathBuf) -> (restore: bool)
        requires
            old(self).recovered_finals < usize::MAX,
        ensures
            restore == (result matches RenameResult::Failed { already_exists, .. } && already_exists),
            final(self).recovered_finals == old(self).recovered_finals + if result is Done { 1int } else { 0int },
            final(self).restored_temps == old(self).restored_temps,
            final(self).orphan_temps == old(self).orphan_temps,
            final(self).removed_journals == old(self).removed_journals,
            final(self).warnings@ == old(self).warnings@,
            result matches RenameResult::Failed { already_exists, detail } ==> (!already_exists ==> {
                &&& final(self).errors@.len() == old(self).errors@.len() + 1
                &&& final(self).errors@.drop_last() == old(self).errors@
                &&& final(self).errors@.last().operation@ == "recover"@
                &&& final(self).errors@.last().message@ == "无法完成中断的重命名: "@ + detail@
                &&& final(self).errors@.last().path@ == shown(*temp)
            }),
            !(result matches RenameResult::Failed { already_exists, .. } && !already_exists) ==> final(self).errors@ == old(self).errors@,
    {
        match result {
            RenameResult::Failed { already_exists, detail } => {
                if already_exists {
                    true
                } else {
                    let mut m = String::new();
                    push_str(&mut m, "无法完成中断的重命名: ");
                    push_str(&mut m, detail.as_str());
                    self.errors.push(FileError::new("recover", temp, m));
                    assert(self.errors@.drop_last() =~= old(self).errors@);
                    false
                }
            },
            RenameResult::Done => {
                self.recovered_finals = self.recovered_finals + 1;
                false
            },
            RenameResult::Absent => false,
        }
    }

    /// Records the attempt to move the temporary file `temp` back to its
    /// original name.
    pub fn after_restore(&mut self, result: RenameResult, temp: &PathBuf)
        requires
            old(self).restored_temps < usize::MAX,
        ensures
            final(self).restored_temps == old(self).restored_temps + if result is Done { 1int } else { 0int },
            final(self).recovered_finals == old(self).recovered_finals,
            final(self).orphan_temps == old(self).orphan_temps,
            final(self).removed_journals == old(self).removed_journals,
            final(self).warnings@ == old(self).warnings@,
            result matches RenameResult::Failed { detail, .. } ==> {
                &&& final(self).errors@.len() == old(self).errors@.len() + 1
                &&& final(self).errors@.drop_last() == old(self).errors@
                &&& final(self).errors@.last().operation@ == "recover"@
                &&& final(self).errors@.last().message@ == "无法恢复临时文件: "@ + detail@
                &&& final(self).errors@.last().path@ == shown(*temp)
            },
            !(result is Failed) ==> final(self).errors@ == old(self).errors@,
    {
        match result {
            RenameResult::Failed { detail, .. } => {
                let mut m = String::new();
                push_str(&mut m, "无法恢复临时文件: ");
                push_str(&mut m, detail.as_str());
                self.errors.push(FileError::new("recover", temp, m));
                assert(self.errors@.drop_last() =~= old(self).errors@);
            },
            RenameResult::Done => {
                self.restored_temps = self.restored_temps + 1;
            },
            RenameResult::Absent => {},
        }
    }

    /// Records the removal of a processed journal: `Err` carries why it
    /// failed.
    pub fn after_journal_removal(&mut self, result: Result<(), String>, journal: &PathBuf)
        requires
            old(self).removed_journals < usize::MAX,
        ensures
            final(self).removed_journals == old(self).removed_journals + if result is Ok { 1int } else { 0int },
            final(self).recovered_finals == old(self).recovered_finals,
            final(self).restored_temps == old(self).restored_temps,
            final(self).orphan_temps == old(self).orphan_temps,
            final(self).warnings@ == old(self).warnings@,
            result matches Err(why) ==> {
                &&& final(self).errors@.len() == old(self).errors@.len() + 1
                &&& final(self).errors@.drop_last() == old(self).errors@
                &&& final(self).errors@.last().operation@ == "recover"@
                &&& final(self).errors@.last().message@ == "无法删除 journal: "@ + why@
                &&& final(self).errors@.last().path@ == shown(*journal)
            },
            result is Ok ==> final(self).errors@ == old(self).errors@,
    {
        match result {
            Ok(()) => {
                self.removed_journals = self.removed_journals + 1;
            },
            Err(why) => {
                let mut m = String::new();
                push_str(&mut m, "无法删除 journal: ");
                push_str(&mut m, why.as_str());
                self.errors.push(FileError::new("recover", journal, m));
                assert(self.errors@.drop_last() =~= old(self).errors@);
            },
        }
    }

    /// The notice to show when recovery completed or restored anything.
    pub fn summary(&self) -> (r: Option<String>)
        ensures
            r is Some <==> (self.recovered_finals > 0 || self.restored_temps > 0),
            r matches Some(w) ==> w@ == recovered_warning(self.recovered_finals as nat, self.restored_temps as nat),
    {
        if self.recovered_finals > 0 || self.restored_temps > 0 {
            let mut w = String::new();
            push_str(&mut w, "已恢复上次中断的任务:补完重命名 ");
            let a = decimal_chars(self.recovered_finals as u64);
            push_all(&mut w, &a);
            push_str(&mut w, " 个,还原 ");
            let b = decimal_chars(self.restored_temps as u64);
            push_all(&mut w, &b);
            push_str(&mut w, " 个");
            Some(w)
        } else {
            None
        }
    }
}

} // verus!
