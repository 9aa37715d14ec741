//! The decisions of one processing run, stage by stage: which files need a
//! digest, which duplicates go to the trash and when that stops, which files
//! remain to be renamed, which names are untouchable, and the statistics of
//! the run. The caller performs the I/O between the stages.

use vstd::prelude::*;
use std::path::PathBuf;
use std::collections::HashMap;
use crate::models::{FileEntry, FileEntryView, HashValue, DuplicateGroup, ProcessingResult, PlannedRename};
use crate::digests::{HashAlgorithm, algorithm_name};
use crate::error::FileError;
use crate::paths::{paths_equal, same_path, shown};
use crate::scanner::{ScanResult, SkippedEntry};
use crate::renamer::RecoveryReport;
use crate::rename_planner::{OccupiedNames, RenamePlan, RenameOp};

verus! {

/// Options of a run.
pub struct ProcessOptions {
    /// Threads that compute digests.
    pub hash_threads: usize,
    /// The digest that tells contents apart.
    pub hash_algorithm: HashAlgorithm,
    /// A preview: plan everything, change nothing.
    pub dry_run: bool,
}

/// The number of digest threads for `available` parallelism (4 when it is
/// unknown), between 1 and 8.
pub open spec fn threads_for(available: Option<usize>) -> usize {
    match available {
        Some(n) => if n < 1 { 1 } else if n > 8 { 8 } else { n },
        None => 4,
    }
}

pub fn thread_count(available: Option<usize>) -> (r: usize)
    ensures
        r == threads_for(available),
{
    match available {
        Some(n) => if n < 1 { 1 } else if n > 8 { 8 } else { n },
        None => 4,
    }
}

impl ProcessOptions {
    /// Options for `available` parallelism, with the given algorithm and mode.
    pub fn new(available: Option<usize>, hash_algorithm: HashAlgorithm, dry_run: bool) -> (r: Self)
        ensures
            r.hash_threads == threads_for(available),
            r.hash_algorithm == hash_algorithm,
            r.dry_run == dry_run,
    {
        ProcessOptions { hash_threads: thread_count(available), hash_algorithm, dry_run }
    }

    /// Options for `available` parallelism: MD5, and a run that changes files.
    pub fn with_threads(available: Option<usize>) -> (r: Self)
        ensures
            r.hash_threads == threads_for(available),
            r.hash_algorithm == HashAlgorithm::Md5,
            !r.dry_run,
    {
        ProcessOptions::new(available, HashAlgorithm::Md5, false)
    }
}

/// The stages of a run, in the order they come.
#[derive(Debug, Clone, Copy, PartialEq, Eq)]
pub enum Stage {
    Recover,
    Scan,
    Hash,
    Verify,
    Trash,
    Plan,
    Rename,
    Done,
}

/// The stage a run starts with: a preview leaves unfinished work alone and
/// starts with the scan.
pub open spec fn start_stage(dry_run: bool) -> Stage {
    if dry_run { Stage::Scan } else { Stage::Recover }
}

/// The stage a run starts with (see `start_stage`).
pub fn first_stage(dry_run: bool) -> (r: Stage)
    ensures
        r == start_stage(dry_run),
{
    if dry_run {
        Stage::Scan
    } else {
        Stage::Recover
    }
}

/// The stage after `stage`: `None` when the run ends there as cancelled.
/// Cancellation is looked at after the digests, after the verification and
/// after the plan; a preview goes from the verification to the plan, and
/// from the plan to the end; a plan with operations goes to renaming.
pub open spec fn stage_after(stage: Stage, cancelled: bool, dry_run: bool, has_ops: bool) -> Option<Stage> {
    match stage {
        Stage::Recover => Some(Stage::Scan),
        Stage::Scan => Some(Stage::Hash),
        Stage::Hash => if cancelled { None } else { Some(Stage::Verify) },
        Stage::Verify => if cancelled {
            None
        } else if dry_run {
            Some(Stage::Plan)
        } else {
            Some(Stage::Trash)
        },
        Stage::Trash => Some(Stage::Plan),
        Stage::Plan => if dry_run {
            if cancelled { None } else { Some(Stage::Done) }
        } else {
            match rename_stage_of(has_ops, cancelled) {
                RenameStage::Execute => Some(Stage::Rename),
                RenameStage::Cancel => None,
                RenameStage::Skip => Some(Stage::Done),
            }
        },
        Stage::Rename => Some(Stage::Done),
        Stage::Done => Some(Stage::Done),
    }
}

/// The stage after `stage` (see `stage_after`); `has_ops` says whether the
/// rename plan has operations.
pub fn next_stage(stage: Stage, cancelled: bool, dry_run: bool, has_ops: bool) -> (r: Option<Stage>)
    ensures
        r == stage_after(stage, cancelled, dry_run, has_ops),
{
    match stage {
        Stage::Recover => Some(Stage::Scan),
        Stage::Scan => Some(Stage::Hash),
        Stage::Hash => if cancelled { None } else { Some(Stage::Verify) },
        Stage::Verify => if cancelled {
            None
        } else if dry_run {
            Some(Stage::Plan)
        } else {
            Some(Stage::Trash)
        },
        Stage::Trash => Some(Stage::Plan),
        Stage::Plan => if dry_run {
            if cancelled {
                None
            } else {
                Some(Stage::Done)
            }
        } else {
            match rename_stage(has_ops, cancelled) {
                RenameStage::Execute => Some(Stage::Rename),
                RenameStage::Cancel => None,
                RenameStage::Skip => Some(Stage::Done),
            }
        },
        Stage::Rename => Some(Stage::Done),
        Stage::Done => Some(Stage::Done),
    }
}

/// The place of a stage in the order of a run.
pub open spec fn stage_rank(s: Stage) -> int {
    match s {
        Stage::Recover => 0,
        Stage::Scan => 1,
        Stage::Hash => 2,
        Stage::Verify => 3,
        Stage::Trash => 4,
        Stage::Plan => 5,
        Stage::Rename => 6,
        Stage::Done => 7,
    }
}

/// The stages that change files: recovery, the trash pass and renaming.
pub open spec fn changes_files(s: Stage) -> bool {
    s is Recover || s is Trash || s is Rename
}

/// A run never goes back: each stage is followed by a later one, or it ends
/// there; only the last stage is followed by itself.
pub proof fn law_stages_advance(s: Stage, cancelled: bool, dry_run: bool, has_ops: bool)
    ensures
        stage_after(s, cancelled, dry_run, has_ops) matches Some(n) ==> (stage_rank(n) > stage_rank(s)
            || (s is Done && n is Done)),
{
}

/// A preview changes no file: it starts with a stage that changes none, and
/// from such a stage it only ever goes to another such stage.
pub proof fn law_preview_changes_nothing(s: Stage, cancelled: bool, has_ops: bool)
    requires
        !changes_files(s),
    ensures
        !changes_files(start_stage(true)),
        stage_after(s, cancelled, true, has_ops) matches Some(n) ==> !changes_files(n),
{
}

/// Per file of `n`: whether it is one of `targets`.
pub fn marked(targets: &Vec<usize>, n: usize) -> (r: Vec<bool>)
    ensures
        r@.len() == n,
        forall|i: int| 0 <= i < n ==> (r@[i] <==> targets@.contains(i as usize)),
{
    let mut r: Vec<bool> = Vec::new();
    let mut i: usize = 0;
    while i < n
        invariant
            i <= n,
            r@ == Seq::new(i as nat, |k: int| false),
        decreases n - i,
    {
        r.push(false);
        assert(r@ =~= Seq::new((i + 1) as nat, |k: int| false));
        i += 1;
    }
    let mut j: usize = 0;
    while j < targets.len()
        invariant
            j <= targets@.len(),
            r@.len() == n,
            forall|x: int| 0 <= x < n ==> (r@[x] <==> exists|k: int| 0 <= k < j && targets@[k] == x as usize),
        decreases targets@.len() - j,
    {
        let t = targets[j];
        if t < n {
            r.set(t, true);
        }
        assert forall|x: int| 0 <= x < n implies (r@[x] <==> exists|k: int| 0 <= k < j + 1 && targets@[k] == x as usize) by {
            if x == t as int {
                assert(targets@[j as int] == x as usize);
            }
        }
        j += 1;
    }
    assert forall|x: int| 0 <= x < n implies (r@[x] <==> targets@.contains(x as usize)) by {
        if r@[x] {
            let k = choose|k: int| 0 <= k < targets@.len() && targets@[k] == x as usize;
            assert(targets@[k] == x as usize);
        }
    }
    r
}

pub open spec fn views(files: Seq<FileEntry>) -> Seq<FileEntryView> {
    files.map_values(|f: FileEntry| f@)
}

/// Another file has the same size as file `i`: only such files can have
/// duplicates, so only they are digested.
pub open spec fn shares_size(files: Seq<FileEntryView>, i: int) -> bool {
    exists|j: int| 0 <= j < files.len() && j != i && files[j].size == files[i].size
}

/// Files below `k` of size `size`.
pub open spec fn size_count(files: Seq<FileEntryView>, size: u64, k: int) -> int
    decreases k,
{
    if k <= 0 {
        0
    } else {
        size_count(files, size, k - 1) + if files[k - 1].size == size { 1int } else { 0int }
    }
}

proof fn lemma_size_count_two(files: Seq<FileEntryView>, i: int, j: int, k: int)
    requires
        0 <= i < k <= files.len(),
        0 <= j < k,
        i != j,
        files[j].size == files[i].size,
    ensures
        size_count(files, files[i].size, k) >= 2,
    decreases k,
{
    if i < k - 1 && j < k - 1 {
        lemma_size_count_two(files, i, j, k - 1);
    } else if i == k - 1 {
        lemma_size_count_one(files, j, k - 1);
    } else {
        lemma_size_count_one(files, i, k - 1);
    }
}

proof fn lemma_size_count_one(files: Seq<FileEntryView>, i: int, k: int)
    requires
        0 <= i < k <= files.len(),
    ensures
        size_count(files, files[i].size, k) >= 1,
    decreases k,
{
    if i < k - 1 {
        lemma_size_count_one(files, i, k - 1);
    }
    lemma_size_count_nonneg(files, files[i].size, k - 1);
}

proof fn lemma_size_count_nonneg(files: Seq<FileEntryView>, size: u64, k: int)
    ensures
        size_count(files, size, k) >= 0,
    decreases k,
{
    if k > 0 {
        lemma_size_count_nonneg(files, size, k - 1);
    }
}

proof fn lemma_size_count_other(files: Seq<FileEntryView>, i: int, k: int)
    requires
        0 <= i < files.len(),
        0 <= k <= files.len(),
        size_count(files, files[i].size, k) >= 2,
    ensures
        exists|j: int| 0 <= j < k && j != i && files[j].size == files[i].size,
    decreases k,
{
    if k > 0 {
        let s = files[i].size;
        if files[k - 1].size == s && k - 1 != i {
            assert(0 <= k - 1 < k && k - 1 != i && files[k - 1].size == files[i].size);
        } else if size_count(files, s, k - 1) >= 2 {
            lemma_size_count_other(files, i, k - 1);
            let j = choose|j: int| 0 <= j < k - 1 && j != i && files[j].size == files[i].size;
            assert(0 <= j < k && j != i && files[j].size == files[i].size);
        } else {
            // the last file is file i, and one more below it has its size
            assert(k - 1 == i);
            assert(size_count(files, s, k - 1) >= 1);
            lemma_size_count_exists(files, s, k - 1);
        }
    }
}

proof fn lemma_size_count_exists(files: Seq<FileEntryView>, size: u64, k: int)
    requires
        0 <= k <= files.len(),
        size_count(files, size, k) >= 1,
    ensures
        exists|j: int| 0 <= j < k && files[j].size == size,
    decreases k,
{
    if k > 0 {
        if files[k - 1].size == size {
            assert(files[k - 1].size == size);
        } else {
            lemma_size_count_exists(files, size, k - 1);
            let j = choose|j: int| 0 <= j < k - 1 && files[j].size == size;
            assert(0 <= j < k && files[j].size == size);
        }
    }
}

/// For each file, whether its digest is needed.
pub fn hash_needed(files: &[FileEntry]) -> (r: Vec<bool>)
    ensures
        r@.len() == files@.len(),
        forall|i: int| 0 <= i < r@.len() ==> #[trigger] r@[i] == shares_size(views(files@), i),
{
    broadcast use vstd::std_specs::hash::group_hash_axioms;
    let ghost vs = views(files@);
    let n = files.len();
    let mut counts: HashMap<u64, usize> = HashMap::new();
    let mut i: usize = 0;
    while i < n
        invariant
            n == files@.len(),
            vs == views(files@),
            i <= n,
            forall|s: u64| #[trigger] counts@.contains_key(s) ==> counts@[s] == size_count(vs, s, i as int),
            forall|s: u64| !(#[trigger] counts@.contains_key(s)) ==> size_count(vs, s, i as int) == 0,
            forall|s: u64| #[trigger] size_count(vs, s, i as int) <= i,
        decreases n - i,
    {
        let s = files[i].size;
        assert(vs[i as int].size == s);
        let c: usize = match counts.get(&s) {
            Some(c) => *c,
            None => 0,
        };
        assert(c == size_count(vs, s, i as int));
        assert(c <= i);
        counts.insert(s, c + 1);
        assert forall|t: u64| #[trigger] size_count(vs, t, i + 1) <= i + 1 by {
            assert(size_count(vs, t, i as int) <= i);
        }
        i += 1;
    }
    let mut r: Vec<bool> = Vec::new();
    let mut k: usize = 0;
    while k < n
        invariant
            n == files@.len(),
            vs == views(files@),
            k <= n,
            forall|s: u64| #[trigger] counts@.contains_key(s) ==> counts@[s] == size_count(vs, s, n as int),
            forall|s: u64| !(#[trigger] counts@.contains_key(s)) ==> size_count(vs, s, n as int) == 0,
            r@.len() == k,
            forall|j: int| 0 <= j < k ==> #[trigger] r@[j] == shares_size(vs, j),
        decreases n - k,
    {
        let s = files[k].size;
        assert(vs[k as int].size == s);
        let c: usize = match counts.get(&s) {
            Some(c) => *c,
            None => 0,
        };
        proof {
            lemma_size_count_one(vs, k as int, n as int);
            if c >= 2 {
                lemma_size_count_other(vs, k as int, n as int);
            }
            if shares_size(vs, k as int) {
                let j = choose|j: int| 0 <= j < vs.len() && j != k && vs[j].size == vs[k as int].size;
                lemma_size_count_two(vs, k as int, j, n as int);
            }
        }
        r.push(c >= 2);
        k += 1;
    }
    r
}

pub open spec fn digest_of(r: Option<Result<HashValue, FileError>>) -> Option<Seq<u8>> {
    match r {
        Some(Ok(h)) => Some(h@),
        _ => None,
    }
}

/// The failures among the digest results, in order.
pub open spec fn digest_failures(rs: Seq<Option<Result<HashValue, FileError>>>) -> Seq<FileError>
    decreases rs.len(),
{
    if rs.len() == 0 {
        Seq::empty()
    } else {
        let p = digest_failures(rs.drop_last());
        match rs.last() {
            Some(Err(e)) => p.push(e),
            _ => p,
        }
    }
}

/// Splits the digest results of the files into their digests (`None` for a
/// file not digested or whose digest failed) and the failures.
pub fn split_digests(results: Vec<Option<Result<HashValue, FileError>>>) -> (r: (Vec<Option<HashValue>>, Vec<FileError>))
    ensures
        r.0@.len() == results@.len(),
        forall|i: int| 0 <= i < r.0@.len() ==> crate::models::opt_hash_view(#[trigger] r.0@[i]) == digest_of(results@[i]),
        r.1@ == digest_failures(results@),
{
    let ghost all = results@;
    let mut rest = results;
    let mut hashes: Vec<Option<HashValue>> = Vec::new();
    let mut errors: Vec<FileError> = Vec::new();
    let n = rest.len();
    let mut k: usize = 0;
    while k < n
        invariant
            n == all.len(),
            k <= n,
            rest@ == all.skip(k as int),
            hashes@.len() == k,
            forall|i: int| 0 <= i < k ==> crate::models::opt_hash_view(#[trigger] hashes@[i]) == digest_of(all[i]),
            errors@ == digest_failures(all.take(k as int)),
        decreases n - k,
    {
        assert(rest@[0] == all[k as int]);
        let item = rest.remove(0);
        assert(rest@ =~= all.skip(k + 1));
        assert(all.take(k + 1).drop_last() =~= all.take(k as int));
        match item {
            Some(Ok(h)) => {
                hashes.push(Some(h));
            },
            Some(Err(e)) => {
                hashes.push(None);
                errors.push(e);
            },
            None => {
                hashes.push(None);
            },
        }
        k += 1;
    }
    assert(all.take(n as int) =~= all);
    (hashes, errors)
}

/// The first file whose path equals `p`.
pub open spec fn first_with_path(files: Seq<FileEntry>, p: PathBuf, upto: int) -> Option<int>
    decreases upto,
{
    if upto <= 0 {
        None
    } else {
        match first_with_path(files, p, upto - 1) {
            Some(i) => Some(i),
            None => if same_path(files[upto - 1].path, p) { Some(upto - 1) } else { None },
        }
    }
}

/// The paths of all duplicates, group after group.
pub open spec fn duplicate_paths(groups: Seq<DuplicateGroup>) -> Seq<PathBuf>
    decreases groups.len(),
{
    if groups.len() == 0 {
        Seq::empty()
    } else {
        duplicate_paths(groups.drop_last()) + groups.last().duplicates@.map_values(|d: FileEntry| d.path)
    }
}

/// The files at the paths `ps`, in order, leaving out paths of no file.
pub open spec fn files_at(files: Seq<FileEntry>, ps: Seq<PathBuf>) -> Seq<int>
    decreases ps.len(),
{
    if ps.len() == 0 {
        Seq::empty()
    } else {
        let p = files_at(files, ps.drop_last());
        match first_with_path(files, ps.last(), files.len() as int) {
            Some(i) => p.push(i),
            None => p,
        }
    }
}

fn index_of(files: &[FileEntry], p: &PathBuf) -> (r: Option<usize>)
    ensures
        match r {
            Some(i) => first_with_path(files@, *p, files@.len() as int) == Some(i as int),
            None => first_with_path(files@, *p, files@.len() as int) is None,
        },
{
    let mut i: usize = 0;
    while i < files.len()
        invariant
            i <= files@.len(),
            first_with_path(files@, *p, i as int) is None,
        decreases files@.len() - i,
    {
        if paths_equal(&files[i].path, p) {
            proof {
                lemma_first_found(files@, *p, i as int, files@.len() as int);
            }
            return Some(i);
        }
        i += 1;
    }
    None
}

proof fn lemma_first_found(files: Seq<FileEntry>, p: PathBuf, i: int, upto: int)
    requires
        0 <= i < upto,
        first_with_path(files, p, i) is None,
        same_path(files[i].path, p),
    ensures
        first_with_path(files, p, upto) == Some(i),
    decreases upto,
{
    if upto > i + 1 {
        lemma_first_found(files, p, i, upto - 1);
    }
}

/// The files to move to the trash, in order: each duplicate of each group,
/// found among `files` by its path.
pub fn trash_targets(files: &[FileEntry], groups: &[DuplicateGroup]) -> (r: Vec<usize>)
    ensures
        r@.map_values(|i: usize| i as int) == files_at(files@, duplicate_paths(groups@)),
{
    let mut r: Vec<usize> = Vec::new();
    let mut g: usize = 0;
    while g < groups.len()
        invariant
            g <= groups@.len(),
            r@.map_values(|i: usize| i as int) == files_at(files@, duplicate_paths(groups@.take(g as int))),
        decreases groups@.len() - g,
    {
        let ghost base = duplicate_paths(groups@.take(g as int));
        let dups = &groups[g].duplicates;
        let ghost dp = dups@.map_values(|d: FileEntry| d.path);
        let mut d: usize = 0;
        while d < dups.len()
            invariant
                g < groups@.len(),
                dups == groups@[g as int].duplicates,
                dp == dups@.map_values(|d: FileEntry| d.path),
                d <= dups@.len(),
                r@.map_values(|i: usize| i as int) == files_at(files@, base + dp.take(d as int)),
            decreases dups@.len() - d,
        {
            let ghost before = r@;
            assert((base + dp.take(d + 1)).drop_last() =~= base + dp.take(d as int));
            assert((base + dp.take(d + 1)).last() == dups@[d as int].path);
            match index_of(files, &dups[d].path) {
                Some(i) => {
                    r.push(i);
                    assert(r@.map_values(|i: usize| i as int) =~= before.map_values(|i: usize| i as int).push(i as int));
                },
                None => {},
            }
            d += 1;
        }
        assert(groups@.take(g + 1).drop_last() =~= groups@.take(g as int));
        assert(dp.take(dups@.len() as int) =~= dp);
        g += 1;
    }
    assert(groups@.take(groups@.len() as int) =~= groups@);
    r
}

pub const TRASH_STOPPED: &'static str = "回收站操作失败,已停止移动其余重复文件(文件未删除,保持原状)";

/// Moving duplicates to the trash, one target after the other. The first
/// failure stops the pass: the remaining duplicates stay where they are.
pub struct TrashRun {
    pub targets: Vec<usize>,
    pub next: usize,
    pub stopped: bool,
    /// Per file: moved to the trash.
    pub trashed: Vec<bool>,
    pub count: usize,
    pub errors: Vec<FileError>,
    pub warnings: Vec<String>,
}

/// Per file of `n`: whether it is one of the first `k` targets.
pub open spec fn marks(targets: Seq<usize>, k: int, n: int) -> Seq<bool> {
    Seq::new(n as nat, |x: int| exists|j: int| 0 <= j < k && targets[j] as int == x)
}

/// How many entries of `s` are true.
pub open spec fn count_true(s: Seq<bool>) -> nat
    decreases s.len(),
{
    if s.len() == 0 {
        0
    } else {
        count_true(s.drop_last()) + if s.last() { 1nat } else { 0nat }
    }
}

impl TrashRun {
    /// The targets before `next` went to the trash, and only they; each of
    /// them counted once.
    pub open spec fn wf(&self) -> bool {
        &&& self.next <= self.targets@.len()
        &&& self.count == self.next
        &&& forall|k: int| 0 <= k < self.targets@.len() ==> (#[trigger] self.targets@[k]) < self.trashed@.len()
        &&& self.trashed@ == marks(self.targets@, self.next as int, self.trashed@.len() as int)
    }

    /// A pass over `targets` (indices among `n` files).
    pub fn new(targets: Vec<usize>, n: usize) -> (r: Self)
        requires
            forall|k: int| 0 <= k < targets@.len() ==> (#[trigger] targets@[k]) < n,
        ensures
            r.wf(),
            r.targets@ == targets@,
            r.next == 0,
            !r.stopped,
            r.trashed@ == Seq::new(n as nat, |i: int| false),
            r.count == 0,
            r.errors@.len() == 0,
            r.warnings@.len() == 0,
    {
        let mut trashed: Vec<bool> = Vec::new();
        let mut i: usize = 0;
        while i < n
            invariant
                i <= n,
                trashed@ == Seq::new(i as nat, |k: int| false),
            decreases n - i,
        {
            trashed.push(false);
            assert(trashed@ =~= Seq::new((i + 1) as nat, |k: int| false));
            i += 1;
        }
        assert(trashed@ =~= marks(targets@, 0, n as int));
        TrashRun { targets, next: 0, stopped: false, trashed, count: 0, errors: Vec::new(), warnings: Vec::new() }
    }

    /// The next file to move to the trash; `None` when the pass is over:
    /// every target done, a failure, or `cancelled`.
    pub fn next_target(&mut self, cancelled: bool) -> (r: Option<usize>)
        requires
            old(self).wf(),
        ensures
            final(self).wf(),
            final(self).targets@ == old(self).targets@,
            final(self).next == old(self).next,
            final(self).trashed@ == old(self).trashed@,
            final(self).count == old(self).count,
            final(self).errors@ == old(self).errors@,
            final(self).warnings@ == old(self).warnings@,
            final(self).stopped == (old(self).stopped || (cancelled && old(self).next < old(self).targets@.len())),
            r == if old(self).stopped || cancelled || old(self).next >= old(self).targets@.len() {
                None
            } else {
                Some(old(self).targets@[old(self).next as int])
            },
    {
        if self.stopped || self.next >= self.targets.len() {
            None
        } else if cancelled {
            self.stopped = true;
            None
        } else {
            Some(self.targets[self.next])
        }
    }

    /// Records the result of moving the current target (at `path`) to the
    /// trash; `Err` carries the reason, and stops the pass.
    pub fn report(&mut self, result: Result<(), String>, path: &PathBuf)
        requires
            old(self).wf(),
            !old(self).stopped,
            old(self).next < old(self).targets@.len(),
        ensures
            final(self).wf(),
            final(self).targets@ == old(self).targets@,
            result is Ok ==> {
                &&& final(self).trashed@ == old(self).trashed@.update(old(self).targets@[old(self).next as int] as int, true)
                &&& final(self).count == old(self).count + 1
                &&& final(self).next == old(self).next + 1
                &&& !final(self).stopped
                &&& final(self).errors@ == old(self).errors@
                &&& final(self).warnings@ == old(self).warnings@
            },
            result matches Err(why) ==> {
                &&& final(self).trashed@ == old(self).trashed@
                &&& final(self).count == old(self).count
                &&& final(self).next == old(self).next
                &&& final(self).stopped
                &&& final(self).errors@.len() == old(self).errors@.len() + 1
                &&& final(self).errors@.drop_last() == old(self).errors@
                &&& final(self).errors@.last().operation@ == "trash"@
                &&& final(self).errors@.last().message@ == why@
                &&& final(self).errors@.last().path@ == shown(*path)
                &&& final(self).warnings@ == old(self).warnings@.push(final(self).warnings@.last())
                &&& final(self).warnings@.last()@ == TRASH_STOPPED@
            },
    {
        let _nt = self.targets.len();
        match result {
            Ok(()) => {
                let t = self.targets[self.next];
                let ghost n = self.trashed@.len() as int;
                let ghost k = self.next as int;
                self.trashed.set(t, true);
                self.count = self.count + 1;
                self.next = self.next + 1;
                assert forall|x: int| 0 <= x < n implies #[trigger] self.trashed@[x] == marks(self.targets@, k + 1, n)[x] by {
                    if x == t as int {
                        assert(self.targets@[k] as int == x);
                    } else if self.trashed@[x] {
                        assert(old(self).trashed@[x]);
                    } else if marks(self.targets@, k + 1, n)[x] {
                        let j = choose|j: int| 0 <= j < k + 1 && self.targets@[j] as int == x;
                        assert(j != k);
                        assert(marks(self.targets@, k, n)[x]);
                    }
                }
                assert(self.trashed@ =~= marks(self.targets@, k + 1, n));
            },
            Err(why) => {
                self.errors.push(FileError::new("trash", path, why));
                self.warnings.push(TRASH_STOPPED.to_string());
                self.stopped = true;
                assert(self.errors@.drop_last() =~= old(self).errors@);
            },
        }
    }
}

proof fn lemma_count_update(s: Seq<bool>, i: int)
    requires
        0 <= i < s.len(),
        !s[i],
    ensures
        count_true(s.update(i, true)) == count_true(s) + 1,
    decreases s.len(),
{
    let u = s.update(i, true);
    if i == s.len() - 1 {
        assert(u.drop_last() =~= s.drop_last());
    } else {
        assert(u.drop_last() =~= s.drop_last().update(i, true));
        lemma_count_update(s.drop_last(), i);
    }
}

proof fn lemma_count_none(n: nat)
    ensures
        count_true(Seq::new(n, |x: int| false)) == 0,
    decreases n,
{
    if n > 0 {
        assert(Seq::new(n, |x: int| false).drop_last() =~= Seq::new((n - 1) as nat, |x: int| false));
        lemma_count_none((n - 1) as nat);
    }
}

/// With distinct targets, the first `k` of them mark `k` files.
proof fn lemma_marks_count(targets: Seq<usize>, k: int, n: int)
    requires
        0 <= k <= targets.len(),
        0 <= n,
        targets.no_duplicates(),
        forall|j: int| 0 <= j < targets.len() ==> (#[trigger] targets[j]) < n,
    ensures
        count_true(marks(targets, k, n)) == k,
    decreases k,
{
    if k == 0 {
        assert(marks(targets, 0, n) =~= Seq::new(n as nat, |x: int| false));
        lemma_count_none(n as nat);
    } else {
        lemma_marks_count(targets, k - 1, n);
        let t = targets[k - 1] as int;
        assert(!marks(targets, k - 1, n)[t]) by {
            if marks(targets, k - 1, n)[t] {
                let j = choose|j: int| 0 <= j < k - 1 && targets[j] as int == t;
                assert(targets[j] == targets[k - 1]);
            }
        }
        assert(marks(targets, k, n) =~= marks(targets, k - 1, n).update(t, true)) by {
            assert forall|x: int| 0 <= x < n implies #[trigger] marks(targets, k, n)[x]
                == marks(targets, k - 1, n).update(t, true)[x] by {
                if x != t && marks(targets, k, n)[x] {
                    let j = choose|j: int| 0 <= j < k && targets[j] as int == x;
                    assert(j != k - 1);
                }
                if x == t {
                    assert(targets[k - 1] as int == x);
                }
            }
        }
        lemma_count_update(marks(targets, k - 1, n), t);
    }
}

proof fn lemma_kept_len(files: Seq<FileEntryView>, trashed: Seq<bool>)
    requires
        files.len() <= trashed.len(),
    ensures
        kept(files, trashed).len() + count_true(trashed.take(files.len() as int)) == files.len(),
    decreases files.len(),
{
    if files.len() > 0 {
        lemma_kept_len(files.drop_last(), trashed);
        assert(trashed.take(files.len() as int).drop_last() =~= trashed.take(files.len() - 1));
    } else {
        assert(trashed.take(0) =~= Seq::<bool>::empty());
    }
}

/// Every file scanned is either kept or moved to the trash: after a trash
/// pass over distinct targets, the files that remain number the files less
/// those the pass moved.
pub proof fn law_kept_is_scanned_less_trashed(files: Seq<FileEntry>, run: TrashRun)
    requires
        run.wf(),
        run.targets@.no_duplicates(),
        run.trashed@.len() == files.len(),
    ensures
        kept(views(files), run.trashed@).len() + run.count == files.len(),
{
    lemma_marks_count(run.targets@, run.next as int, files.len() as int);
    lemma_kept_len(views(files), run.trashed@);
    assert(run.trashed@.take(files.len() as int) =~= run.trashed@);
}

/// The files not moved to the trash, in order.
pub open spec fn kept(files: Seq<FileEntryView>, trashed: Seq<bool>) -> Seq<FileEntryView>
    decreases files.len(),
{
    if files.len() == 0 {
        Seq::empty()
    } else {
        let p = kept(files.drop_last(), trashed);
        if trashed[files.len() - 1] {
            p
        } else {
            p.push(files.last())
        }
    }
}

/// The files that remain after the trash pass, in order.
pub fn remaining_files(files: &[FileEntry], trashed: &Vec<bool>) -> (r: Vec<FileEntry>)
    requires
        trashed@.len() == files@.len(),
    ensures
        views(r@) == kept(views(files@), trashed@),
{
    let mut r: Vec<FileEntry> = Vec::new();
    let mut i: usize = 0;
    while i < files.len()
        invariant
            i <= files@.len(),
            trashed@.len() == files@.len(),
            views(r@) == kept(views(files@).take(i as int), trashed@),
        decreases files@.len() - i,
    {
        assert(views(files@).take(i + 1).drop_last() =~= views(files@).take(i as int));
        assert(views(files@).take(i + 1).last() == files@[i as int]@);
        if !trashed[i] {
            let ghost before = r@;
            r.push(files[i].clone());
            assert(views(r@) =~= views(before).push(files@[i as int]@));
        }
        i += 1;
    }
    assert(views(files@).take(files@.len() as int) =~= views(files@));
    r
}

/// The names that renaming must not take: those of the entries the scan
/// skipped.
pub fn occupied_for(skipped: &[SkippedEntry], case_sensitive: bool) -> (r: OccupiedNames)
    ensures
        r.wf(),
        r.is_case_sensitive() == case_sensitive,
        r.name_set() == skipped@.map_values(|s: SkippedEntry| s.name@).to_set(),
{
    let mut occ = OccupiedNames::for_filesystem(case_sensitive);
    let mut i: usize = 0;
    while i < skipped.len()
        invariant
            i <= skipped@.len(),
            occ.wf(),
            occ.is_case_sensitive() == case_sensitive,
            occ.name_set() == skipped@.take(i as int).map_values(|s: SkippedEntry| s.name@).to_set(),
        decreases skipped@.len() - i,
    {
        occ.insert(skipped[i].name.as_str());
        assert(skipped@.take(i + 1).map_values(|s: SkippedEntry| s.name@)
            =~= skipped@.take(i as int).map_values(|s: SkippedEntry| s.name@).push(skipped@[i as int].name@));
        proof {
            skipped@.take(i as int).map_values(|s: SkippedEntry| s.name@).lemma_push_to_set_commute(
                skipped@[i as int].name@,
            );
        }
        i += 1;
    }
    assert(skipped@.take(skipped@.len() as int) =~= skipped@);
    occ
}

/// One error per file that renaming leaves alone, with the reason.
pub fn blocked_errors(plan: &RenamePlan, remaining: &[FileEntry]) -> (r: Vec<FileError>)
    requires
        forall|k: int| 0 <= k < plan.blocked@.len() ==> (#[trigger] plan.blocked@[k]).entry_index < remaining@.len(),
    ensures
        r@.len() == plan.blocked@.len(),
        forall|k: int| 0 <= k < r@.len() ==> {
            &&& (#[trigger] r@[k]).operation@ == "rename"@
            &&& r@[k].message@ == plan.blocked@[k].reason@
            &&& r@[k].path@ == shown(remaining@[plan.blocked@[k].entry_index as int].path)
        },
{
    let mut r: Vec<FileError> = Vec::new();
    let mut k: usize = 0;
    while k < plan.blocked.len()
        invariant
            k <= plan.blocked@.len(),
            forall|j: int| 0 <= j < plan.blocked@.len() ==> (#[trigger] plan.blocked@[j]).entry_index < remaining@.len(),
            r@.len() == k,
            forall|j: int| 0 <= j < k ==> {
                &&& (#[trigger] r@[j]).operation@ == "rename"@
                &&& r@[j].message@ == plan.blocked@[j].reason@
                &&& r@[j].path@ == shown(remaining@[plan.blocked@[j].entry_index as int].path)
            },
        decreases plan.blocked@.len() - k,
    {
        let b = &plan.blocked[k];
        r.push(FileError::new("rename", &remaining[b.entry_index].path, b.reason.clone()));
        k += 1;
    }
    r
}

/// Number of duplicates over all groups.
pub open spec fn duplicates_total(groups: Seq<DuplicateGroup>) -> int
    decreases groups.len(),
{
    if groups.len() == 0 {
        0
    } else {
        duplicates_total(groups.drop_last()) + groups.last().duplicates@.len()
    }
}

/// The number of duplicates over all groups, when it fits in `usize`.
pub fn duplicates_total_of(groups: &[DuplicateGroup]) -> (r: Option<usize>)
    ensures
        r is Some <==> duplicates_total(groups@) <= usize::MAX,
        r matches Some(t) ==> t == duplicates_total(groups@),
{
    let mut total: usize = 0;
    let mut g: usize = 0;
    while g < groups.len()
        invariant
            g <= groups@.len(),
            total == duplicates_total(groups@.take(g as int)),
        decreases groups@.len() - g,
    {
        assert(groups@.take(g + 1).drop_last() =~= groups@.take(g as int));
        let k = groups[g].duplicates.len();
        if total > usize::MAX - k {
            proof {
                lemma_total_mono(groups@, g + 1);
            }
            return None;
        }
        total = total + k;
        g += 1;
    }
    assert(groups@.take(groups@.len() as int) =~= groups@);
    Some(total)
}

/// What happens to the renaming stage.
#[derive(Debug, PartialEq, Eq)]
pub enum RenameStage {
    /// Write the journal, then carry out the plan.
    Execute,
    /// Nothing to rename.
    Skip,
    /// The run was cancelled before renaming: end it as cancelled.
    Cancel,
}

/// The renaming stage for a plan with or without operations, in a run that
/// is or is not cancelled.
pub open spec fn rename_stage_of(has_ops: bool, cancelled: bool) -> RenameStage {
    if has_ops && !cancelled {
        RenameStage::Execute
    } else if cancelled {
        RenameStage::Cancel
    } else {
        RenameStage::Skip
    }
}

/// The renaming stage (see `rename_stage_of`).
pub fn rename_stage(has_ops: bool, cancelled: bool) -> (r: RenameStage)
    ensures
        r == rename_stage_of(has_ops, cancelled),
{
    if has_ops && !cancelled {
        RenameStage::Execute
    } else if cancelled {
        RenameStage::Cancel
    } else {
        RenameStage::Skip
    }
}

/// Whether the journal must stay after the renames: while temporary files
/// remain, the next run needs it to recover them.
pub fn keep_journal(remaining_temps: usize) -> (r: bool)
    ensures
        r == (remaining_temps > 0),
{
    remaining_temps > 0
}

pub const JOURNAL_ABANDONED: &'static str = "无法写入 journal,已放弃重命名阶段";

/// The error of digesting the file at `path`: the run was cancelled, or the
/// file could not be read (`detail` says why).
pub fn digest_error(path: &PathBuf, cancelled: bool, detail: &str) -> (r: FileError)
    ensures
        r.operation@ == "hash"@,
        r.path@ == shown(*path),
        cancelled ==> r.message@ == "任务已取消"@,
        !cancelled ==> r.message@ == "无法读取文件进行哈希: "@ + detail@,
{
    let mut m = String::new();
    if cancelled {
        crate::text::push_str(&mut m, "任务已取消");
    } else {
        crate::text::push_str(&mut m, "无法读取文件进行哈希: ");
        crate::text::push_str(&mut m, detail);
    }
    FileError::new("hash", path, m)
}

pub const CANCELLED_WARNING: &'static str = "任务已取消";

/// The names of the duplicates of `groups`, group after group.
pub open spec fn duplicate_names(groups: Seq<DuplicateGroup>) -> Seq<Seq<char>>
    decreases groups.len(),
{
    if groups.len() == 0 {
        Seq::empty()
    } else {
        duplicate_names(groups.drop_last()) + groups.last().duplicates@.map_values(|f: FileEntry| f.file_name@)
    }
}

/// The renames of `ops` that change a name: from the original name to the
/// final one, in order.
pub open spec fn planned_of(ops: Seq<RenameOp>) -> Seq<(Seq<char>, Seq<char>)>
    decreases ops.len(),
{
    if ops.len() == 0 {
        Seq::empty()
    } else {
        let p = planned_of(ops.drop_last());
        if ops.last().is_noop {
            p
        } else {
            p.push((ops.last().original_name@, ops.last().final_name@))
        }
    }
}

pub open spec fn planned_views(ps: Seq<PlannedRename>) -> Seq<(Seq<char>, Seq<char>)> {
    ps.map_values(|p: PlannedRename| (p.from@, p.to@))
}

pub open spec fn name_views(ns: Seq<String>) -> Seq<Seq<char>> {
    ns.map_values(|n: String| n@)
}

impl ProcessingResult {
    /// The result of a run with `opts` before it starts: nothing counted,
    /// the algorithm named, a preview marked as one.
    pub fn for_run(opts: &ProcessOptions) -> (r: Self)
        ensures
            r.hash_algorithm@ == algorithm_name(opts.hash_algorithm),
            r.dry_run == opts.dry_run,
            r.directory@.len() == 0,
            r.planned_trashes@.len() == 0,
            r.planned_renames@.len() == 0,
            r.scanned_count == 0,
            r.duplicate_count == 0,
            r.trashed_count == 0,
            r.kept_count == 0,
            r.renamed_count == 0,
            r.failed_count == 0,
            !r.cancelled,
            r.errors@.len() == 0,
            r.warnings@.len() == 0,
    {
        let mut r = ProcessingResult::empty();
        r.hash_algorithm = opts.hash_algorithm.as_str().to_string();
        r.dry_run = opts.dry_run;
        r
    }

    /// Takes over the files that remain after the trash pass: they are the
    /// files kept.
    pub fn absorb_remaining(&mut self, remaining: &[FileEntry])
        ensures
            final(self).kept_count == remaining@.len(),
            final(self).scanned_count == old(self).scanned_count,
            final(self).duplicate_count == old(self).duplicate_count,
            final(self).trashed_count == old(self).trashed_count,
            final(self).errors@ == old(self).errors@,
            final(self).warnings@ == old(self).warnings@,
            final(self).cancelled == old(self).cancelled,
            final(self).dry_run == old(self).dry_run,
    {
        self.kept_count = remaining.len();
    }

    /// Records what a preview would do: the duplicates that would go to the
    /// trash, and the renames of `plan` that change a name.
    pub fn record_preview(&mut self, groups: &[DuplicateGroup], plan: &RenamePlan)
        ensures
            name_views(final(self).planned_trashes@) == duplicate_names(groups@),
            planned_views(final(self).planned_renames@) == planned_of(plan.ops@),
            final(self).scanned_count == old(self).scanned_count,
            final(self).duplicate_count == old(self).duplicate_count,
            final(self).trashed_count == old(self).trashed_count,
            final(self).kept_count == old(self).kept_count,
            final(self).renamed_count == old(self).renamed_count,
            final(self).errors@ == old(self).errors@,
            final(self).warnings@ == old(self).warnings@,
            final(self).cancelled == old(self).cancelled,
            final(self).dry_run == old(self).dry_run,
    {
        let mut names: Vec<String> = Vec::new();
        let mut g: usize = 0;
        while g < groups.len()
            invariant
                g <= groups@.len(),
                name_views(names@) == duplicate_names(groups@.take(g as int)),
            decreases groups@.len() - g,
        {
            let ds = &groups[g].duplicates;
            let ghost base = name_views(names@);
            let mut j: usize = 0;
            while j < ds.len()
                invariant
                    j <= ds@.len(),
                    ds@ == groups@[g as int].duplicates@,
                    name_views(names@) == base + ds@.take(j as int).map_values(|f: FileEntry| f.file_name@),
                decreases ds@.len() - j,
            {
                let ghost before = names@;
                names.push(ds[j].file_name.clone());
                assert(name_views(names@) =~= name_views(before).push(ds@[j as int].file_name@));
                assert(ds@.take(j + 1).map_values(|f: FileEntry| f.file_name@)
                    =~= ds@.take(j as int).map_values(|f: FileEntry| f.file_name@).push(ds@[j as int].file_name@));
                j += 1;
            }
            assert(ds@.take(ds@.len() as int) =~= ds@);
            assert(groups@.take(g + 1).drop_last() =~= groups@.take(g as int));
            assert(groups@.take(g + 1).last() == groups@[g as int]);
            g += 1;
        }
        assert(groups@.take(groups@.len() as int) =~= groups@);
        let mut renames: Vec<PlannedRename> = Vec::new();
        let mut k: usize = 0;
        while k < plan.ops.len()
            invariant
                k <= plan.ops@.len(),
                planned_views(renames@) == planned_of(plan.ops@.take(k as int)),
            decreases plan.ops@.len() - k,
        {
            let op = &plan.ops[k];
            assert(plan.ops@.take(k + 1).drop_last() =~= plan.ops@.take(k as int));
            assert(plan.ops@.take(k + 1).last() == plan.ops@[k as int]);
            if !op.is_noop {
                let ghost before = renames@;
                renames.push(PlannedRename { from: op.original_name.clone(), to: op.final_name.clone() });
                assert(planned_views(renames@) =~= planned_views(before).push((op.original_name@, op.final_name@)));
            }
            k += 1;
        }
        assert(plan.ops@.take(plan.ops@.len() as int) =~= plan.ops@);
        self.planned_trashes = names;
        self.planned_renames = renames;
    }

    /// Takes over what recovery did.
    pub fn absorb_recovery(&mut self, report: RecoveryReport)
        ensures
            final(self).recovered_finals == report.recovered_finals,
            final(self).restored_temps == report.restored_temps,
            final(self).orphan_temps == report.orphan_temps,
            final(self).warnings@ == old(self).warnings@ + report.warnings@,
            final(self).errors@ == old(self).errors@ + report.errors@,
            final(self).scanned_count == old(self).scanned_count,
            final(self).cancelled == old(self).cancelled,
    {
        let mut report = report;
        self.recovered_finals = report.recovered_finals;
        self.restored_temps = report.restored_temps;
        self.orphan_temps = report.orphan_temps;
        self.warnings.append(&mut report.warnings);
        self.errors.append(&mut report.errors);
    }

    /// Takes over the counts and errors of the scan (its errors leave it).
    pub fn absorb_scan(&mut self, scan: &mut ScanResult)
        ensures
            final(self).scanned_count == old(scan).files@.len(),
            final(self).skipped_count == old(scan).skipped@.len(),
            final(self).errors@ == old(self).errors@ + old(scan).errors@,
            final(scan).errors@.len() == 0,
            final(scan).files@ == old(scan).files@,
            final(scan).skipped@ == old(scan).skipped@,
            final(self).warnings@ == old(self).warnings@,
            final(self).cancelled == old(self).cancelled,
    {
        self.scanned_count = scan.files.len();
        self.skipped_count = scan.skipped.len();
        self.errors.append(&mut scan.errors);
    }

    /// Takes over the duplicate groups found: their number and the number of
    /// duplicates.
    pub fn absorb_groups(&mut self, groups: &[DuplicateGroup])
        requires
            duplicates_total(groups@) <= usize::MAX,
        ensures
            final(self).duplicate_groups == groups@.len(),
            final(self).duplicate_count == duplicates_total(groups@),
            final(self).errors@ == old(self).errors@,
            final(self).warnings@ == old(self).warnings@,
            final(self).cancelled == old(self).cancelled,
    {
        let mut total: usize = 0;
        let mut g: usize = 0;
        while g < groups.len()
            invariant
                g <= groups@.len(),
                total == duplicates_total(groups@.take(g as int)),
                duplicates_total(groups@) <= usize::MAX,
            decreases groups@.len() - g,
        {
            assert(groups@.take(g + 1).drop_last() =~= groups@.take(g as int));
            proof {
                lemma_total_mono(groups@, g + 1);
            }
            total = total + groups[g].duplicates.len();
            g += 1;
        }
        assert(groups@.take(groups@.len() as int) =~= groups@);
        self.duplicate_groups = groups.len();
        self.duplicate_count = total;
    }

    /// Takes over what the trash pass did: how many files went to the
    /// trash, its errors and its warnings.
    pub fn absorb_trash(&mut self, run: &mut TrashRun)
        ensures
            final(self).trashed_count == old(run).count,
            final(self).errors@ == old(self).errors@ + old(run).errors@,
            final(self).warnings@ == old(self).warnings@ + old(run).warnings@,
            final(run).errors@.len() == 0,
            final(run).warnings@.len() == 0,
            final(run).trashed@ == old(run).trashed@,
            final(self).cancelled == old(self).cancelled,
    {
        self.trashed_count = run.count;
        self.errors.append(&mut run.errors);
        self.warnings.append(&mut run.warnings);
    }

    /// Takes over the outcome of the renames.
    pub fn absorb_execution(&mut self, outcome: crate::execution::ExecOutcome)
        ensures
            final(self).renamed_count == outcome.renamed,
            final(self).errors@ == old(self).errors@ + outcome.errors@,
            final(self).warnings@ == old(self).warnings@,
            final(self).cancelled == old(self).cancelled,
    {
        let mut outcome = outcome;
        self.renamed_count = outcome.renamed;
        self.errors.append(&mut outcome.errors);
    }

    /// Records that the journal could not be written: renaming is given up.
    pub fn journal_failed(&mut self, error: FileError)
        ensures
            final(self).errors@ == old(self).errors@.push(error),
            final(self).warnings@.len() == old(self).warnings@.len() + 1,
            final(self).warnings@.drop_last() == old(self).warnings@,
            final(self).warnings@.last()@ == JOURNAL_ABANDONED@,
            final(self).renamed_count == old(self).renamed_count,
            final(self).cancelled == old(self).cancelled,
    {
        self.errors.push(error);
        self.warnings.push(JOURNAL_ABANDONED.to_string());
        assert(self.warnings@.drop_last() =~= old(self).warnings@);
    }

    /// Ends a cancelled run.
    pub fn finish_cancelled(&mut self, elapsed_ms: u64)
        ensures
            final(self).cancelled,
            final(self).failed_count == old(self).errors@.len(),
            final(self).elapsed_ms == elapsed_ms,
            final(self).errors@ == old(self).errors@,
            final(self).warnings@.len() == old(self).warnings@.len() + 1,
            final(self).warnings@.drop_last() == old(self).warnings@,
            final(self).warnings@.last()@ == CANCELLED_WARNING@,
    {
        self.cancelled = true;
        self.failed_count = self.errors.len();
        self.elapsed_ms = elapsed_ms;
        self.warnings.push(CANCELLED_WARNING.to_string());
        assert(self.warnings@.drop_last() =~= old(self).warnings@);
    }

    /// Ends a run that went through: failures are the errors recorded.
    pub fn finish(&mut self, cancelled: bool, elapsed_ms: u64)
        ensures
            final(self).cancelled == cancelled,
            final(self).failed_count == old(self).errors@.len(),
            final(self).elapsed_ms == elapsed_ms,
            final(self).errors@ == old(self).errors@,
            final(self).warnings@ == old(self).warnings@,
    {
        self.cancelled = cancelled;
        self.failed_count = self.errors.len();
        self.elapsed_ms = elapsed_ms;
    }
}

proof fn lemma_total_mono(groups: Seq<DuplicateGroup>, k: int)
    requires
        0 <= k <= groups.len(),
    ensures
        duplicates_total(groups.take(k)) <= duplicates_total(groups),
        0 <= duplicates_total(groups.take(k)),
    decreases groups.len() - k,
{
    if k < groups.len() {
        lemma_total_mono(groups, k + 1);
        assert(groups.take(k + 1).drop_last() =~= groups.take(k));
    } else {
        assert(groups.take(k) =~= groups);
    }
    lemma_total_nonneg(groups.take(k));
}

proof fn lemma_total_nonneg(groups: Seq<DuplicateGroup>)
    ensures
        0 <= duplicates_total(groups),
    decreases groups.len(),
{
    if groups.len() > 0 {
        lemma_total_nonneg(groups.drop_last());
    }
}

} // verus!
