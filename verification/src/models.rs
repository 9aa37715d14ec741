//! Core data of a run: file entries, content digests, duplicate groups and
//! the statistics of one processing run.

use vstd::prelude::*;
use std::path::PathBuf;
use crate::error::FileError;
use crate::text::push_char;
use crate::sorter::NaturalName;

verus! {

/// A content digest (algorithm-independent bytes).
#[derive(Debug, PartialEq, Eq, Hash)]
pub struct HashValue(pub Vec<u8>);

impl View for HashValue {
    type V = Seq<u8>;

    open spec fn view(&self) -> Seq<u8> {
        self.0@
    }
}

impl Clone for HashValue {
    fn clone(&self) -> (r: Self)
        ensures
            r@ == self@,
    {
        HashValue(self.0.clone())
    }
}

/// Lowercase hexadecimal digit of `n` (0..16).
pub open spec fn hex_digit(n: int) -> char {
    if n < 10 {
        ('0' as int + n) as char
    } else {
        ('a' as int + n - 10) as char
    }
}

/// Two lowercase hexadecimal digits per byte.
pub open spec fn hex_of(b: Seq<u8>) -> Seq<char>
    decreases b.len(),
{
    if b.len() == 0 {
        Seq::empty()
    } else {
        hex_of(b.drop_last()) + seq![hex_digit((b.last() / 16) as int), hex_digit((b.last() % 16) as int)]
    }
}

fn hex_char(n: u8) -> (c: char)
    requires
        n < 16,
    ensures
        c == hex_digit(n as int),
{
    if n < 10 {
        (48u8 + n) as char
    } else {
        (87u8 + n) as char
    }
}

impl HashValue {
    /// The digest in lowercase hexadecimal.
    pub fn hex(&self) -> (r: String)
        ensures
            r@ == hex_of(self@),
            r@.len() == 2 * self@.len(),
    {
        let mut s = String::new();
        let mut i: usize = 0;
        while i < self.0.len()
            invariant
                i <= self.0.len(),
                s@ == hex_of(self@.take(i as int)),
                s@.len() == 2 * i,
            decreases self.0.len() - i,
        {
            let b = self.0[i];
            push_char(&mut s, hex_char(b / 16));
            push_char(&mut s, hex_char(b % 16));
            assert(self@.take(i + 1).drop_last() =~= self@.take(i as int));
            i += 1;
        }
        assert(self@.take(self.0.len() as int) =~= self@);
        s
    }
}

/// One regular file of the directory.
pub struct FileEntry {
    pub path: PathBuf,
    /// The file name (extension included), used for ordering and display.
    pub file_name: String,
    /// The extension without the dot, case kept; `None` when there is none.
    pub extension: Option<String>,
    pub size: u64,
    pub hash: Option<HashValue>,
}

pub struct FileEntryView {
    pub path: PathBuf,
    pub file_name: Seq<char>,
    pub extension: Option<Seq<char>>,
    pub size: u64,
    pub hash: Option<Seq<u8>>,
}

pub open spec fn opt_str_view(o: Option<String>) -> Option<Seq<char>> {
    match o {
        Some(s) => Some(s@),
        None => None,
    }
}

pub open spec fn opt_hash_view(o: Option<HashValue>) -> Option<Seq<u8>> {
    match o {
        Some(h) => Some(h@),
        None => None,
    }
}

impl View for FileEntry {
    type V = FileEntryView;

    open spec fn view(&self) -> FileEntryView {
        FileEntryView {
            path: self.path,
            file_name: self.file_name@,
            extension: opt_str_view(self.extension),
            size: self.size,
            hash: opt_hash_view(self.hash),
        }
    }
}

pub fn clone_opt_string(o: &Option<String>) -> (r: Option<String>)
    ensures
        opt_str_view(r) == opt_str_view(*o),
{
    match o {
        Some(s) => Some(s.clone()),
        None => None,
    }
}

pub fn clone_opt_hash(o: &Option<HashValue>) -> (r: Option<HashValue>)
    ensures
        opt_hash_view(r) == opt_hash_view(*o),
{
    match o {
        Some(h) => Some(h.clone()),
        None => None,
    }
}

impl Clone for FileEntry {
    fn clone(&self) -> (r: Self)
        ensures
            r@ == self@,
    {
        FileEntry {
            path: self.path.clone(),
            file_name: self.file_name.clone(),
            extension: clone_opt_string(&self.extension),
            size: self.size,
            hash: clone_opt_hash(&self.hash),
        }
    }
}

impl NaturalName for FileEntry {
    open spec fn natural_name(&self) -> Seq<char> {
        self.file_name@
    }

    fn name_str(&self) -> (r: &str) {
        self.file_name.as_str()
    }
}

/// A set of files with identical content (same size, same digest, and
/// byte-for-byte equal).
pub struct DuplicateGroup {
    pub size: u64,
    pub hash: HashValue,
    /// The file kept: first in natural order.
    pub keep: FileEntry,
    /// The other files, to go to the trash.
    pub duplicates: Vec<FileEntry>,
}

/// A rename that a preview run would make.
pub struct PlannedRename {
    pub from: String,
    pub to: String,
}

/// The statistics of one processing run.
pub struct ProcessingResult {
    pub directory: String,
    /// The digest algorithm used (by name).
    pub hash_algorithm: String,
    /// A preview: nothing was moved or renamed.
    pub dry_run: bool,
    /// In a preview, the names of the duplicates that would go to the trash.
    pub planned_trashes: Vec<String>,
    /// In a preview, the renames that would be made.
    pub planned_renames: Vec<PlannedRename>,
    /// Regular files scanned.
    pub scanned_count: usize,
    /// Entries skipped (directories, symbolic links, special files).
    pub skipped_count: usize,
    /// Groups of identical content.
    pub duplicate_groups: usize,
    /// Files found to be duplicates.
    pub duplicate_count: usize,
    /// Duplicates moved to the trash.
    pub trashed_count: usize,
    /// Files kept after deduplication (they take part in renaming).
    pub kept_count: usize,
    /// Files renamed (those already at their target name included).
    pub renamed_count: usize,
    /// File operations that failed.
    pub failed_count: usize,
    pub cancelled: bool,
    /// Recovery: interrupted final renames completed.
    pub recovered_finals: usize,
    /// Recovery: temporary files restored to their original names.
    pub restored_temps: usize,
    /// Leftover temporary files of unknown origin (left out of processing).
    pub orphan_temps: usize,
    pub elapsed_ms: u64,
    pub errors: Vec<FileError>,
    pub warnings: Vec<String>,
}

impl ProcessingResult {
    /// A result with every count zero and nothing recorded.
    pub fn empty() -> (r: Self)
        ensures
            r.directory@ == Seq::<char>::empty(),
            r.hash_algorithm@ == Seq::<char>::empty(),
            !r.dry_run,
            r.planned_trashes@.len() == 0,
            r.planned_renames@.len() == 0,
            r.scanned_count == 0,
            r.skipped_count == 0,
            r.duplicate_groups == 0,
            r.duplicate_count == 0,
            r.trashed_count == 0,
            r.kept_count == 0,
            r.renamed_count == 0,
            r.failed_count == 0,
            !r.cancelled,
            r.recovered_finals == 0,
            r.restored_temps == 0,
            r.orphan_temps == 0,
            r.elapsed_ms == 0,
            r.errors@.len() == 0,
            r.warnings@.len() == 0,
    {
        ProcessingResult {
            directory: String::new(),
            hash_algorithm: String::new(),
            dry_run: false,
            planned_trashes: Vec::new(),
            planned_renames: Vec::new(),
            scanned_count: 0,
            skipped_count: 0,
            duplicate_groups: 0,
            duplicate_count: 0,
            trashed_count: 0,
            kept_count: 0,
            renamed_count: 0,
            failed_count: 0,
            cancelled: false,
            recovered_finals: 0,
            restored_temps: 0,
            orphan_temps: 0,
            elapsed_ms: 0,
            errors: Vec::new(),
            warnings: Vec::new(),
        }
    }

    /// The result reported for a run that could not take place: the
    /// directory, one fatal error on it, and one failure.
    pub fn fatal(directory: String, path: &PathBuf, message: String) -> (r: Self)
        ensures
            r.directory@ == directory@,
            r.errors@.len() == 1,
            r.errors@[0].operation@ == "fatal"@,
            r.errors@[0].message@ == message@,
            r.failed_count == 1,
            !r.cancelled,
            r.scanned_count == 0,
            r.warnings@.len() == 0,
    {
        let mut r = ProcessingResult::empty();
        r.directory = directory;
        r.errors.push(FileError::new("fatal", path, message));
        r.failed_count = 1;
        r
    }

    /// The run finished without cancellation and without failures.
    pub fn ok(&self) -> (r: bool)
        ensures
            r == (!self.cancelled && self.failed_count == 0),
    {
        !self.cancelled && self.failed_count == 0
    }
}

impl Default for ProcessingResult {
    fn default() -> (r: Self)
        ensures
            r.scanned_count == 0,
            r.failed_count == 0,
            !r.cancelled,
            r.errors@.len() == 0,
            r.warnings@.len() == 0,
    {
        ProcessingResult::empty()
    }
}

} // verus!
