//! What a scan of one directory keeps: the regular files at its top level,
//! in natural order of names. Subdirectories, symbolic links and special
//! files are listed as skipped; the library's own files are counted and left
//! out. The caller lists the directory and reports each entry.

use vstd::prelude::*;
use std::path::PathBuf;
use crate::models::{FileEntry, FileEntryView};
use crate::error::FileError;
use crate::paths::shown;
use crate::platform::INTERNAL_PREFIX;
use crate::sorter::{sort_names, names_in_order, stably_from, all_lowering};
use crate::text::{chars_of, string_from_chars, slice_chars, starts_with, has_prefix, push_str};
use crate::duplicate_detector::lemma_multiset_map;

verus! {

/// Position of the last dot of `s`, or -1.
pub open spec fn last_dot(s: Seq<char>) -> int
    decreases s.len(),
{
    if s.len() == 0 {
        -1
    } else if s.last() == '.' {
        s.len() - 1
    } else {
        last_dot(s.drop_last())
    }
}

/// The extension of a file name as `std`'s `Path::extension` gives it: the
/// text after the last dot; none when there is no dot, when the only dot
/// opens the name, or for "..".
pub open spec fn extension_of_name(name: Seq<char>) -> Option<Seq<char>> {
    if name == seq!['.', '.'] || last_dot(name) <= 0 {
        None
    } else {
        Some(name.subrange(last_dot(name) + 1, name.len() as int))
    }
}

proof fn lemma_last_dot(s: Seq<char>)
    ensures
        -1 <= last_dot(s) < s.len(),
        last_dot(s) >= 0 ==> s[last_dot(s)] == '.',
        forall|j: int| last_dot(s) < j < s.len() ==> s[j] != '.',
    decreases s.len(),
{
    if s.len() > 0 && s.last() != '.' {
        lemma_last_dot(s.drop_last());
        assert forall|j: int| last_dot(s) < j < s.len() implies s[j] != '.' by {
            if j < s.len() - 1 {
                assert(s.drop_last()[j] == s[j]);
            }
        }
    }
}

proof fn lemma_last_dot_is(s: Seq<char>, i: int)
    requires
        -1 <= i < s.len(),
        i >= 0 ==> s[i] == '.',
        forall|j: int| i < j < s.len() ==> s[j] != '.',
    ensures
        last_dot(s) == i,
    decreases s.len(),
{
    if s.len() > 0 && i < s.len() - 1 {
        lemma_last_dot_is(s.drop_last(), i);
    }
}

/// The extension is the text after the last dot of the name, exactly as it
/// is written there (case and all): there is one when a dot stands anywhere
/// but at the start of the name (".." aside), and it holds no dot.
pub proof fn law_extension_is_text_after_last_dot(name: Seq<char>)
    ensures
        extension_of_name(name) matches Some(e) ==> {
            &&& e.len() + 2 <= name.len()
            &&& name[name.len() - e.len() - 1] == '.'
            &&& name.subrange(name.len() - e.len(), name.len() as int) == e
            &&& forall|j: int| 0 <= j < e.len() ==> e[j] != '.'
        },
        extension_of_name(name) is None <==> (name == seq!['.', '.'] || forall|j: int| 0 < j < name.len() ==> name[j] != '.'),
{
    lemma_last_dot(name);
    let d = last_dot(name);
    if extension_of_name(name) is Some {
        let e = name.subrange(d + 1, name.len() as int);
        assert(name.len() - e.len() - 1 == d);
        assert(name.subrange(name.len() - e.len(), name.len() as int) =~= e);
        assert forall|j: int| 0 <= j < e.len() implies e[j] != '.' by {
            assert(e[j] == name[d + 1 + j]);
        }
        assert(!(forall|j: int| 0 < j < name.len() ==> name[j] != '.'));
    }
}

/// The extension of the file name `name` (see `extension_of_name`).
pub fn extension_of(name: &str) -> (r: Option<String>)
    ensures
        match r {
            Some(e) => extension_of_name(name@) == Some(e@),
            None => extension_of_name(name@) is None,
        },
{
    let cs = chars_of(name);
    let n = cs.len();
    if n == 2 && cs[0] == '.' && cs[1] == '.' {
        assert(name@ =~= seq!['.', '.']);
        return None;
    }
    let mut i: usize = n;
    while i > 0
        invariant
            i <= n,
            n == cs@.len(),
            cs@ == name@,
            !(n == 2 && cs@[0] == '.' && cs@[1] == '.'),
            forall|j: int| i <= j < n ==> cs@[j] != '.',
        decreases i,
    {
        if cs[i - 1] == '.' {
            proof {
                lemma_last_dot_is(name@, i - 1);
            }
            if i - 1 == 0 {
                return None;
            }
            assert(name@ != seq!['.', '.']) by {
                if name@ == seq!['.', '.'] {
                    assert(seq!['.', '.'].len() == 2);
                    assert(cs@[0] == '.' && cs@[1] == '.');
                }
            }
            let e = slice_chars(&cs, i, n);
            return Some(string_from_chars(&e));
        }
        i -= 1;
    }
    proof {
        lemma_last_dot_is(name@, -1);
    }
    None
}

/// The kind of a directory entry, as its file type says.
#[derive(Debug, PartialEq, Eq)]
pub enum EntryKind {
    File,
    Directory,
    Symlink,
    /// Anything else (sockets, devices, pipes).
    Special,
}

/// An entry left alone by a scan.
pub struct SkippedEntry {
    pub path: PathBuf,
    /// "symlink", "directory" or "special".
    pub kind: String,
    /// The entry's file name.
    pub name: String,
}

/// What went wrong with one directory entry.
pub enum ScanErrorKind {
    /// The entry could not be read.
    ReadEntry,
    /// Its file type could not be read.
    FileType,
    /// Its metadata could not be read.
    Metadata,
}

pub struct ScanResult {
    pub files: Vec<FileEntry>,
    pub skipped: Vec<SkippedEntry>,
    /// The library's own files that were seen.
    pub internal_count: usize,
    pub errors: Vec<FileError>,
}

pub open spec fn kind_label(k: EntryKind) -> Seq<char> {
    match k {
        EntryKind::File => "file"@,
        EntryKind::Directory => "directory"@,
        EntryKind::Symlink => "symlink"@,
        EntryKind::Special => "special"@,
    }
}

pub open spec fn scan_message(k: ScanErrorKind, detail: Seq<char>) -> Seq<char> {
    match k {
        ScanErrorKind::ReadEntry => "读取目录条目失败: "@ + detail,
        ScanErrorKind::FileType => "无法识别文件类型: "@ + detail,
        ScanErrorKind::Metadata => "无法获取文件信息: "@ + detail,
    }
}

/// Whether `name` is one of the library's own files.
pub fn is_internal_name(name: &str) -> (r: bool)
    ensures
        r == has_prefix(name@, INTERNAL_PREFIX@),
{
    starts_with(name, INTERNAL_PREFIX)
}

/// No file of `files` is one of the library's own.
pub open spec fn none_internal(files: Seq<FileEntry>) -> bool {
    forall|i: int| 0 <= i < files.len() ==> !has_prefix(#[trigger] files[i].file_name@, INTERNAL_PREFIX@)
}

pub open spec fn entry_views(files: Seq<FileEntry>) -> Seq<FileEntryView> {
    files.map_values(|f: FileEntry| f@)
}

impl ScanResult {
    pub fn new() -> (r: Self)
        ensures
            r.files@.len() == 0,
            r.skipped@.len() == 0,
            r.internal_count == 0,
            r.errors@.len() == 0,
            none_internal(r.files@),
    {
        ScanResult { files: Vec::new(), skipped: Vec::new(), internal_count: 0, errors: Vec::new() }
    }

    /// Counts one of the library's own files.
    pub fn note_internal(&mut self)
        requires
            old(self).internal_count < usize::MAX,
        ensures
            final(self).internal_count == old(self).internal_count + 1,
            final(self).files@ == old(self).files@,
            final(self).skipped@ == old(self).skipped@,
            final(self).errors@ == old(self).errors@,
    {
        self.internal_count = self.internal_count + 1;
    }

    /// Records an entry that is not a regular file: it is skipped.
    pub fn note_other(&mut self, path: PathBuf, name: String, kind: EntryKind)
        requires
            !(kind is File),
        ensures
            final(self).skipped@.len() == old(self).skipped@.len() + 1,
            final(self).skipped@.drop_last() == old(self).skipped@,
            final(self).skipped@.last().path == path,
            final(self).skipped@.last().name@ == name@,
            final(self).skipped@.last().kind@ == kind_label(kind),
            final(self).files@ == old(self).files@,
            final(self).internal_count == old(self).internal_count,
            final(self).errors@ == old(self).errors@,
    {
        let mut label = String::new();
        match kind {
            EntryKind::Directory => push_str(&mut label, "directory"),
            EntryKind::Symlink => push_str(&mut label, "symlink"),
            EntryKind::Special => push_str(&mut label, "special"),
            EntryKind::File => push_str(&mut label, "file"),
        }
        assert(label@ =~= kind_label(kind));
        self.skipped.push(SkippedEntry { path, kind: label, name });
        assert(self.skipped@.drop_last() =~= old(self).skipped@);
    }

    /// Records a regular file of `size` bytes; the library's own files are
    /// never recorded as files.
    pub fn note_file(&mut self, path: PathBuf, name: String, size: u64)
        requires
            !has_prefix(name@, INTERNAL_PREFIX@),
        ensures
            none_internal(old(self).files@) ==> none_internal(final(self).files@),
            final(self).files@.len() == old(self).files@.len() + 1,
            final(self).files@.drop_last() == old(self).files@,
            final(self).files@.last().path == path,
            final(self).files@.last().file_name@ == name@,
            final(self).files@.last().size == size,
            final(self).files@.last().hash is None,
            match final(self).files@.last().extension {
                Some(e) => extension_of_name(name@) == Some(e@),
                None => extension_of_name(name@) is None,
            },
            final(self).skipped@ == old(self).skipped@,
            final(self).internal_count == old(self).internal_count,
            final(self).errors@ == old(self).errors@,
    {
        let extension = extension_of(name.as_str());
        self.files.push(FileEntry { path, file_name: name, extension, size, hash: None });
        assert(self.files@.drop_last() =~= old(self).files@);
    }

    /// Records an entry that could not be examined.
    pub fn note_error(&mut self, kind: ScanErrorKind, path: &PathBuf, detail: &str)
        ensures
            final(self).errors@.len() == old(self).errors@.len() + 1,
            final(self).errors@.drop_last() == old(self).errors@,
            final(self).errors@.last().operation@ == "scan"@,
            final(self).errors@.last().message@ == scan_message(kind, detail@),
            final(self).errors@.last().path@ == shown(*path),
            final(self).files@ == old(self).files@,
            final(self).skipped@ == old(self).skipped@,
            final(self).internal_count == old(self).internal_count,
    {
        let mut m = String::new();
        match kind {
            ScanErrorKind::ReadEntry => push_str(&mut m, "读取目录条目失败: "),
            ScanErrorKind::FileType => push_str(&mut m, "无法识别文件类型: "),
            ScanErrorKind::Metadata => push_str(&mut m, "无法获取文件信息: "),
        }
        push_str(&mut m, detail);
        self.errors.push(FileError::new("scan", path, m));
        assert(self.errors@.drop_last() =~= old(self).errors@);
    }

    /// Puts the files in natural order of names.
    pub fn finish(&mut self)
        ensures
            entry_views(final(self).files@).to_multiset() == entry_views(old(self).files@).to_multiset(),
            final(self).files@.to_multiset() == old(self).files@.to_multiset(),
            names_in_order(final(self).files@),
            none_internal(old(self).files@) ==> none_internal(final(self).files@),
            stably_from(final(self).files@, old(self).files@),
            all_lowering(final(self).files@),
            final(self).skipped@ == old(self).skipped@,
            final(self).internal_count == old(self).internal_count,
            final(self).errors@ == old(self).errors@,
    {
        let mut files: Vec<FileEntry> = Vec::new();
        std::mem::swap(&mut files, &mut self.files);
        let ghost before = files@;
        sort_names(&mut files);
        proof {
            lemma_multiset_map(files@, before, |f: FileEntry| f@);
            if none_internal(before) {
                assert forall|i: int| 0 <= i < files@.len() implies !has_prefix(#[trigger] files@[i].file_name@, INTERNAL_PREFIX@) by {
                    files@.to_multiset_ensures();
                    before.to_multiset_ensures();
                    assert(files@.contains(files@[i]));
                    assert(files@.to_multiset().count(files@[i]) > 0);
                    assert(before.to_multiset().count(files@[i]) > 0);
                    assert(before.contains(files@[i]));
                    let k = choose|k: int| 0 <= k < before.len() && before[k] == files@[i];
                    assert(!has_prefix(before[k].file_name@, INTERNAL_PREFIX@));
                }
            }
        }
        self.files = files;
    }
}

} // verus!
