//! The command line: what the arguments ask for, and the summary printed at
//! the end of a run.

use vstd::prelude::*;
use crate::models::{ProcessingResult, PlannedRename};
use crate::digests::HashAlgorithm;
use crate::text::{chars_of, push_str, push_all, decimal, decimal_chars};

verus! {

/// What the command line asks for.
#[derive(Debug, PartialEq, Eq)]
pub enum Invocation {
    Help,
    Version,
    /// An option that does not exist (exit status 2).
    UnknownOption(String),
    /// More than one directory was given (exit status 2).
    TooManyDirectories,
    /// `--hash` named no known algorithm (exit status 2): the name given,
    /// empty when none followed.
    UnknownAlgorithm(String),
    /// Install (or remove) the file-manager integrations.
    ContextMenu { install: bool },
    /// Process a directory on the command line.
    Cli { dir: String, verbose: bool, dry_run: bool, hash: HashAlgorithm },
    /// Open the window, on a directory or on none.
    Gui { dir: Option<String>, dry_run: bool, hash: HashAlgorithm },
    /// Process a directory: on the command line when run from a terminal,
    /// in the window otherwise.
    Auto { dir: String, verbose: bool, dry_run: bool, hash: HashAlgorithm },
}

pub enum InvocationSpec {
    Help,
    Version,
    UnknownOption(Seq<char>),
    TooManyDirectories,
    UnknownAlgorithm(Seq<char>),
    ContextMenu { install: bool },
    Cli { dir: Seq<char>, verbose: bool, dry_run: bool, hash: HashAlgorithm },
    Gui { dir: Option<Seq<char>>, dry_run: bool, hash: HashAlgorithm },
    Auto { dir: Seq<char>, verbose: bool, dry_run: bool, hash: HashAlgorithm },
}

pub open spec fn invocation_view(i: Invocation) -> InvocationSpec {
    match i {
        Invocation::Help => InvocationSpec::Help,
        Invocation::Version => InvocationSpec::Version,
        Invocation::UnknownOption(o) => InvocationSpec::UnknownOption(o@),
        Invocation::TooManyDirectories => InvocationSpec::TooManyDirectories,
        Invocation::UnknownAlgorithm(n) => InvocationSpec::UnknownAlgorithm(n@),
        Invocation::ContextMenu { install } => InvocationSpec::ContextMenu { install },
        Invocation::Cli { dir, verbose, dry_run, hash } => InvocationSpec::Cli { dir: dir@, verbose, dry_run, hash },
        Invocation::Gui { dir, dry_run, hash } => InvocationSpec::Gui {
            dir: match dir {
                Some(d) => Some(d@),
                None => None,
            },
            dry_run,
            hash,
        },
        Invocation::Auto { dir, verbose, dry_run, hash } => InvocationSpec::Auto { dir: dir@, verbose, dry_run, hash },
    }
}

/// What the options read so far say.
pub struct ArgState {
    pub verbose: bool,
    pub cli_dir: Option<Seq<char>>,
    pub gui_dir: Option<Seq<char>>,
    pub positional: Option<Seq<char>>,
    pub install: bool,
    pub uninstall: bool,
    /// `--dry-run`: preview only.
    pub dry_run: bool,
    /// The algorithm of `--hash` (MD5 when not given).
    pub hash: HashAlgorithm,
}

/// What the options say once all are read.
pub open spec fn conclude(st: ArgState) -> InvocationSpec {
    if st.install || st.uninstall {
        InvocationSpec::ContextMenu { install: st.install }
    } else {
        match st.cli_dir {
            Some(d) => InvocationSpec::Cli { dir: d, verbose: st.verbose, dry_run: st.dry_run, hash: st.hash },
            None => match st.gui_dir {
                Some(d) => InvocationSpec::Gui { dir: Some(d), dry_run: st.dry_run, hash: st.hash },
                None => match st.positional {
                    Some(d) => InvocationSpec::Auto { dir: d, verbose: st.verbose, dry_run: st.dry_run, hash: st.hash },
                    None => InvocationSpec::Gui { dir: None, dry_run: st.dry_run, hash: st.hash },
                },
            },
        }
    }
}

/// The argument after position `i`, if any.
pub open spec fn following(args: Seq<Seq<char>>, i: int) -> Option<Seq<char>> {
    if i + 1 < args.len() {
        Some(args[i + 1])
    } else {
        None
    }
}

/// Reads the arguments from position `i` on, in the state `st`. Help and
/// version answer at once; an unknown option, a second directory or an
/// unknown algorithm stops the reading; `--cli`, `--gui` and `--hash` take
/// the next argument as their value.
pub open spec fn parse_from(args: Seq<Seq<char>>, i: int, st: ArgState) -> InvocationSpec
    decreases args.len() - i,
{
    if i < 0 || i >= args.len() {
        conclude(st)
    } else {
        let a = args[i];
        let next = if i + 1 < args.len() { i + 2 } else { args.len() as int };
        if a == "-h"@ || a == "--help"@ {
            InvocationSpec::Help
        } else if a == "-V"@ || a == "--version"@ {
            InvocationSpec::Version
        } else if a == "--verbose"@ {
            parse_from(args, i + 1, ArgState { verbose: true, ..st })
        } else if a == "--dry-run"@ {
            parse_from(args, i + 1, ArgState { dry_run: true, ..st })
        } else if a == "--install-context-menu"@ {
            parse_from(args, i + 1, ArgState { install: true, ..st })
        } else if a == "--uninstall-context-menu"@ {
            parse_from(args, i + 1, ArgState { uninstall: true, ..st })
        } else if a == "--cli"@ {
            parse_from(args, next, ArgState { cli_dir: following(args, i), ..st })
        } else if a == "--gui"@ {
            parse_from(args, next, ArgState { gui_dir: following(args, i), ..st })
        } else if a == "--hash"@ {
            match following(args, i) {
                Some(n) => if n == "md5"@ {
                    parse_from(args, next, ArgState { hash: HashAlgorithm::Md5, ..st })
                } else if n == "sha256"@ {
                    parse_from(args, next, ArgState { hash: HashAlgorithm::Sha256, ..st })
                } else {
                    InvocationSpec::UnknownAlgorithm(n)
                },
                None => InvocationSpec::UnknownAlgorithm(Seq::empty()),
            }
        } else if a.len() > 0 && a[0] == '-' {
            InvocationSpec::UnknownOption(a)
        } else if st.positional is None {
            parse_from(args, i + 1, ArgState { positional: Some(a), ..st })
        } else {
            InvocationSpec::TooManyDirectories
        }
    }
}

pub open spec fn initial_args() -> ArgState {
    ArgState {
        verbose: false,
        cli_dir: None,
        gui_dir: None,
        positional: None,
        install: false,
        uninstall: false,
        dry_run: false,
        hash: HashAlgorithm::Md5,
    }
}

/// The same invocation, asking for detailed output where it processes a
/// directory.
pub open spec fn verbose_too(r: InvocationSpec) -> InvocationSpec {
    match r {
        InvocationSpec::Cli { dir, verbose, dry_run, hash } => InvocationSpec::Cli { dir, verbose: true, dry_run, hash },
        InvocationSpec::Auto { dir, verbose, dry_run, hash } => InvocationSpec::Auto { dir, verbose: true, dry_run, hash },
        _ => r,
    }
}

/// Whether an invocation processes a directory with detailed output.
pub open spec fn is_verbose_run(r: InvocationSpec) -> bool {
    match r {
        InvocationSpec::Cli { verbose, .. } => verbose,
        InvocationSpec::Auto { verbose, .. } => verbose,
        _ => false,
    }
}

proof fn lemma_parse_shift(pre: Seq<Seq<char>>, args: Seq<Seq<char>>, i: int, st: ArgState)
    requires
        0 <= i,
    ensures
        parse_from(pre + args, i + pre.len(), st) == parse_from(args, i, st),
    decreases args.len() - i,
{
    let all = pre + args;
    let k = i + pre.len();
    if i < args.len() {
        assert(all[k] == args[i]);
        assert(following(all, k) == following(args, i));
        let next = if i + 1 < args.len() { i + 2 } else { args.len() as int };
        let next_all = if k + 1 < all.len() { k + 2 } else { all.len() as int };
        assert(next_all == next + pre.len());
        lemma_parse_shift(pre, args, i + 1, ArgState { verbose: true, ..st });
        lemma_parse_shift(pre, args, i + 1, ArgState { dry_run: true, ..st });
        lemma_parse_shift(pre, args, i + 1, ArgState { install: true, ..st });
        lemma_parse_shift(pre, args, i + 1, ArgState { uninstall: true, ..st });
        lemma_parse_shift(pre, args, next, ArgState { cli_dir: following(args, i), ..st });
        lemma_parse_shift(pre, args, next, ArgState { gui_dir: following(args, i), ..st });
        lemma_parse_shift(pre, args, next, ArgState { hash: HashAlgorithm::Md5, ..st });
        lemma_parse_shift(pre, args, next, ArgState { hash: HashAlgorithm::Sha256, ..st });
        lemma_parse_shift(pre, args, i + 1, ArgState { positional: Some(args[i]), ..st });
    }
}

proof fn lemma_parse_verbose(args: Seq<Seq<char>>, i: int, st: ArgState)
    requires
        0 <= i,
    ensures
        parse_from(args, i, ArgState { verbose: true, ..st }) == verbose_too(parse_from(args, i, st)),
    decreases args.len() - i,
{
    if i < args.len() {
        let next = if i + 1 < args.len() { i + 2 } else { args.len() as int };
        lemma_parse_verbose(args, i + 1, ArgState { verbose: true, ..st });
        lemma_parse_verbose(args, i + 1, ArgState { dry_run: true, ..st });
        lemma_parse_verbose(args, i + 1, ArgState { install: true, ..st });
        lemma_parse_verbose(args, i + 1, ArgState { uninstall: true, ..st });
        lemma_parse_verbose(args, next, ArgState { cli_dir: following(args, i), ..st });
        lemma_parse_verbose(args, next, ArgState { gui_dir: following(args, i), ..st });
        lemma_parse_verbose(args, next, ArgState { hash: HashAlgorithm::Md5, ..st });
        lemma_parse_verbose(args, next, ArgState { hash: HashAlgorithm::Sha256, ..st });
        lemma_parse_verbose(args, i + 1, ArgState { positional: Some(args[i]), ..st });
        assert(ArgState { verbose: true, ..ArgState { verbose: true, ..st } } == ArgState { verbose: true, ..st });
        assert(ArgState { dry_run: true, ..ArgState { verbose: true, ..st } } == ArgState { verbose: true, ..ArgState { dry_run: true, ..st } });
        assert(ArgState { install: true, ..ArgState { verbose: true, ..st } } == ArgState { verbose: true, ..ArgState { install: true, ..st } });
        assert(ArgState { uninstall: true, ..ArgState { verbose: true, ..st } } == ArgState { verbose: true, ..ArgState { uninstall: true, ..st } });
        assert(ArgState { cli_dir: following(args, i), ..ArgState { verbose: true, ..st } } == ArgState { verbose: true, ..ArgState { cli_dir: following(args, i), ..st } });
        assert(ArgState { gui_dir: following(args, i), ..ArgState { verbose: true, ..st } } == ArgState { verbose: true, ..ArgState { gui_dir: following(args, i), ..st } });
        assert(ArgState { hash: HashAlgorithm::Md5, ..ArgState { verbose: true, ..st } } == ArgState { verbose: true, ..ArgState { hash: HashAlgorithm::Md5, ..st } });
        assert(ArgState { hash: HashAlgorithm::Sha256, ..ArgState { verbose: true, ..st } } == ArgState { verbose: true, ..ArgState { hash: HashAlgorithm::Sha256, ..st } });
        assert(ArgState { positional: Some(args[i]), ..ArgState { verbose: true, ..st } } == ArgState { verbose: true, ..ArgState { positional: Some(args[i]), ..st } });
    }
}

proof fn lemma_parse_quiet(args: Seq<Seq<char>>, i: int, st: ArgState)
    requires
        0 <= i,
        !st.verbose,
        forall|j: int| i <= j < args.len() ==> args[j] != "--verbose"@,
    ensures
        !is_verbose_run(parse_from(args, i, st)),
    decreases args.len() - i,
{
    if i < args.len() {
        let next = if i + 1 < args.len() { i + 2 } else { args.len() as int };
        lemma_parse_quiet(args, i + 1, ArgState { dry_run: true, ..st });
        lemma_parse_quiet(args, i + 1, ArgState { install: true, ..st });
        lemma_parse_quiet(args, i + 1, ArgState { uninstall: true, ..st });
        lemma_parse_quiet(args, next, ArgState { cli_dir: following(args, i), ..st });
        lemma_parse_quiet(args, next, ArgState { gui_dir: following(args, i), ..st });
        lemma_parse_quiet(args, next, ArgState { hash: HashAlgorithm::Md5, ..st });
        lemma_parse_quiet(args, next, ArgState { hash: HashAlgorithm::Sha256, ..st });
        lemma_parse_quiet(args, i + 1, ArgState { positional: Some(args[i]), ..st });
    }
}

/// `--verbose` asks for detailed output wherever a directory is processed:
/// put before any other arguments, it turns a run on the command line or a
/// run on a bare directory into the same run with detailed output, and
/// changes nothing else. Without any `--verbose`, no run has detailed
/// output.
pub proof fn law_verbose_flag(args: Seq<Seq<char>>)
    ensures
        parse_from(seq!["--verbose"@] + args, 0, initial_args()) == verbose_too(parse_from(args, 0, initial_args())),
        (forall|j: int| 0 <= j < args.len() ==> args[j] != "--verbose"@) ==> !is_verbose_run(
            parse_from(args, 0, initial_args()),
        ),
{
    let pre = seq!["--verbose"@];
    let all = pre + args;
    assert(all[0] == "--verbose"@);
    reveal_strlit("--verbose");
    reveal_strlit("-h");
    reveal_strlit("--help");
    reveal_strlit("-V");
    reveal_strlit("--version");
    assert("--verbose"@ != "-h"@ && "--verbose"@ != "--help"@ && "--verbose"@ != "-V"@);
    assert("--verbose"@[5] != "--version"@[5]);
    assert(parse_from(all, 0, initial_args()) == parse_from(all, 1, ArgState { verbose: true, ..initial_args() }));
    lemma_parse_shift(pre, args, 0, ArgState { verbose: true, ..initial_args() });
    lemma_parse_verbose(args, 0, initial_args());
    if forall|j: int| 0 <= j < args.len() ==> args[j] != "--verbose"@ {
        lemma_parse_quiet(args, 0, initial_args());
    }
}

pub open spec fn arg_views(args: Seq<String>) -> Seq<Seq<char>> {
    args.map_values(|a: String| a@)
}

fn same_str(a: &str, b: &str) -> (r: bool)
    ensures
        r == (a@ == b@),
{
    let ca = chars_of(a);
    let cb = chars_of(b);
    if ca.len() != cb.len() {
        return false;
    }
    let mut i: usize = 0;
    while i < ca.len()
        invariant
            ca@ == a@,
            cb@ == b@,
            ca.len() == cb.len(),
            i <= ca.len(),
            forall|k: int| 0 <= k < i ==> ca@[k] == cb@[k],
        decreases ca.len() - i,
    {
        if ca[i] != cb[i] {
            return false;
        }
        i += 1;
    }
    assert(a@ =~= b@);
    true
}

fn clone_opt(o: &Option<String>) -> (r: Option<String>)
    ensures
        match r {
            Some(s) => o matches Some(t) && s@ == t@,
            None => o is None,
        },
{
    match o {
        Some(s) => Some(s.clone()),
        None => None,
    }
}

pub open spec fn opt_view(o: Option<String>) -> Option<Seq<char>> {
    match o {
        Some(s) => Some(s@),
        None => None,
    }
}

/// What the arguments (the program's name left out) ask for.
pub fn parse_args(args: &Vec<String>) -> (r: Invocation)
    ensures
        invocation_view(r) == parse_from(arg_views(args@), 0, initial_args()),
{
    let ghost av = arg_views(args@);
    let mut verbose = false;
    let mut cli_dir: Option<String> = None;
    let mut gui_dir: Option<String> = None;
    let mut positional: Option<String> = None;
    let mut install = false;
    let mut uninstall = false;
    let mut dry_run = false;
    let mut hash = HashAlgorithm::Md5;
    let mut i: usize = 0;
    while i < args.len()
        invariant
            av == arg_views(args@),
            i <= args@.len(),
            parse_from(av, i as int, ArgState {
                verbose,
                cli_dir: opt_view(cli_dir),
                gui_dir: opt_view(gui_dir),
                positional: opt_view(positional),
                install,
                uninstall,
                dry_run,
                hash,
            }) == parse_from(av, 0, initial_args()),
        decreases args@.len() - i,
    {
        let a = args[i].as_str();
        assert(av[i as int] == a@);
        let next: usize = if i + 1 < args.len() { i + 2 } else { args.len() };
        if same_str(a, "-h") || same_str(a, "--help") {
            return Invocation::Help;
        } else if same_str(a, "-V") || same_str(a, "--version") {
            return Invocation::Version;
        } else if same_str(a, "--verbose") {
            verbose = true;
            i += 1;
        } else if same_str(a, "--dry-run") {
            dry_run = true;
            i += 1;
        } else if same_str(a, "--install-context-menu") {
            install = true;
            i += 1;
        } else if same_str(a, "--uninstall-context-menu") {
            uninstall = true;
            i += 1;
        } else if same_str(a, "--cli") {
            cli_dir = if i + 1 < args.len() { Some(args[i + 1].clone()) } else { None };
            i = next;
        } else if same_str(a, "--gui") {
            gui_dir = if i + 1 < args.len() { Some(args[i + 1].clone()) } else { None };
            i = next;
        } else if same_str(a, "--hash") {
            if i + 1 < args.len() {
                assert(av[i + 1] == args@[i + 1]@);
                match HashAlgorithm::parse(args[i + 1].as_str()) {
                    Ok(h) => {
                        hash = h;
                        i = next;
                    },
                    Err(_) => {
                        return Invocation::UnknownAlgorithm(args[i + 1].clone());
                    },
                }
            } else {
                return Invocation::UnknownAlgorithm(String::new());
            }
        } else {
            let cs = chars_of(a);
            if cs.len() > 0 && cs[0] == '-' {
                return Invocation::UnknownOption(args[i].clone());
            }
            if positional.is_none() {
                positional = Some(args[i].clone());
                i += 1;
            } else {
                return Invocation::TooManyDirectories;
            }
        }
    }
    if install || uninstall {
        Invocation::ContextMenu { install }
    } else if cli_dir.is_some() {
        let d = clone_opt(&cli_dir);
        match d {
            Some(dir) => Invocation::Cli { dir, verbose, dry_run, hash },
            None => Invocation::Gui { dir: None, dry_run, hash },
        }
    } else if gui_dir.is_some() {
        Invocation::Gui { dir: clone_opt(&gui_dir), dry_run, hash }
    } else {
        match positional {
            Some(dir) => Invocation::Auto { dir, verbose, dry_run, hash },
            None => Invocation::Gui { dir: None, dry_run, hash },
        }
    }
}

/// The exit status of a run that returned a result: 1 when it was
/// cancelled or something failed, 0 otherwise.
pub fn exit_status(res: &ProcessingResult) -> (r: i32)
    ensures
        r == if res.cancelled || res.failed_count > 0 { 1i32 } else { 0i32 },
{
    if res.cancelled || res.failed_count > 0 {
        1
    } else {
        0
    }
}

pub open spec fn count_line(label: Seq<char>, n: nat) -> Seq<char> {
    label + decimal(n)
}

pub open spec fn verdict_of(res: ProcessingResult) -> Seq<char> {
    if res.cancelled {
        "HashRename 已取消"@
    } else if res.dry_run {
        "HashRename 预览完成(未修改任何文件)"@
    } else if res.failed_count > 0 {
        "HashRename 完成(存在部分错误)"@
    } else {
        "HashRename 完成"@
    }
}

fn labelled_count(label: &str, n: usize) -> (r: String)
    ensures
        r@ == count_line(label@, n as nat),
{
    let mut s = String::new();
    push_str(&mut s, label);
    let d = decimal_chars(n as u64);
    push_all(&mut s, &d);
    s
}

/// Planned trashes listed at most in a preview.
pub const SHOWN_TRASHES: usize = 30;

/// Planned renames listed at most in a preview.
pub const SHOWN_RENAMES: usize = 50;

pub open spec fn line_views(r: Seq<String>) -> Seq<Seq<char>> {
    r.map_values(|l: String| l@)
}

pub open spec fn prefixed(prefix: Seq<char>, items: Seq<String>) -> Seq<Seq<char>> {
    items.map_values(|s: String| prefix + s@)
}

pub open spec fn rename_line_of(p: PlannedRename) -> Seq<char> {
    "  "@ + p.from@ + " → "@ + p.to@
}

pub open spec fn at_most(n: nat, limit: nat) -> int {
    if n > limit { limit as int } else { n as int }
}

/// What a preview lists after the counts: the planned numbers, the first
/// planned trashes and renames, and the warnings.
pub open spec fn preview_lines_of(res: ProcessingResult) -> Seq<Seq<char>> {
    let ts = res.planned_trashes@;
    let ps = res.planned_renames@;
    seq![
        count_line("计划移入回收站: "@, ts.len()),
        count_line("计划重命名: "@, ps.len()),
    ] + (if ts.len() > 0 {
        seq![Seq::<char>::empty(), "将移入回收站(最多显示 30 条):"@]
            + prefixed("  ☠ "@, ts.take(at_most(ts.len(), SHOWN_TRASHES as nat)))
    } else {
        Seq::empty()
    }) + (if ps.len() > 0 {
        seq![Seq::<char>::empty(), "将重命名(最多显示 50 条):"@]
            + ps.take(at_most(ps.len(), SHOWN_RENAMES as nat)).map_values(|p: PlannedRename| rename_line_of(p))
    } else {
        Seq::empty()
    }) + prefixed("⚠ "@, res.warnings@)
}

/// The summary of a run up to its timing: a blank line, a rule, the
/// verdict, the directory, the algorithm when known, and the counts; for
/// a preview, the plan in their place.
pub open spec fn summary_head_of(res: ProcessingResult) -> Seq<Seq<char>> {
    seq![Seq::<char>::empty(), "===================="@, verdict_of(res), "目录: "@ + res.directory@]
        + (if res.hash_algorithm@.len() > 0 {
            seq!["哈希算法: "@ + res.hash_algorithm@]
        } else {
            Seq::empty()
        })
        + seq![
            count_line("扫描文件: "@, res.scanned_count as nat),
            count_line("发现重复: "@, res.duplicate_count as nat),
        ]
        + (if res.dry_run {
            preview_lines_of(res)
        } else {
            seq![
                count_line("移入回收站: "@, res.trashed_count as nat),
                count_line("最终文件: "@, res.kept_count as nat),
                count_line("重命名: "@, res.renamed_count as nat),
                count_line("失败: "@, res.failed_count as nat),
            ]
        })
}

/// Appends `prefix` followed by each of the first `count` items.
fn push_prefixed(r: &mut Vec<String>, prefix: &str, items: &Vec<String>, count: usize)
    requires
        count <= items@.len(),
    ensures
        line_views(final(r)@) == line_views(old(r)@) + prefixed(prefix@, items@.take(count as int)),
{
    let ghost base = line_views(r@);
    let mut i: usize = 0;
    while i < count
        invariant
            count <= items@.len(),
            i <= count,
            line_views(r@) == base + prefixed(prefix@, items@.take(i as int)),
        decreases count - i,
    {
        let mut l = String::new();
        push_str(&mut l, prefix);
        push_str(&mut l, items[i].as_str());
        let ghost lv = l@;
        let ghost before = r@;
        r.push(l);
        assert(line_views(r@) =~= line_views(before).push(lv));
        assert(prefixed(prefix@, items@.take(i + 1)) =~= prefixed(prefix@, items@.take(i as int)).push(lv));
        i += 1;
    }
}

/// Appends the first `count` planned renames.
fn push_renames(r: &mut Vec<String>, items: &Vec<PlannedRename>, count: usize)
    requires
        count <= items@.len(),
    ensures
        line_views(final(r)@) == line_views(old(r)@)
            + items@.take(count as int).map_values(|p: PlannedRename| rename_line_of(p)),
{
    let ghost base = line_views(r@);
    let mut i: usize = 0;
    while i < count
        invariant
            count <= items@.len(),
            i <= count,
            line_views(r@) == base + items@.take(i as int).map_values(|p: PlannedRename| rename_line_of(p)),
        decreases count - i,
    {
        let p = &items[i];
        let mut l = String::new();
        push_str(&mut l, "  ");
        push_str(&mut l, p.from.as_str());
        push_str(&mut l, " → ");
        push_str(&mut l, p.to.as_str());
        let ghost lv = l@;
        let ghost before = r@;
        assert(lv == rename_line_of(items@[i as int]));
        r.push(l);
        assert(line_views(r@) =~= line_views(before).push(lv));
        assert(items@.take(i + 1).map_values(|p: PlannedRename| rename_line_of(p))
            =~= items@.take(i as int).map_values(|p: PlannedRename| rename_line_of(p)).push(lv));
        i += 1;
    }
}

fn push_line(r: &mut Vec<String>, l: String)
    ensures
        line_views(final(r)@) == line_views(old(r)@).push(l@),
{
    let ghost before = r@;
    r.push(l);
    assert(line_views(r@) =~= line_views(before).push(l@));
}

fn preview_lines(res: &ProcessingResult, r: &mut Vec<String>)
    ensures
        line_views(final(r)@) == line_views(old(r)@) + preview_lines_of(*res),
{
    let ghost base = line_views(r@);
    let ghost ts = res.planned_trashes@;
    let ghost ps = res.planned_renames@;
    push_line(r, labelled_count("计划移入回收站: ", res.planned_trashes.len()));
    push_line(r, labelled_count("计划重命名: ", res.planned_renames.len()));
    let ghost p1 = line_views(r@);
    assert(p1 =~= base + seq![
        count_line("计划移入回收站: "@, ts.len()),
        count_line("计划重命名: "@, ps.len()),
    ]);
    if res.planned_trashes.len() > 0 {
        push_line(r, String::new());
        push_line(r, "将移入回收站(最多显示 30 条):".to_string());
        let n: usize = if res.planned_trashes.len() > SHOWN_TRASHES { SHOWN_TRASHES } else { res.planned_trashes.len() };
        push_prefixed(r, "  ☠ ", &res.planned_trashes, n);
    }
    let ghost t_part: Seq<Seq<char>> = if ts.len() > 0 {
        seq![Seq::<char>::empty(), "将移入回收站(最多显示 30 条):"@]
            + prefixed("  ☠ "@, ts.take(at_most(ts.len(), SHOWN_TRASHES as nat)))
    } else {
        Seq::empty()
    };
    let ghost p2 = line_views(r@);
    assert(p2 =~= p1 + t_part);
    if res.planned_renames.len() > 0 {
        push_line(r, String::new());
        push_line(r, "将重命名(最多显示 50 条):".to_string());
        let n: usize = if res.planned_renames.len() > SHOWN_RENAMES { SHOWN_RENAMES } else { res.planned_renames.len() };
        push_renames(r, &res.planned_renames, n);
    }
    let ghost r_part: Seq<Seq<char>> = if ps.len() > 0 {
        seq![Seq::<char>::empty(), "将重命名(最多显示 50 条):"@]
            + ps.take(at_most(ps.len(), SHOWN_RENAMES as nat)).map_values(|p: PlannedRename| rename_line_of(p))
    } else {
        Seq::empty()
    };
    let ghost p3 = line_views(r@);
    assert(p3 =~= p2 + r_part);
    push_prefixed(r, "⚠ ", &res.warnings, res.warnings.len());
    assert(res.warnings@.take(res.warnings@.len() as int) =~= res.warnings@);
    assert(line_views(r@) =~= base + preview_lines_of(*res));
}

/// The summary of a run up to its timing (see `summary_head_of`).
pub fn summary_head(res: &ProcessingResult) -> (r: Vec<String>)
    ensures
        line_views(r@) == summary_head_of(*res),
{
    let mut r: Vec<String> = Vec::new();
    push_line(&mut r, String::new());
    push_line(&mut r, "====================".to_string());
    if res.cancelled {
        push_line(&mut r, "HashRename 已取消".to_string());
    } else if res.dry_run {
        push_line(&mut r, "HashRename 预览完成(未修改任何文件)".to_string());
    } else if res.failed_count > 0 {
        push_line(&mut r, "HashRename 完成(存在部分错误)".to_string());
    } else {
        push_line(&mut r, "HashRename 完成".to_string());
    }
    let mut d = String::new();
    push_str(&mut d, "目录: ");
    push_str(&mut d, res.directory.as_str());
    push_line(&mut r, d);
    let ghost p0 = line_views(r@);
    assert(p0 =~= seq![Seq::<char>::empty(), "===================="@, verdict_of(*res), "目录: "@ + res.directory@]);
    if res.hash_algorithm.as_str().unicode_len() > 0 {
        let mut h = String::new();
        push_str(&mut h, "哈希算法: ");
        push_str(&mut h, res.hash_algorithm.as_str());
        push_line(&mut r, h);
    }
    let ghost p1 = line_views(r@);
    assert(p1 =~= p0 + (if res.hash_algorithm@.len() > 0 {
        seq!["哈希算法: "@ + res.hash_algorithm@]
    } else {
        Seq::<Seq<char>>::empty()
    }));
    push_line(&mut r, labelled_count("扫描文件: ", res.scanned_count));
    push_line(&mut r, labelled_count("发现重复: ", res.duplicate_count));
    let ghost p2 = line_views(r@);
    assert(p2 =~= p1 + seq![
        count_line("扫描文件: "@, res.scanned_count as nat),
        count_line("发现重复: "@, res.duplicate_count as nat),
    ]);
    if res.dry_run {
        preview_lines(res, &mut r);
    } else {
        push_line(&mut r, labelled_count("移入回收站: ", res.trashed_count));
        push_line(&mut r, labelled_count("最终文件: ", res.kept_count));
        push_line(&mut r, labelled_count("重命名: ", res.renamed_count));
        push_line(&mut r, labelled_count("失败: ", res.failed_count));
    }
    assert(line_views(r@) =~= summary_head_of(*res));
    r
}

/// Errors shown at most in a summary.
pub const SHOWN_ERRORS: usize = 20;

pub open spec fn error_line_of(operation: Seq<char>, path: Seq<char>, message: Seq<char>) -> Seq<char> {
    "  ["@ + operation + "] "@ + path + ": "@ + message
}

pub open spec fn warning_line_of(w: Seq<char>) -> Seq<char> {
    "⚠ "@ + w
}

/// The lines after the timing: the warnings, then at most
/// `SHOWN_ERRORS` errors, with the total when there are more. A preview
/// shows no timing and nothing after it.
pub open spec fn summary_tail_of(res: ProcessingResult) -> Seq<Seq<char>> {
    if res.dry_run {
        Seq::empty()
    } else {
        summary_tail_lines(res)
    }
}

pub open spec fn summary_tail_lines(res: ProcessingResult) -> Seq<Seq<char>> {
    let ws = res.warnings@;
    let es = res.errors@;
    let shown = if es.len() > SHOWN_ERRORS { SHOWN_ERRORS as int } else { es.len() as int };
    (if ws.len() > 0 {
        seq![Seq::<char>::empty()] + ws.map_values(|w: String| warning_line_of(w@))
    } else {
        Seq::empty()
    }) + (if es.len() > 0 {
        seq![Seq::<char>::empty(), "错误明细(最多显示 20 条):"@]
            + es.take(shown).map_values(|e: crate::error::FileError| error_line_of(e.operation@, e.path@, e.message@))
            + (if es.len() > SHOWN_ERRORS {
                seq!["  ... 共 "@ + decimal(es.len()) + " 条错误"@]
            } else {
                Seq::empty()
            })
    } else {
        Seq::empty()
    })
}

pub fn summary_tail(res: &ProcessingResult) -> (r: Vec<String>)
    ensures
        r@.map_values(|l: String| l@) == summary_tail_of(*res),
{
    let mut r: Vec<String> = Vec::new();
    if res.dry_run {
        assert(r@.map_values(|l: String| l@) =~= summary_tail_of(*res));
        return r;
    }
    let ghost ws = res.warnings@;
    let ghost es = res.errors@;
    let ghost part1: Seq<Seq<char>> = if ws.len() > 0 {
        seq![Seq::<char>::empty()] + ws.map_values(|w: String| warning_line_of(w@))
    } else {
        Seq::empty()
    };
    if res.warnings.len() > 0 {
        r.push(String::new());
        let mut i: usize = 0;
        while i < res.warnings.len()
            invariant
                ws == res.warnings@,
                i <= ws.len(),
                r@.map_values(|l: String| l@) == seq![Seq::<char>::empty()] + ws.take(i as int).map_values(|w: String| warning_line_of(w@)),
            decreases ws.len() - i,
        {
            let ghost before = r@;
            let mut l = String::new();
            push_str(&mut l, "⚠ ");
            push_str(&mut l, res.warnings[i].as_str());
            let ghost lv = l@;
            assert(lv == warning_line_of(ws[i as int]@));
            r.push(l);
            assert(r@.map_values(|l: String| l@) =~= before.map_values(|l: String| l@).push(lv));
            assert(ws.take(i + 1).map_values(|w: String| warning_line_of(w@))
                =~= ws.take(i as int).map_values(|w: String| warning_line_of(w@)).push(lv));
            assert(r@.map_values(|l: String| l@) =~= seq![Seq::<char>::empty()] + ws.take(i + 1).map_values(|w: String| warning_line_of(w@)));
            i += 1;
        }
        assert(ws.take(ws.len() as int) =~= ws);
    } else {
        assert(r@.map_values(|l: String| l@) =~= part1);
    }
    assert(r@.map_values(|l: String| l@) == part1);
    if res.errors.len() > 0 {
        let shown: usize = if res.errors.len() > SHOWN_ERRORS { SHOWN_ERRORS } else { res.errors.len() };
        let ghost base = r@.map_values(|l: String| l@);
        r.push(String::new());
        r.push("错误明细(最多显示 20 条):".to_string());
        let mut k: usize = 0;
        while k < shown
            invariant
                es == res.errors@,
                shown <= es.len(),
                k <= shown,
                r@.map_values(|l: String| l@) == base + seq![Seq::<char>::empty(), "错误明细(最多显示 20 条):"@]
                    + es.take(k as int).map_values(|e: crate::error::FileError| error_line_of(e.operation@, e.path@, e.message@)),
            decreases shown - k,
        {
            let e = &res.errors[k];
            let mut l = String::new();
            push_str(&mut l, "  [");
            push_str(&mut l, e.operation.as_str());
            push_str(&mut l, "] ");
            push_str(&mut l, e.path.as_str());
            push_str(&mut l, ": ");
            push_str(&mut l, e.message.as_str());
            let ghost lv = l@;
            let ghost before = r@;
            assert(lv == error_line_of(es[k as int].operation@, es[k as int].path@, es[k as int].message@));
            r.push(l);
            assert(r@.map_values(|l: String| l@) =~= before.map_values(|l: String| l@).push(lv));
            assert(es.take(k + 1).map_values(|e: crate::error::FileError| error_line_of(e.operation@, e.path@, e.message@))
                =~= es.take(k as int).map_values(|e: crate::error::FileError| error_line_of(e.operation@, e.path@, e.message@)).push(lv));
            assert(r@.map_values(|l: String| l@) =~= base + seq![Seq::<char>::empty(), "错误明细(最多显示 20 条):"@]
                + es.take(k + 1).map_values(|e: crate::error::FileError| error_line_of(e.operation@, e.path@, e.message@)));
            k += 1;
        }
        if res.errors.len() > SHOWN_ERRORS {
            let mut l = String::new();
            push_str(&mut l, "  ... 共 ");
            let d = decimal_chars(res.errors.len() as u64);
            push_all(&mut l, &d);
            push_str(&mut l, " 条错误");
            let ghost before = r@.map_values(|l: String| l@);
            r.push(l);
            assert(r@.map_values(|l: String| l@) =~= before.push("  ... 共 "@ + decimal(es.len()) + " 条错误"@));
        }
    }
    assert(r@.map_values(|l: String| l@) =~= summary_tail_of(*res));
    r
}

} // verus!
