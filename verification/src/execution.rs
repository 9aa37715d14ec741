//! Two-phase execution of a rename plan.
//!
//! Phase one moves every file that changes name to its temporary name; only
//! when all of them are there does phase two move each temporary name to its
//! final name, refusing to replace anything. A failure (or cancellation) in
//! phase one moves every file already moved back to its original name. A
//! final rename that fails moves that file back; after a cancellation or any
//! error, every temporary file still present is moved back.
//!
//! The machine decides; the caller performs each rename it asks for and
//! reports the result.

use vstd::prelude::*;
use std::path::PathBuf;
use crate::rename_planner::RenamePlan;
use crate::error::FileError;
use crate::paths::{join_name, joined, shown};
use crate::text::{push_str, push_all, decimal, decimal_chars};

verus! {

#[derive(Debug, PartialEq, Eq)]
pub enum ExecPhase {
    /// Moving files to their temporary names.
    ToTemp,
    /// Moving files back from their temporary names after phase one failed.
    Rollback,
    /// Moving files from their temporary names to their final names.
    ToFinal,
    /// Moving back a file whose final rename failed.
    Restore,
    /// Moving back every temporary file still present.
    Cleanup,
    Finished,
}

#[derive(Debug, PartialEq, Eq)]
pub enum ExecErrorKind {
    /// A file could not be moved to its temporary name.
    TempFailed,
    /// A file could not be moved back from its temporary name.
    RollbackFailed,
    /// The final name was taken: nothing was replaced.
    FinalTaken,
    /// The final rename failed otherwise.
    FinalFailed,
}

/// A rename to perform, by position of the operation in the plan.
#[derive(Debug, PartialEq, Eq)]
pub enum ExecAction {
    /// Original name to temporary name (retrying on transient errors).
    ToTemp(usize),
    /// Temporary name back to original name, without replacing.
    Rollback(usize),
    /// Temporary name to final name, without replacing.
    ToFinal(usize),
    /// Temporary name back to original name, without replacing.
    Restore(usize),
    /// If the temporary file still exists: back to its original name,
    /// without replacing.
    RestoreIfPresent(usize),
    Finished,
}

/// The result of one rename.
pub enum RenameResult {
    Done,
    /// Only for `RestoreIfPresent`: the temporary file was not there.
    Absent,
    Failed { already_exists: bool, detail: String },
}

#[verifier::ext_equal]
pub struct ExecView {
    pub phase: ExecPhase,
    pub pos: int,
    pub pending: bool,
    /// Positions of the operations moved to their temporary names.
    pub tempped: Seq<int>,
    pub renamed: int,
    pub aborted: bool,
    pub errors: Seq<(int, ExecErrorKind, Seq<char>)>,
    /// Positions of the operations whose temporary file could not be moved back.
    pub unresolved: Seq<int>,
    /// Phase one failed and was rolled back.
    pub warned: bool,
    /// Operations considered by phase one.
    pub moved: int,
    /// Successful final renames.
    pub finals: int,
}

/// Number of operations below `k` whose file already has its final name.
pub open spec fn noop_count(noop: Seq<bool>, k: int) -> int
    decreases k,
{
    if k <= 0 {
        0
    } else {
        noop_count(noop, k - 1) + if noop[k - 1] { 1int } else { 0int }
    }
}

/// Positions below `k` of the operations that change a name, ascending.
pub open spec fn changing_upto(noop: Seq<bool>, k: int) -> Seq<int>
    decreases k,
{
    if k <= 0 {
        Seq::empty()
    } else {
        let p = changing_upto(noop, k - 1);
        if noop[k - 1] {
            p
        } else {
            p.push(k - 1)
        }
    }
}

pub open spec fn phase_rank(p: ExecPhase) -> int {
    match p {
        ExecPhase::ToTemp => 5,
        ExecPhase::ToFinal => 4,
        ExecPhase::Restore => 4,
        ExecPhase::Cleanup => 3,
        ExecPhase::Rollback => 2,
        ExecPhase::Finished => 0,
    }
}

pub open spec fn phase_limit(s: ExecView, n: int) -> int {
    if s.phase is Rollback {
        s.tempped.len() as int
    } else {
        n
    }
}

pub open spec fn remaining(s: ExecView, n: int) -> nat {
    if s.pos <= phase_limit(s, n) {
        (phase_limit(s, n) - s.pos) as nat
    } else {
        0
    }
}

/// Nothing is left to decide before the next rename (or the end).
pub open spec fn settled(s: ExecView) -> bool {
    s.pending || s.phase is Finished
}

/// One decision taken without a rename.
pub open spec fn settle_step(s: ExecView, noop: Seq<bool>, cancelled: bool) -> ExecView {
    let n = noop.len() as int;
    match s.phase {
        ExecPhase::ToTemp => if s.pos >= n {
            ExecView { phase: ExecPhase::ToFinal, pos: 0, ..s }
        } else if cancelled {
            ExecView { phase: ExecPhase::Rollback, pos: 0, aborted: true, ..s }
        } else if noop[s.pos] {
            ExecView { renamed: s.renamed + 1, pos: s.pos + 1, moved: s.pos + 1, ..s }
        } else {
            ExecView { pending: true, ..s }
        },
        ExecPhase::Rollback => if s.pos >= s.tempped.len() {
            ExecView { phase: ExecPhase::Finished, ..s }
        } else {
            ExecView { pending: true, ..s }
        },
        ExecPhase::ToFinal => if s.pos >= n {
            if cancelled || s.errors.len() > 0 {
                ExecView { phase: ExecPhase::Cleanup, pos: 0, ..s }
            } else {
                ExecView { phase: ExecPhase::Finished, ..s }
            }
        } else if noop[s.pos] {
            ExecView { pos: s.pos + 1, ..s }
        } else if cancelled {
            ExecView { phase: ExecPhase::Cleanup, pos: 0, ..s }
        } else {
            ExecView { pending: true, ..s }
        },
        ExecPhase::Restore => ExecView { pending: true, ..s },
        ExecPhase::Cleanup => if s.pos >= n {
            ExecView { phase: ExecPhase::Finished, ..s }
        } else if noop[s.pos] {
            ExecView { pos: s.pos + 1, ..s }
        } else {
            ExecView { pending: true, ..s }
        },
        ExecPhase::Finished => s,
    }
}

/// The decisions taken before the next rename, or the end.
pub open spec fn settle(s: ExecView, noop: Seq<bool>, cancelled: bool) -> ExecView
    decreases phase_rank(s.phase), remaining(s, noop.len() as int), if s.pending { 0int } else { 1int },
{
    if settled(s) || !(0 <= s.pos) {
        s
    } else {
        settle(settle_step(s, noop, cancelled), noop, cancelled)
    }
}

/// The rename that a settled state asks for.
pub open spec fn action_of(s: ExecView) -> ExecAction {
    match s.phase {
        ExecPhase::ToTemp => ExecAction::ToTemp(s.pos as usize),
        ExecPhase::Rollback => ExecAction::Rollback(s.tempped[s.pos] as usize),
        ExecPhase::ToFinal => ExecAction::ToFinal(s.pos as usize),
        ExecPhase::Restore => ExecAction::Restore(s.pos as usize),
        ExecPhase::Cleanup => ExecAction::RestoreIfPresent(s.pos as usize),
        ExecPhase::Finished => ExecAction::Finished,
    }
}

/// The state after the pending rename reported `ok` (done, or absent), or a
/// failure with `already` and `detail`.
pub open spec fn after_report(s: ExecView, ok: bool, already: bool, detail: Seq<char>) -> ExecView {
    let t = ExecView { pending: false, ..s };
    match s.phase {
        ExecPhase::ToTemp => if ok {
            ExecView { tempped: s.tempped.push(s.pos), pos: s.pos + 1, moved: s.pos + 1, ..t }
        } else {
            ExecView {
                errors: s.errors.push((s.pos, ExecErrorKind::TempFailed, detail)),
                warned: true,
                phase: ExecPhase::Rollback,
                pos: 0,
                aborted: true,
                ..t
            }
        },
        ExecPhase::Rollback => if ok {
            ExecView { pos: s.pos + 1, ..t }
        } else {
            ExecView {
                errors: s.errors.push((s.tempped[s.pos], ExecErrorKind::RollbackFailed, detail)),
                pos: s.pos + 1,
                ..t
            }
        },
        ExecPhase::ToFinal => if ok {
            ExecView { renamed: s.renamed + 1, finals: s.finals + 1, pos: s.pos + 1, ..t }
        } else {
            ExecView {
                errors: s.errors.push((
                    s.pos,
                    if already { ExecErrorKind::FinalTaken } else { ExecErrorKind::FinalFailed },
                    detail,
                )),
                phase: ExecPhase::Restore,
                ..t
            }
        },
        ExecPhase::Restore => if ok {
            ExecView { phase: ExecPhase::ToFinal, pos: s.pos + 1, ..t }
        } else {
            ExecView { unresolved: s.unresolved.push(s.pos), phase: ExecPhase::ToFinal, pos: s.pos + 1, ..t }
        },
        ExecPhase::Cleanup => if ok {
            ExecView { pos: s.pos + 1, ..t }
        } else {
            ExecView { unresolved: s.unresolved.push(s.pos), pos: s.pos + 1, ..t }
        },
        ExecPhase::Finished => s,
    }
}

/// What every state of an execution keeps.
///
/// Phase one has moved to their temporary names exactly the changing
/// operations it has passed. No final rename happens before phase one has
/// passed every operation without failure; an aborted execution renames
/// nothing to a final name. The count of renamed files is the number of
/// files already at their final name plus the successful final renames.
pub open spec fn exec_inv(s: ExecView, noop: Seq<bool>) -> bool {
    let n = noop.len() as int;
    &&& 0 <= s.pos
    &&& 0 <= s.moved <= n
    &&& 0 <= s.finals
    &&& s.tempped == changing_upto(noop, s.moved)
    &&& !(s.phase is Rollback) ==> s.pos <= n
    &&& s.phase is Rollback ==> s.pos <= s.tempped.len() && s.aborted
    &&& s.phase is Restore ==> s.pos < n && !noop[s.pos]
    &&& s.pending ==> !(s.phase is Finished) && s.pos < phase_limit(s, n)
    &&& forall|j: int| 0 <= j < s.errors.len() ==> 0 <= (#[trigger] s.errors[j]).0 < n
    &&& s.pending && (s.phase is ToTemp || s.phase is ToFinal || s.phase is Cleanup) ==> !noop[s.pos]
    &&& s.phase is ToTemp ==> {
        &&& s.moved == s.pos
        &&& !s.aborted
        &&& s.errors.len() == 0
        &&& s.finals == 0
        &&& s.renamed == noop_count(noop, s.pos)
    }
    &&& (s.phase is ToFinal || s.phase is Restore || s.phase is Cleanup || (s.phase is Finished && !s.aborted)) ==> {
        &&& s.moved == n
        &&& !s.aborted
        &&& s.renamed == noop_count(noop, n) + s.finals
        &&& s.finals <= n - noop_count(noop, n)
    }
    &&& (s.phase is ToFinal || s.phase is Restore) ==> s.finals <= s.pos - noop_count(noop, s.pos)
    &&& s.aborted ==> {
        &&& (s.phase is Rollback || s.phase is Finished)
        &&& s.finals == 0
        &&& s.renamed == noop_count(noop, s.moved)
    }
}

proof fn lemma_counts(noop: Seq<bool>, k: int)
    requires
        0 <= k <= noop.len(),
    ensures
        noop_count(noop, k) + changing_upto(noop, k).len() == k,
        0 <= noop_count(noop, k) <= k,
        forall|j: int| 0 <= j < changing_upto(noop, k).len() ==> {
            &&& 0 <= #[trigger] changing_upto(noop, k)[j] < k
            &&& !noop[changing_upto(noop, k)[j]]
        },
    decreases k,
{
    if k > 0 {
        lemma_counts(noop, k - 1);
    }
}

proof fn lemma_count_step(noop: Seq<bool>, k: int)
    requires
        0 <= k < noop.len(),
    ensures
        noop_count(noop, k + 1) == noop_count(noop, k) + if noop[k] { 1int } else { 0int },
        changing_upto(noop, k + 1) == if noop[k] { changing_upto(noop, k) } else { changing_upto(noop, k).push(k) },
{
}

proof fn lemma_count_mono(noop: Seq<bool>, a: int, b: int)
    requires
        0 <= a <= b <= noop.len(),
    ensures
        noop_count(noop, a) <= noop_count(noop, b),
        a - noop_count(noop, a) <= b - noop_count(noop, b),
    decreases b - a,
{
    if a < b {
        lemma_count_mono(noop, a, b - 1);
    }
}

proof fn lemma_step_keeps(s: ExecView, noop: Seq<bool>, cancelled: bool)
    requires
        exec_inv(s, noop),
        !settled(s),
    ensures
        exec_inv(settle_step(s, noop, cancelled), noop),
{
    let n = noop.len() as int;
    lemma_counts(noop, n);
    lemma_counts(noop, s.moved);
    if s.pos < n {
        lemma_count_step(noop, s.pos);
        lemma_counts(noop, s.pos);
        lemma_count_mono(noop, s.pos + 1, n);
    }
    let t = settle_step(s, noop, cancelled);
    match s.phase {
        ExecPhase::ToTemp => {
            if s.pos >= n {
                assert(exec_inv(t, noop));
            } else if cancelled {
                assert(exec_inv(t, noop));
            } else if noop[s.pos] {
                assert(exec_inv(t, noop));
            } else {
                assert(exec_inv(t, noop));
            }
        },
        ExecPhase::ToFinal => {
            if s.pos >= n {
                assert(exec_inv(t, noop));
            } else if noop[s.pos] {
                assert(exec_inv(t, noop));
            } else if cancelled {
                assert(exec_inv(t, noop));
            } else {
                assert(exec_inv(t, noop));
            }
        },
        ExecPhase::Cleanup => {
            assert(exec_inv(t, noop));
        },
        _ => {
            assert(exec_inv(t, noop));
        },
    }
}

proof fn lemma_settle_keeps(s: ExecView, noop: Seq<bool>, cancelled: bool)
    requires
        exec_inv(s, noop),
    ensures
        exec_inv(settle(s, noop, cancelled), noop),
        settled(settle(s, noop, cancelled)),
    decreases phase_rank(s.phase), remaining(s, noop.len() as int), if s.pending { 0int } else { 1int },
{
    if !settled(s) {
        lemma_step_keeps(s, noop, cancelled);
        lemma_settle_keeps(settle_step(s, noop, cancelled), noop, cancelled);
    }
}

proof fn lemma_report_keeps(s: ExecView, noop: Seq<bool>, ok: bool, already: bool, detail: Seq<char>)
    requires
        exec_inv(s, noop),
        s.pending,
    ensures
        exec_inv(after_report(s, ok, already, detail), noop),
{
    let n = noop.len() as int;
    lemma_counts(noop, n);
    lemma_counts(noop, s.moved);
    if s.pos < n {
        lemma_count_step(noop, s.pos);
        lemma_counts(noop, s.pos);
        lemma_count_mono(noop, s.pos + 1, n);
    }
}

pub proof fn lemma_step_keeps_pub(s: ExecView, noop: Seq<bool>, cancelled: bool)
    requires
        exec_inv(s, noop),
        !settled(s),
    ensures
        exec_inv(settle_step(s, noop, cancelled), noop),
{
    lemma_step_keeps(s, noop, cancelled);
}

pub proof fn lemma_report_keeps_pub(s: ExecView, noop: Seq<bool>, ok: bool, already: bool, detail: Seq<char>)
    requires
        exec_inv(s, noop),
        s.pending,
    ensures
        exec_inv(after_report(s, ok, already, detail), noop),
{
    lemma_report_keeps(s, noop, ok, already, detail);
}

pub proof fn lemma_count_step_pub(noop: Seq<bool>, k: int)
    requires
        0 <= k < noop.len(),
    ensures
        noop_count(noop, k + 1) == noop_count(noop, k) + if noop[k] { 1int } else { 0int },
{
}

/// The execution of one rename plan.
pub struct Execution {
    /// Per operation of the plan: the file already has its final name.
    pub noop: Vec<bool>,
    pub phase: ExecPhase,
    pub pos: usize,
    pub pending: bool,
    pub tempped: Vec<usize>,
    pub renamed: usize,
    pub aborted: bool,
    pub errors: Vec<(usize, ExecErrorKind, String)>,
    pub unresolved: Vec<usize>,
    pub warned: bool,
    pub moved: Ghost<int>,
    pub finals: Ghost<int>,
}

impl View for Execution {
    type V = ExecView;

    open spec fn view(&self) -> ExecView {
        ExecView {
            phase: self.phase,
            pos: self.pos as int,
            pending: self.pending,
            tempped: self.tempped@.map_values(|p: usize| p as int),
            renamed: self.renamed as int,
            aborted: self.aborted,
            errors: self.errors@.map_values(|e: (usize, ExecErrorKind, String)| (e.0 as int, e.1, e.2@)),
            unresolved: self.unresolved@.map_values(|p: usize| p as int),
            warned: self.warned,
            moved: self.moved@,
            finals: self.finals@,
        }
    }
}

/// Per operation of the plan: whether the file already has its final name.
pub open spec fn noop_flags(plan: RenamePlan) -> Seq<bool> {
    plan.ops@.map_values(|op: crate::rename_planner::RenameOp| op.is_noop)
}

impl Execution {
    pub open spec fn wf(&self) -> bool {
        exec_inv(self@, self.noop@)
    }

    /// The execution of `plan`, before anything is renamed.
    pub fn new(plan: &RenamePlan) -> (r: Self)
        ensures
            r.wf(),
            r.noop@ == noop_flags(*plan),
            r@ == (ExecView {
                phase: ExecPhase::ToTemp,
                pos: 0,
                pending: false,
                tempped: Seq::empty(),
                renamed: 0,
                aborted: false,
                errors: Seq::empty(),
                unresolved: Seq::empty(),
                warned: false,
                moved: 0,
                finals: 0,
            }),
    {
        let mut noop: Vec<bool> = Vec::new();
        let mut i: usize = 0;
        while i < plan.ops.len()
            invariant
                i <= plan.ops@.len(),
                noop@ == noop_flags(*plan).take(i as int),
            decreases plan.ops@.len() - i,
        {
            noop.push(plan.ops[i].is_noop);
            assert(noop_flags(*plan).take(i + 1) =~= noop_flags(*plan).take(i as int).push(plan.ops@[i as int].is_noop));
            i += 1;
        }
        assert(noop_flags(*plan).take(i as int) =~= noop_flags(*plan));
        let r = Execution {
            noop,
            phase: ExecPhase::ToTemp,
            pos: 0,
            pending: false,
            tempped: Vec::new(),
            renamed: 0,
            aborted: false,
            errors: Vec::new(),
            unresolved: Vec::new(),
            warned: false,
            moved: Ghost(0),
            finals: Ghost(0),
        };
        assert(r@.tempped =~= Seq::<int>::empty());
        assert(r@.errors =~= Seq::<(int, ExecErrorKind, Seq<char>)>::empty());
        assert(r@.unresolved =~= Seq::<int>::empty());
        r
    }

    /// Takes every decision up to the next rename, and names that rename
    /// (or `Finished`). `cancelled` says whether the run has been cancelled.
    pub fn next_action(&mut self, cancelled: bool) -> (r: ExecAction)
        requires
            old(self).wf(),
            !old(self).pending,
        ensures
            final(self).wf(),
            final(self).noop@ == old(self).noop@,
            final(self)@ == settle(old(self)@, old(self).noop@, cancelled),
            r == action_of(final(self)@),
    {
        let ghost target = settle(self@, self.noop@, cancelled);
        let ghost noop0 = self.noop@;
        let n = self.noop.len();
        proof {
            lemma_settle_keeps(self@, self.noop@, cancelled);
        }
        loop
            invariant
                self.wf(),
                n == self.noop@.len(),
                self.noop@ == noop0,
                settle(self@, self.noop@, cancelled) == target,
            ensures
                self.wf(),
                self.noop@ == noop0,
                settled(self@),
                settle(self@, self.noop@, cancelled) == target,
            decreases phase_rank(self@.phase), remaining(self@, n as int), if self.pending { 0int } else { 1int },
        {
            if self.pending {
                break;
            }
            if matches!(self.phase, ExecPhase::Finished) {
                break;
            }
            let ghost before = self@;
            proof {
                lemma_step_keeps(before, self.noop@, cancelled);
            }
            let _nt = self.tempped.len();
            match self.phase {
                ExecPhase::ToTemp => {
                    if self.pos >= n {
                        self.phase = ExecPhase::ToFinal;
                        self.pos = 0;
                    } else if cancelled {
                        self.phase = ExecPhase::Rollback;
                        self.pos = 0;
                        self.aborted = true;
                    } else if self.noop[self.pos] {
                        proof {
                            lemma_counts(self.noop@, self.pos as int);
                        }
                        self.renamed = self.renamed + 1;
                        self.pos = self.pos + 1;
                        proof {
                            self.moved = Ghost(self.pos as int);
                        }
                    } else {
                        self.pending = true;
                    }
                },
                ExecPhase::Rollback => {
                    if self.pos >= self.tempped.len() {
                        self.phase = ExecPhase::Finished;
                    } else {
                        self.pending = true;
                    }
                },
                ExecPhase::ToFinal => {
                    if self.pos >= n {
                        if cancelled || self.errors.len() > 0 {
                            self.phase = ExecPhase::Cleanup;
                            self.pos = 0;
                        } else {
                            self.phase = ExecPhase::Finished;
                        }
                    } else if self.noop[self.pos] {
                        self.pos = self.pos + 1;
                    } else if cancelled {
                        self.phase = ExecPhase::Cleanup;
                        self.pos = 0;
                    } else {
                        self.pending = true;
                    }
                },
                ExecPhase::Restore => {
                    self.pending = true;
                },
                ExecPhase::Cleanup => {
                    if self.pos >= n {
                        self.phase = ExecPhase::Finished;
                    } else if self.noop[self.pos] {
                        self.pos = self.pos + 1;
                    } else {
                        self.pending = true;
                    }
                },
                ExecPhase::Finished => {},
            }
            assert(self@ =~= settle_step(before, self.noop@, cancelled));
        }
        match self.phase {
            ExecPhase::ToTemp => ExecAction::ToTemp(self.pos),
            ExecPhase::Rollback => ExecAction::Rollback(self.tempped[self.pos]),
            ExecPhase::ToFinal => ExecAction::ToFinal(self.pos),
            ExecPhase::Restore => ExecAction::Restore(self.pos),
            ExecPhase::Cleanup => ExecAction::RestoreIfPresent(self.pos),
            ExecPhase::Finished => ExecAction::Finished,
        }
    }

    /// Records the result of the rename that `next_action` asked for.
    pub fn report(&mut self, result: RenameResult)
        requires
            old(self).wf(),
            old(self).pending,
            result is Absent ==> old(self).phase is Cleanup,
        ensures
            final(self).wf(),
            final(self).noop@ == old(self).noop@,
            final(self)@ == match result {
                RenameResult::Failed { already_exists, detail } => after_report(old(self)@, false, already_exists, detail@),
                _ => after_report(old(self)@, true, false, Seq::empty()),
            },
    {
        let ghost before = self@;
        let n = self.noop.len();
        let (ok, already, detail) = match result {
            RenameResult::Failed { already_exists, detail } => (false, already_exists, detail),
            _ => (true, false, String::new()),
        };
        proof {
            lemma_report_keeps(before, self.noop@, ok, already, detail@);
            lemma_counts(self.noop@, n as int);
            if self.pos < n {
                lemma_count_mono(self.noop@, self.pos + 1, n as int);
                lemma_count_step(self.noop@, self.pos as int);
            }
        }
        let _nt = self.tempped.len();
        self.pending = false;
        match self.phase {
            ExecPhase::ToTemp => {
                if ok {
                    self.tempped.push(self.pos);
                    self.pos = self.pos + 1;
                    proof {
                        self.moved = Ghost(self.pos as int);
                    }
                } else {
                    self.errors.push((self.pos, ExecErrorKind::TempFailed, detail));
                    self.warned = true;
                    self.phase = ExecPhase::Rollback;
                    self.pos = 0;
                    self.aborted = true;
                }
            },
            ExecPhase::Rollback => {
                if !ok {
                    let p = self.tempped[self.pos];
                    self.errors.push((p, ExecErrorKind::RollbackFailed, detail));
                }
                self.pos = self.pos + 1;
            },
            ExecPhase::ToFinal => {
                if ok {
                    self.renamed = self.renamed + 1;
                    self.pos = self.pos + 1;
                    proof {
                        self.finals = Ghost(self.finals@ + 1);
                    }
                } else {
                    let kind = if already { ExecErrorKind::FinalTaken } else { ExecErrorKind::FinalFailed };
                    self.errors.push((self.pos, kind, detail));
                    self.phase = ExecPhase::Restore;
                }
            },
            ExecPhase::Restore => {
                if !ok {
                    self.unresolved.push(self.pos);
                }
                self.phase = ExecPhase::ToFinal;
                self.pos = self.pos + 1;
            },
            ExecPhase::Cleanup => {
                if !ok {
                    self.unresolved.push(self.pos);
                }
                self.pos = self.pos + 1;
            },
            ExecPhase::Finished => {},
        }
        assert(self@ =~= after_report(before, ok, already, detail@));
    }
}

/// What an execution reports.
pub struct ExecOutcome {
    /// Files at their final names: those already there and those renamed.
    pub renamed: usize,
    /// Phase one failed or was cancelled, and was rolled back.
    pub aborted: bool,
    pub errors: Vec<FileError>,
}

/// The message of an execution error on an operation whose final name is
/// `final_name`.
pub open spec fn exec_message(kind: ExecErrorKind, detail: Seq<char>, final_name: Seq<char>) -> Seq<char> {
    match kind {
        ExecErrorKind::TempFailed => "无法重命名为临时名: "@ + detail,
        ExecErrorKind::RollbackFailed => "回滚临时改名失败: "@ + detail,
        ExecErrorKind::FinalTaken => "目标名 "@ + final_name + " 已存在,拒绝覆盖"@,
        ExecErrorKind::FinalFailed => "最终重命名失败: "@ + detail,
    }
}

/// The file an execution error is reported on: the temporary file for a
/// failed rollback, the file's original path otherwise.
pub open spec fn error_path(kind: ExecErrorKind, op: crate::rename_planner::RenameOp, dir: PathBuf) -> Seq<char> {
    match kind {
        ExecErrorKind::RollbackFailed => shown(joined(dir, op.temporary_name@)),
        _ => shown(op.original),
    }
}

pub const ROLLBACK_WARNING: &'static str = "重命名阶段遇到错误,已回滚全部临时改名";

pub open spec fn unresolved_warning(k: nat) -> Seq<char> {
    "有 "@ + decimal(k) + " 个临时文件未能还原,journal 已保留,下次运行时将自动恢复"@
}

impl Execution {
    /// The outcome: the count of renamed files, whether phase one was
    /// rolled back, and one error per failed rename.
    pub fn outcome(&self, plan: &RenamePlan, dir: &PathBuf) -> (r: ExecOutcome)
        requires
            self.wf(),
            self.noop@.len() == plan.ops@.len(),
        ensures
            r.renamed == self.renamed,
            r.aborted == self.aborted,
            r.errors@.len() == self@.errors.len(),
            forall|j: int| 0 <= j < r.errors@.len() ==> {
                &&& (#[trigger] r.errors@[j]).operation@ == "rename"@
                &&& r.errors@[j].message@ == exec_message(
                    self@.errors[j].1,
                    self@.errors[j].2,
                    plan.ops@[self@.errors[j].0].final_name@,
                )
                &&& r.errors@[j].path@ == error_path(self@.errors[j].1, plan.ops@[self@.errors[j].0], *dir)
            },
    {
        let mut errors: Vec<FileError> = Vec::new();
        let mut j: usize = 0;
        while j < self.errors.len()
            invariant
                self.wf(),
                self.noop@.len() == plan.ops@.len(),
                j <= self.errors@.len(),
                errors@.len() == j,
                forall|i: int| 0 <= i < errors@.len() ==> {
                    &&& (#[trigger] errors@[i]).operation@ == "rename"@
                    &&& errors@[i].message@ == exec_message(
                        self@.errors[i].1,
                        self@.errors[i].2,
                        plan.ops@[self@.errors[i].0].final_name@,
                    )
                    &&& errors@[i].path@ == error_path(self@.errors[i].1, plan.ops@[self@.errors[i].0], *dir)
                },
            decreases self.errors@.len() - j,
        {
            let (k, kind, detail) = &self.errors[j];
            assert(self@.errors[j as int].0 == *k as int);
            let op = &plan.ops[*k];
            let mut msg = String::new();
            let e = match kind {
                ExecErrorKind::TempFailed => {
                    push_str(&mut msg, "无法重命名为临时名: ");
                    push_str(&mut msg, detail.as_str());
                    FileError::new("rename", &op.original, msg)
                },
                ExecErrorKind::RollbackFailed => {
                    push_str(&mut msg, "回滚临时改名失败: ");
                    push_str(&mut msg, detail.as_str());
                    let temp = join_name(dir, op.temporary_name.as_str());
                    FileError::new("rename", &temp, msg)
                },
                ExecErrorKind::FinalTaken => {
                    push_str(&mut msg, "目标名 ");
                    push_str(&mut msg, op.final_name.as_str());
                    push_str(&mut msg, " 已存在,拒绝覆盖");
                    FileError::new("rename", &op.original, msg)
                },
                ExecErrorKind::FinalFailed => {
                    push_str(&mut msg, "最终重命名失败: ");
                    push_str(&mut msg, detail.as_str());
                    FileError::new("rename", &op.original, msg)
                },
            };
            errors.push(e);
            j += 1;
        }
        ExecOutcome { renamed: self.renamed, aborted: self.aborted, errors }
    }

    /// The warnings to show: that phase one was rolled back, and how many
    /// temporary files could not be moved back (their journal is kept).
    pub fn warnings(&self) -> (r: Vec<String>)
        ensures
            r@.len() == (if self.warned { 1int } else { 0int }) + (if self.unresolved@.len() > 0 { 1int } else { 0int }),
            self.warned ==> r@[0]@ == ROLLBACK_WARNING@,
            self.unresolved@.len() > 0 ==> r@[r@.len() - 1]@ == unresolved_warning(self.unresolved@.len()),
    {
        let mut r: Vec<String> = Vec::new();
        if self.warned {
            r.push(ROLLBACK_WARNING.to_string());
        }
        if self.unresolved.len() > 0 {
            let mut w = String::new();
            push_str(&mut w, "有 ");
            let d = decimal_chars(self.unresolved.len() as u64);
            push_all(&mut w, &d);
            push_str(&mut w, " 个临时文件未能还原,journal 已保留,下次运行时将自动恢复");
            r.push(w);
        }
        r
    }
}

} // verus!
