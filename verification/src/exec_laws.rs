//! Laws of the two-phase execution, over runs of the machine.

use vstd::prelude::*;
use crate::execution::{
    ExecView, ExecPhase, ExecAction, settle, settle_step, settled, after_report, exec_inv, noop_count, changing_upto,
    phase_rank, remaining, action_of,
};

verus! {

/// The state of an execution before anything is renamed.
pub open spec fn initial_exec() -> ExecView {
    ExecView {
        phase: ExecPhase::ToTemp,
        pos: 0,
        pending: false,
        tempped: Seq::empty(),
        renamed: 0,
        aborted: false,
        errors: Seq::empty(),
        unresolved: Seq::empty(),
        warned: false,
        moved: 0,
        finals: 0,
    }
}

/// The execution with every rename succeeding and no cancellation, taking
/// at most `fuel` renames.
pub open spec fn run_all_ok(s: ExecView, noop: Seq<bool>, fuel: nat) -> ExecView
    decreases fuel,
{
    let t = settle(s, noop, false);
    if fuel == 0 || t.phase is Finished {
        t
    } else {
        run_all_ok(after_report(t, true, false, Seq::empty()), noop, (fuel - 1) as nat)
    }
}

/// Operations below `k` that change a name.
pub open spec fn changing(noop: Seq<bool>, k: int) -> int {
    k - noop_count(noop, k)
}

/// A state of a run in which nothing has failed.
pub open spec fn clean(s: ExecView, noop: Seq<bool>) -> bool {
    &&& exec_inv(s, noop)
    &&& !s.aborted
    &&& s.errors.len() == 0
    &&& s.unresolved.len() == 0
    &&& (s.phase is ToTemp || s.phase is ToFinal || s.phase is Finished)
    &&& s.phase is ToFinal ==> s.finals == changing(noop, s.pos)
    &&& s.phase is Finished ==> s.finals == changing(noop, noop.len() as int)
}

/// Renames still to come in a clean run.
pub open spec fn renames_left(s: ExecView, noop: Seq<bool>) -> int {
    let n = noop.len() as int;
    match s.phase {
        ExecPhase::ToTemp => 2 * changing(noop, n) - changing(noop, s.pos),
        ExecPhase::ToFinal => changing(noop, n) - changing(noop, s.pos),
        _ => 0,
    }
}

proof fn lemma_changing_bounds(noop: Seq<bool>, a: int, b: int)
    requires
        0 <= a <= b <= noop.len(),
    ensures
        0 <= changing(noop, a) <= changing(noop, b),
        changing(noop, b) - changing(noop, a) <= b - a,
    decreases b - a,
{
    if a < b {
        lemma_changing_bounds(noop, a, b - 1);
    } else {
        lemma_changing_zero_based(noop, a);
    }
}

proof fn lemma_changing_zero_based(noop: Seq<bool>, a: int)
    requires
        0 <= a <= noop.len(),
    ensures
        0 <= changing(noop, a),
    decreases a,
{
    if a > 0 {
        lemma_changing_zero_based(noop, a - 1);
    }
}

proof fn lemma_settle_clean(s: ExecView, noop: Seq<bool>)
    requires
        clean(s, noop),
    ensures
        clean(settle(s, noop, false), noop),
        renames_left(settle(s, noop, false), noop) == renames_left(s, noop),
        settled(settle(s, noop, false)),
        settle(s, noop, false).pending ==> !(settle(s, noop, false).phase is Finished),
    decreases phase_rank(s.phase), remaining(s, noop.len() as int), if s.pending { 0int } else { 1int },
{
    let n = noop.len() as int;
    if !settled(s) {
        let t = settle_step(s, noop, false);
        crate::execution::lemma_step_keeps_pub(s, noop, false);
        if s.phase is ToTemp && s.pos >= n {
            assert(s.pos == n);
            assert(changing(noop, 0) == 0);
        }
        lemma_settle_clean(t, noop);
    }
}

proof fn lemma_report_clean(s: ExecView, noop: Seq<bool>)
    requires
        clean(s, noop),
        s.pending,
    ensures
        clean(after_report(s, true, false, Seq::empty()), noop),
        renames_left(after_report(s, true, false, Seq::empty()), noop) == renames_left(s, noop) - 1,
        renames_left(s, noop) >= 1,
{
    let n = noop.len() as int;
    crate::execution::lemma_report_keeps_pub(s, noop, true, false, Seq::empty());
    crate::execution::lemma_count_step_pub(noop, s.pos);
    lemma_changing_bounds(noop, s.pos + 1, n);
    lemma_changing_bounds(noop, 0, s.pos);
}

proof fn lemma_run_clean(s: ExecView, noop: Seq<bool>, fuel: nat)
    requires
        clean(s, noop),
        fuel >= renames_left(s, noop),
    ensures
        clean(run_all_ok(s, noop, fuel), noop),
        run_all_ok(s, noop, fuel).phase is Finished,
    decreases fuel,
{
    let t = settle(s, noop, false);
    lemma_settle_clean(s, noop);
    if !(t.phase is Finished) {
        lemma_report_clean(t, noop);
        lemma_run_clean(after_report(t, true, false, Seq::empty()), noop, (fuel - 1) as nat);
    }
}

/// When every rename succeeds and the run is not cancelled, the execution
/// ends with every file at its final name: nothing aborted, no error, no
/// temporary file left, and the count of renamed files is the number of
/// operations. It takes at most two renames per operation.
pub proof fn law_all_renames_succeed(noop: Seq<bool>)
    ensures
        ({
            let r = run_all_ok(initial_exec(), noop, 2 * noop.len());
            &&& r.phase is Finished
            &&& !r.aborted
            &&& r.errors.len() == 0
            &&& r.unresolved.len() == 0
            &&& r.renamed == noop.len()
        }),
{
    let n = noop.len() as int;
    let s = initial_exec();
    assert(s.tempped == changing_upto(noop, 0));
    assert(noop_count(noop, 0) == 0);
    lemma_changing_bounds(noop, 0, n);
    assert(clean(s, noop));
    lemma_run_clean(s, noop, (2 * n) as nat);
}

/// The renames that the execution asks for from `s`, when the `k`-th of
/// them reports success exactly when `oks[k]`, and the state it then
/// reaches.
pub open spec fn run_trace(s: ExecView, noop: Seq<bool>, cancelled: bool, oks: Seq<bool>) -> (Seq<ExecAction>, ExecView)
    decreases oks.len(),
{
    let t = settle(s, noop, cancelled);
    if t.phase is Finished || oks.len() == 0 {
        (Seq::empty(), t)
    } else {
        let rest = run_trace(after_report(t, oks[0], false, Seq::empty()), noop, cancelled, oks.drop_first());
        (seq![action_of(t)] + rest.0, rest.1)
    }
}

/// Once phase one has failed or been cancelled, the execution moves back
/// every file it had moved to a temporary name, in the order they were
/// moved, whether or not each of those renames succeeds; then it ends,
/// aborted, without any final rename.
pub proof fn law_rollback_moves_back_all(s: ExecView, noop: Seq<bool>, cancelled: bool, oks: Seq<bool>)
    requires
        exec_inv(s, noop),
        s.phase is Rollback,
        !s.pending,
        oks.len() == s.tempped.len() - s.pos,
    ensures
        run_trace(s, noop, cancelled, oks).0 == s.tempped.subrange(s.pos, s.tempped.len() as int).map_values(
            |t: int| ExecAction::Rollback(t as usize),
        ),
        run_trace(s, noop, cancelled, oks).1.phase is Finished,
        run_trace(s, noop, cancelled, oks).1.aborted,
        run_trace(s, noop, cancelled, oks).1.finals == 0,
    decreases oks.len(),
{
    let t = settle(s, noop, cancelled);
    assert(settle_step(s, noop, cancelled) == if s.pos >= s.tempped.len() {
        ExecView { phase: ExecPhase::Finished, ..s }
    } else {
        ExecView { pending: true, ..s }
    });
    if s.pos < s.tempped.len() {
        let u = settle_step(s, noop, cancelled);
        assert(settled(u));
        assert(settle(u, noop, cancelled) == u);
        assert(t == u);
        let v = after_report(t, oks[0], false, Seq::empty());
        crate::execution::lemma_report_keeps_pub(t, noop, oks[0], false, Seq::empty());
        law_rollback_moves_back_all(v, noop, cancelled, oks.drop_first());
        assert(s.tempped.subrange(s.pos, s.tempped.len() as int).map_values(|t: int| ExecAction::Rollback(t as usize))
            =~= seq![action_of(t)] + v.tempped.subrange(v.pos, v.tempped.len() as int).map_values(
                |t: int| ExecAction::Rollback(t as usize),
            ));
    } else {
        let u = settle_step(s, noop, cancelled);
        assert(settled(u));
        assert(settle(u, noop, cancelled) == u);
        assert(t == u);
        assert(s.tempped.subrange(s.pos, s.tempped.len() as int).map_values(|t: int| ExecAction::Rollback(t as usize))
            =~= Seq::<ExecAction>::empty());
    }
}

/// The positions from `p` on of the operations that change a name, ascending.
pub open spec fn changing_from(noop: Seq<bool>, p: int) -> Seq<int>
    decreases noop.len() - p,
{
    if p < 0 || p >= noop.len() {
        Seq::empty()
    } else if noop[p] {
        changing_from(noop, p + 1)
    } else {
        seq![p] + changing_from(noop, p + 1)
    }
}

proof fn lemma_cleanup_restores(s: ExecView, noop: Seq<bool>, oks: Seq<bool>)
    requires
        s.phase is Cleanup,
        !s.pending,
        0 <= s.pos <= noop.len(),
        oks.len() == changing_from(noop, s.pos).len(),
    ensures
        run_trace(s, noop, true, oks).0 == changing_from(noop, s.pos).map_values(
            |k: int| ExecAction::RestoreIfPresent(k as usize),
        ),
        run_trace(s, noop, true, oks).1.phase is Finished,
    decreases noop.len() - s.pos,
{
    let n = noop.len() as int;
    let u = settle_step(s, noop, true);
    assert(settle(s, noop, true) == settle(u, noop, true));
    if s.pos >= n {
        assert(u.phase is Finished);
        assert(settle(u, noop, true) == u);
        assert(changing_from(noop, s.pos).map_values(|k: int| ExecAction::RestoreIfPresent(k as usize))
            =~= Seq::<ExecAction>::empty());
    } else if noop[s.pos] {
        assert(u == ExecView { pos: s.pos + 1, ..s });
        lemma_cleanup_restores(u, noop, oks);
        assert(run_trace(s, noop, true, oks) == run_trace(u, noop, true, oks));
    } else {
        assert(u == ExecView { pending: true, ..s });
        assert(settled(u));
        assert(settle(u, noop, true) == u);
        let t = u;
        let v = after_report(t, oks[0], false, Seq::empty());
        assert(v.phase is Cleanup && !v.pending && v.pos == s.pos + 1);
        lemma_cleanup_restores(v, noop, oks.drop_first());
        assert(action_of(t) == ExecAction::RestoreIfPresent(s.pos as usize));
        assert(changing_from(noop, s.pos).map_values(|k: int| ExecAction::RestoreIfPresent(k as usize))
            =~= seq![action_of(t)] + changing_from(noop, s.pos + 1).map_values(
                |k: int| ExecAction::RestoreIfPresent(k as usize),
            ));
    }
}

proof fn lemma_final_cancel_settles(s: ExecView, noop: Seq<bool>)
    requires
        s.phase is ToFinal,
        !s.pending,
        0 <= s.pos <= noop.len(),
    ensures
        settle(s, noop, true) == settle(ExecView { phase: ExecPhase::Cleanup, pos: 0, ..s }, noop, true),
    decreases noop.len() - s.pos,
{
    let n = noop.len() as int;
    let u = settle_step(s, noop, true);
    assert(settle(s, noop, true) == settle(u, noop, true));
    if s.pos < n && noop[s.pos] {
        lemma_final_cancel_settles(u, noop);
        assert(ExecView { phase: ExecPhase::Cleanup, pos: 0, ..u } == ExecView { phase: ExecPhase::Cleanup, pos: 0, ..s });
    } else {
        assert(u == ExecView { phase: ExecPhase::Cleanup, pos: 0, ..s });
    }
}

/// A run cancelled once phase one is over (during the final renames) ends
/// only after asking to move back, one after the other, every operation
/// that changes a name: each temporary file still present goes back to its
/// original name, whether or not each of those renames succeeds. No run
/// ends leaving a temporary file it did not try to move back.
pub proof fn law_cancel_in_phase_two_restores_every_temp(s: ExecView, noop: Seq<bool>, oks: Seq<bool>)
    requires
        s.phase is ToFinal,
        !s.pending,
        0 <= s.pos <= noop.len(),
        oks.len() == changing_from(noop, 0).len(),
    ensures
        run_trace(s, noop, true, oks).0 == changing_from(noop, 0).map_values(
            |k: int| ExecAction::RestoreIfPresent(k as usize),
        ),
        run_trace(s, noop, true, oks).1.phase is Finished,
{
    let c = ExecView { phase: ExecPhase::Cleanup, pos: 0, ..s };
    lemma_final_cancel_settles(s, noop);
    lemma_cleanup_restores(c, noop, oks);
    assert(run_trace(s, noop, true, oks) == run_trace(c, noop, true, oks));
}

} // verus!
