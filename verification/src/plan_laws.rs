//! Laws of rename planning: every file is either renamed or left alone (never
//! both), each rename is the one its position calls for, no rename overwrites
//! an untouchable name, and final and temporary names never coincide.

use vstd::prelude::*;
use crate::models::FileEntryView;
use crate::text::{decimal, zero_padded, lemma_decimal_digits, lemma_decimal_len_mono, lemma_zero_padded_injective, lemma_decimal_injective};
use crate::rename_planner::{
    OpSpec, BlockedSpec, PlanState, op_for, first_pass, cascade, first_conflict_from, slot_conflicts, somes,
    plan_state, name_conflicts, width_for, numbered_name, temp_name, count_some, lemma_count_some_clear,
};

verus! {

/// The names of the files left alone.
pub open spec fn blocked_names(b: Seq<BlockedSpec>) -> Set<Seq<char>> {
    Set::new(|n: Seq<char>| exists|j: int| 0 <= j < b.len() && (#[trigger] b[j]).original_name == n)
}

/// Some operation renames file `k`.
pub open spec fn has_op_for(ops: Seq<OpSpec>, k: int) -> bool {
    exists|j: int| 0 <= j < ops.len() && (#[trigger] ops[j]).entry_index == k
}

/// File `k` is left alone.
pub open spec fn has_blocked_for(b: Seq<BlockedSpec>, k: int) -> bool {
    exists|j: int| 0 <= j < b.len() && (#[trigger] b[j]).entry_index == k
}

/// What planning keeps true after looking at the first `i` files.
pub open spec fn state_inv(
    st: PlanState,
    es: Seq<FileEntryView>,
    base: Set<Seq<char>>,
    width: nat,
    pid: nat,
    token: Seq<char>,
    i: nat,
) -> bool {
    &&& st.slots.len() == i
    &&& i <= es.len()
    &&& forall|k: int| 0 <= k < i && (#[trigger] st.slots[k]) is Some ==> st.slots[k] == Some(op_for(es, k, width, pid, token))
    &&& forall|j: int|
        0 <= j < st.blocked.len() ==> {
            &&& 0 <= (#[trigger] st.blocked[j]).entry_index < i
            &&& st.slots[st.blocked[j].entry_index] is None
            &&& st.blocked[j].original_name == es[st.blocked[j].entry_index].file_name
        }
    &&& forall|k: int| 0 <= k < i && (#[trigger] st.slots[k]) is None ==> exists|j: int| 0 <= j < st.blocked.len() && st.blocked[j].entry_index == k
    &&& forall|j1: int, j2: int|
        0 <= j1 < st.blocked.len() && 0 <= j2 < st.blocked.len() && j1 != j2 ==> (#[trigger] st.blocked[j1]).entry_index
            != (#[trigger] st.blocked[j2]).entry_index
    &&& st.occupied == base.union(blocked_names(st.blocked))
}

proof fn lemma_first_pass_inv(
    es: Seq<FileEntryView>,
    base: Set<Seq<char>>,
    cs: bool,
    width: nat,
    pid: nat,
    token: Seq<char>,
    i: nat,
)
    requires
        i <= es.len(),
    ensures
        state_inv(first_pass(es, base, cs, width, pid, token, i), es, base, width, pid, token, i),
    decreases i,
{
    let st = first_pass(es, base, cs, width, pid, token, i);
    if i == 0 {
        assert(blocked_names(st.blocked) =~= Set::empty());
        assert(st.occupied =~= base.union(blocked_names(st.blocked)));
    } else {
        let p = first_pass(es, base, cs, width, pid, token, (i - 1) as nat);
        lemma_first_pass_inv(es, base, cs, width, pid, token, (i - 1) as nat);
        let k = i - 1;
        let op = op_for(es, k, width, pid, token);
        if name_conflicts(p.occupied, cs, op.final_name) {
            let b = BlockedSpec { entry_index: k, original_name: es[k].file_name, reason: crate::rename_planner::reason_occupied(op.final_name) };
            assert(st.blocked == p.blocked.push(b));
            assert forall|k2: int| 0 <= k2 < i && (#[trigger] st.slots[k2]) is None implies exists|j: int| 0 <= j < st.blocked.len() && st.blocked[j].entry_index == k2 by {
                if k2 == k {
                    assert(st.blocked[p.blocked.len() as int].entry_index == k2);
                } else {
                    assert(p.slots[k2] is None);
                    let j = choose|j: int| 0 <= j < p.blocked.len() && p.blocked[j].entry_index == k2;
                    assert(st.blocked[j].entry_index == k2);
                }
            }
            assert forall|j: int| 0 <= j < st.blocked.len() implies {
                &&& 0 <= (#[trigger] st.blocked[j]).entry_index < i
                &&& st.slots[st.blocked[j].entry_index] is None
                &&& st.blocked[j].original_name == es[st.blocked[j].entry_index].file_name
            } by {
                if j < p.blocked.len() {
                    assert(st.blocked[j] == p.blocked[j]);
                    assert(st.slots[p.blocked[j].entry_index] == p.slots[p.blocked[j].entry_index]);
                }
            }
            assert(blocked_names(st.blocked) =~= blocked_names(p.blocked).insert(es[k].file_name)) by {
                assert forall|n: Seq<char>| blocked_names(st.blocked).contains(n) implies blocked_names(p.blocked).insert(es[k].file_name).contains(n) by {
                    let j = choose|j: int| 0 <= j < st.blocked.len() && (#[trigger] st.blocked[j]).original_name == n;
                    if j < p.blocked.len() {
                        assert(p.blocked[j].original_name == n);
                    }
                }
                assert forall|n: Seq<char>| blocked_names(p.blocked).insert(es[k].file_name).contains(n) implies blocked_names(st.blocked).contains(n) by {
                    if n == es[k].file_name {
                        assert(st.blocked[p.blocked.len() as int].original_name == n);
                    } else {
                        let j = choose|j: int| 0 <= j < p.blocked.len() && (#[trigger] p.blocked[j]).original_name == n;
                        assert(st.blocked[j].original_name == n);
                    }
                }
            }
            assert(st.occupied =~= base.union(blocked_names(st.blocked)));
        } else {
            assert forall|k2: int| 0 <= k2 < i && (#[trigger] st.slots[k2]) is None implies exists|j: int| 0 <= j < st.blocked.len() && st.blocked[j].entry_index == k2 by {
                assert(p.slots[k2] is None);
            }
            assert forall|j: int| 0 <= j < st.blocked.len() implies {
                &&& 0 <= (#[trigger] st.blocked[j]).entry_index < i
                &&& st.slots[st.blocked[j].entry_index] is None
                &&& st.blocked[j].original_name == es[st.blocked[j].entry_index].file_name
            } by {
                assert(st.slots[p.blocked[j].entry_index] == p.slots[p.blocked[j].entry_index]);
            }
        }
    }
}

proof fn lemma_cascade_inv(
    st: PlanState,
    es: Seq<FileEntryView>,
    base: Set<Seq<char>>,
    cs: bool,
    width: nat,
    pid: nat,
    token: Seq<char>,
)
    requires
        state_inv(st, es, base, width, pid, token, es.len()),
    ensures
        state_inv(cascade(st, cs), es, base, width, pid, token, es.len()),
        forall|k: int| 0 <= k < cascade(st, cs).slots.len() ==> !slot_conflicts(#[trigger] cascade(st, cs).slots[k], cascade(st, cs).occupied, cs),
    decreases count_some(st.slots),
{
    let i = first_conflict_from(st.slots, st.occupied, cs, 0);
    crate::rename_planner::lemma_first_conflict(st.slots, st.occupied, cs, 0);
    if i < 0 || i >= st.slots.len() || st.slots[i] is None {
    } else {
        let op = st.slots[i]->Some_0;
        lemma_count_some_clear(st.slots, i);
        let b = BlockedSpec { entry_index: op.entry_index, original_name: op.original_name, reason: crate::rename_planner::reason_cascade(op.final_name) };
        let nx = PlanState { slots: st.slots.update(i, None), blocked: st.blocked.push(b), occupied: st.occupied.insert(op.original_name) };
        assert(op == op_for(es, i, width, pid, token));
        assert forall|k2: int| 0 <= k2 < es.len() && (#[trigger] nx.slots[k2]) is None implies exists|j: int| 0 <= j < nx.blocked.len() && nx.blocked[j].entry_index == k2 by {
            if k2 == i {
                assert(nx.blocked[st.blocked.len() as int].entry_index == k2);
            } else {
                assert(st.slots[k2] is None);
                let j = choose|j: int| 0 <= j < st.blocked.len() && st.blocked[j].entry_index == k2;
                assert(nx.blocked[j].entry_index == k2);
            }
        }
        assert forall|j: int| 0 <= j < nx.blocked.len() implies {
            &&& 0 <= (#[trigger] nx.blocked[j]).entry_index < es.len()
            &&& nx.slots[nx.blocked[j].entry_index] is None
            &&& nx.blocked[j].original_name == es[nx.blocked[j].entry_index].file_name
        } by {
            if j < st.blocked.len() {
                assert(nx.blocked[j] == st.blocked[j]);
            }
        }
        assert forall|j1: int, j2: int|
            0 <= j1 < nx.blocked.len() && 0 <= j2 < nx.blocked.len() && j1 != j2 implies (#[trigger] nx.blocked[j1]).entry_index
                != (#[trigger] nx.blocked[j2]).entry_index by {
            if j1 == st.blocked.len() {
                assert(nx.blocked[j2] == st.blocked[j2]);
            } else if j2 == st.blocked.len() {
                assert(nx.blocked[j1] == st.blocked[j1]);
            } else {
                assert(nx.blocked[j1] == st.blocked[j1]);
                assert(nx.blocked[j2] == st.blocked[j2]);
            }
        }
        assert(blocked_names(nx.blocked) =~= blocked_names(st.blocked).insert(op.original_name)) by {
            assert forall|n: Seq<char>| blocked_names(nx.blocked).contains(n) implies blocked_names(st.blocked).insert(op.original_name).contains(n) by {
                let j = choose|j: int| 0 <= j < nx.blocked.len() && (#[trigger] nx.blocked[j]).original_name == n;
                if j < st.blocked.len() {
                    assert(st.blocked[j].original_name == n);
                }
            }
            assert forall|n: Seq<char>| blocked_names(st.blocked).insert(op.original_name).contains(n) implies blocked_names(nx.blocked).contains(n) by {
                if n == op.original_name {
                    assert(nx.blocked[st.blocked.len() as int].original_name == n);
                } else {
                    let j = choose|j: int| 0 <= j < st.blocked.len() && (#[trigger] st.blocked[j]).original_name == n;
                    assert(nx.blocked[j].original_name == n);
                }
            }
        }
        assert(nx.occupied =~= base.union(blocked_names(nx.blocked)));
        assert(state_inv(nx, es, base, width, pid, token, es.len()));
        lemma_cascade_inv(nx, es, base, cs, width, pid, token);
    }
}

/// The final state of planning keeps the invariant and has no clashing rename.
proof fn lemma_plan_state(es: Seq<FileEntryView>, base: Set<Seq<char>>, cs: bool, pid: nat, token: Seq<char>)
    ensures
        state_inv(plan_state(es, base, cs, pid, token), es, base, width_for(es.len()), pid, token, es.len()),
        forall|k: int|
            0 <= k < plan_state(es, base, cs, pid, token).slots.len() ==> !slot_conflicts(
                #[trigger] plan_state(es, base, cs, pid, token).slots[k],
                plan_state(es, base, cs, pid, token).occupied,
                cs,
            ),
{
    let w = width_for(es.len());
    lemma_first_pass_inv(es, base, cs, w, pid, token, es.len());
    lemma_cascade_inv(first_pass(es, base, cs, w, pid, token, es.len()), es, base, cs, w, pid, token);
}

/// The operations of the occupied slots, in slot order.
proof fn lemma_somes(slots: Seq<Option<OpSpec>>)
    ensures
        forall|j: int| 0 <= j < somes(slots).len() ==> exists|k: int| 0 <= k < slots.len() && slots[k] == Some(#[trigger] somes(slots)[j]),
        forall|k: int| 0 <= k < slots.len() && (#[trigger] slots[k]) is Some ==> somes(slots).contains(slots[k]->Some_0),
    decreases slots.len(),
{
    if slots.len() > 0 {
        let pre = slots.drop_last();
        lemma_somes(pre);
        let s = somes(slots);
        assert forall|j: int| 0 <= j < s.len() implies exists|k: int| 0 <= k < slots.len() && slots[k] == Some(#[trigger] s[j]) by {
            if j < somes(pre).len() {
                assert(s[j] == somes(pre)[j]);
                let k = choose|k: int| 0 <= k < pre.len() && pre[k] == Some(somes(pre)[j]);
                assert(slots[k] == pre[k]);
            } else {
                assert(slots[slots.len() - 1] == Some(s[j]));
            }
        }
        assert forall|k: int| 0 <= k < slots.len() && (#[trigger] slots[k]) is Some implies somes(slots).contains(slots[k]->Some_0) by {
            if k < pre.len() {
                assert(pre[k] == slots[k]);
                let j = choose|j: int| 0 <= j < somes(pre).len() && somes(pre)[j] == pre[k]->Some_0;
                assert(s[j] == somes(pre)[j]);
            } else {
                assert(s[s.len() - 1] == slots[k]->Some_0);
            }
        }
    }
}

proof fn lemma_somes_ordered(slots: Seq<Option<OpSpec>>)
    requires
        forall|k: int| 0 <= k < slots.len() && (#[trigger] slots[k]) is Some ==> slots[k]->Some_0.entry_index == k,
    ensures
        forall|j1: int, j2: int|
            0 <= j1 < j2 < somes(slots).len() ==> (#[trigger] somes(slots)[j1]).entry_index < (#[trigger] somes(slots)[j2]).entry_index,
        forall|j: int| 0 <= j < somes(slots).len() ==> 0 <= (#[trigger] somes(slots)[j]).entry_index < slots.len(),
    decreases slots.len(),
{
    if slots.len() > 0 {
        let pre = slots.drop_last();
        assert forall|k: int| 0 <= k < pre.len() && (#[trigger] pre[k]) is Some implies pre[k]->Some_0.entry_index == k by {
            assert(pre[k] == slots[k]);
        }
        lemma_somes_ordered(pre);
        let s = somes(slots);
        match slots.last() {
            Some(op) => {
                assert(s == somes(pre).push(op));
                assert(op.entry_index == slots.len() - 1);
            },
            None => {},
        }
    }
}

/// Every file of the plan is either renamed (an operation) or left alone (a
/// blocked entry), never both, and each is listed once; operations follow the
/// files' order.
pub proof fn law_plan_partitions_files(es: Seq<FileEntryView>, base: Set<Seq<char>>, cs: bool, pid: nat, token: Seq<char>)
    ensures
        ({
            let st = plan_state(es, base, cs, pid, token);
            let ops = somes(st.slots);
            &&& forall|k: int| 0 <= k < es.len() ==> (#[trigger] has_op_for(ops, k) <==> !has_blocked_for(st.blocked, k))
            &&& forall|j1: int, j2: int| 0 <= j1 < j2 < ops.len() ==> (#[trigger] ops[j1]).entry_index < (#[trigger] ops[j2]).entry_index
            &&& forall|j1: int, j2: int|
                0 <= j1 < st.blocked.len() && 0 <= j2 < st.blocked.len() && j1 != j2 ==> (#[trigger] st.blocked[j1]).entry_index
                    != (#[trigger] st.blocked[j2]).entry_index
            &&& forall|j: int| 0 <= j < ops.len() ==> 0 <= (#[trigger] ops[j]).entry_index < es.len()
            &&& forall|j: int| 0 <= j < st.blocked.len() ==> 0 <= (#[trigger] st.blocked[j]).entry_index < es.len()
        }),
{
    let st = plan_state(es, base, cs, pid, token);
    let w = width_for(es.len());
    lemma_plan_state(es, base, cs, pid, token);
    lemma_somes(st.slots);
    assert forall|k: int| 0 <= k < st.slots.len() && (#[trigger] st.slots[k]) is Some implies st.slots[k]->Some_0.entry_index == k by {
        assert(st.slots[k] == Some(op_for(es, k, w, pid, token)));
    }
    lemma_somes_ordered(st.slots);
    let ops = somes(st.slots);
    assert forall|k: int| 0 <= k < es.len() implies (#[trigger] has_op_for(ops, k) <==> !has_blocked_for(st.blocked, k)) by {
        if exists|j: int| 0 <= j < ops.len() && (#[trigger] ops[j]).entry_index == k {
            let j = choose|j: int| 0 <= j < ops.len() && (#[trigger] ops[j]).entry_index == k;
            let k2 = choose|k2: int| 0 <= k2 < st.slots.len() && st.slots[k2] == Some(ops[j]);
            assert(st.slots[k2] == Some(op_for(es, k2, w, pid, token)));
            assert(k2 == k);
            if exists|j: int| 0 <= j < st.blocked.len() && (#[trigger] st.blocked[j]).entry_index == k {
                let jb = choose|jb: int| 0 <= jb < st.blocked.len() && (#[trigger] st.blocked[jb]).entry_index == k;
                assert(st.slots[st.blocked[jb].entry_index] is None);
            }
        } else {
            if st.slots[k] is Some {
                assert(ops.contains(st.slots[k]->Some_0));
                let j = choose|j: int| 0 <= j < ops.len() && ops[j] == st.slots[k]->Some_0;
                assert(ops[j].entry_index == k);
            } else {
                assert(st.slots[k] is None);
            }
        }
    }
}

/// Each rename is the one its position calls for: file k takes the number
/// k + 1 with its own extension, and a temporary name that carries k + 1.
/// Every final name of one plan has the same number of digits: that of the
/// count of files (at least three), whatever the file's own number.
pub proof fn law_plan_ops_follow_positions(es: Seq<FileEntryView>, base: Set<Seq<char>>, cs: bool, pid: nat, token: Seq<char>)
    ensures
        forall|j: int|
            0 <= j < somes(plan_state(es, base, cs, pid, token).slots).len() ==> {
                let op = #[trigger] somes(plan_state(es, base, cs, pid, token).slots)[j];
                &&& 0 <= op.entry_index < es.len()
                &&& op == op_for(es, op.entry_index, width_for(es.len()), pid, token)
                &&& op.final_name == numbered_name((op.entry_index + 1) as nat, width_for(es.len()), es[op.entry_index].extension)
                &&& op.original_name == es[op.entry_index].file_name
                &&& op.is_noop == (op.original_name == op.final_name)
            },
{
    let st = plan_state(es, base, cs, pid, token);
    let w = width_for(es.len());
    lemma_plan_state(es, base, cs, pid, token);
    lemma_somes(st.slots);
    assert forall|j: int| 0 <= j < somes(st.slots).len() implies {
        let op = #[trigger] somes(st.slots)[j];
        &&& 0 <= op.entry_index < es.len()
        &&& op == op_for(es, op.entry_index, w, pid, token)
    } by {
        let op = somes(st.slots)[j];
        let k = choose|k: int| 0 <= k < st.slots.len() && st.slots[k] == Some(op);
        assert(st.slots[k] == Some(op_for(es, k, w, pid, token)));
    }
}

/// No rename overwrites an untouchable name: the final name of every
/// operation that moves a file clashes neither with the names given as
/// untouchable nor with the original name of any file left alone.
pub proof fn law_plan_never_overwrites(es: Seq<FileEntryView>, base: Set<Seq<char>>, cs: bool, pid: nat, token: Seq<char>)
    ensures
        forall|j: int|
            0 <= j < somes(plan_state(es, base, cs, pid, token).slots).len() && !(#[trigger] somes(
                plan_state(es, base, cs, pid, token).slots,
            )[j]).is_noop ==> !name_conflicts(
                base.union(blocked_names(plan_state(es, base, cs, pid, token).blocked)),
                cs,
                somes(plan_state(es, base, cs, pid, token).slots)[j].final_name,
            ),
{
    let st = plan_state(es, base, cs, pid, token);
    lemma_plan_state(es, base, cs, pid, token);
    lemma_somes(st.slots);
    assert forall|j: int| 0 <= j < somes(st.slots).len() && !(#[trigger] somes(st.slots)[j]).is_noop implies !name_conflicts(
        base.union(blocked_names(st.blocked)),
        cs,
        somes(st.slots)[j].final_name,
    ) by {
        let op = somes(st.slots)[j];
        let k = choose|k: int| 0 <= k < st.slots.len() && st.slots[k] == Some(op);
        assert(!slot_conflicts(st.slots[k], st.occupied, cs));
    }
}

/// Numbered names of different numbers (1..=count) differ.
pub proof fn law_numbered_names_distinct(
    a: nat,
    b: nat,
    count: nat,
    ea: Option<Seq<char>>,
    eb: Option<Seq<char>>,
)
    requires
        1 <= a <= count,
        1 <= b <= count,
        a != b,
    ensures
        numbered_name(a, width_for(count), ea) != numbered_name(b, width_for(count), eb),
{
    let w = width_for(count);
    lemma_decimal_len_mono(a, count);
    lemma_decimal_len_mono(b, count);
    let pa = zero_padded(a, w);
    let pb = zero_padded(b, w);
    assert(pa.len() == w);
    assert(pb.len() == w);
    let na = numbered_name(a, w, ea);
    let nb = numbered_name(b, w, eb);
    assert(na.take(w as int) =~= pa);
    assert(nb.take(w as int) =~= pb);
    if na == nb {
        lemma_zero_padded_injective(a, b, w);
    }
}

/// Temporary names of different numbers differ.
pub proof fn law_temp_names_distinct(pid: nat, token: Seq<char>, a: nat, b: nat)
    requires
        a != b,
    ensures
        temp_name(pid, token, a) != temp_name(pid, token, b),
{
    let ta = temp_name(pid, token, a);
    let tb = temp_name(pid, token, b);
    let p = crate::platform::INTERNAL_PREFIX@ + "_tmp_"@ + decimal(pid) + "_"@ + token + "_"@;
    assert(ta =~= p + decimal(a));
    assert(tb =~= p + decimal(b));
    if ta == tb {
        assert(decimal(a) =~= ta.skip(p.len() as int));
        assert(decimal(b) =~= tb.skip(p.len() as int));
        lemma_decimal_injective(a, b);
    }
}

/// Temporary names start with `.hashrename_tmp_`, so scans leave them out.
pub proof fn law_temp_names_prefixed(pid: nat, token: Seq<char>, k: nat)
    ensures
        temp_name(pid, token, k).take(16) == ".hashrename_tmp_"@,
{
    reveal_strlit(".hashrename");
    reveal_strlit("_tmp_");
    reveal_strlit(".hashrename_tmp_");
    assert(temp_name(pid, token, k).take(16) =~= ".hashrename_tmp_"@);
}

} // verus!
