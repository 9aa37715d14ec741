//! Rename planning.
//!
//! The remaining files, in natural order, take the numbers 1..=N by position:
//! file i is to be named `(i+1).ext`, zero-padded to max(3, digits(N))
//! characters, extension kept as is. A file whose target name clashes with an
//! entry that takes no part in renaming (or with the original name of a file
//! already left alone) is left alone and reported; this repeats until nothing
//! clashes. Temporary names `.hashrename_tmp_<pid>_<token>_<n>` are unique.

use vstd::prelude::*;
use std::path::PathBuf;
use crate::models::{FileEntry, FileEntryView};
use crate::text::{decimal, zero_padded, decimal_chars, zero_padded_chars, push_all, push_str, push_char, chars_of};
use crate::platform::INTERNAL_PREFIX;

verus! {

/// What `String::to_lowercase` returns for `s`.
pub uninterp spec fn lowercase_str(s: Seq<char>) -> Seq<char>;

/// `std`'s `str::to_lowercase` (full Unicode lowercase mapping). The result is
/// named by `lowercase_str`; nothing more is stated of it.
#[verifier::external_body]
pub(crate) fn to_lowercase(s: &str) -> (r: String)
    ensures
        r@ == lowercase_str(s@),
{
    s.to_lowercase()
}

/// Whether `q` clashes with one of `names`: exact match on a case-sensitive
/// filesystem, same lowercase form otherwise.
pub open spec fn name_conflicts(names: Set<Seq<char>>, case_sensitive: bool, q: Seq<char>) -> bool {
    if case_sensitive {
        names.contains(q)
    } else {
        exists|n: Seq<char>| names.contains(n) && lowercase_str(n) == lowercase_str(q)
    }
}

/// Names that take no part in renaming, compared by the filesystem's case rules.
pub struct OccupiedNames {
    names: Vec<String>,
    ci_keys: Vec<String>,
    case_sensitive: bool,
}

pub open spec fn name_views(v: Seq<String>) -> Seq<Seq<char>> {
    v.map_values(|s: String| s@)
}

pub open spec fn lowered(v: Seq<Seq<char>>) -> Seq<Seq<char>> {
    v.map_values(|n: Seq<char>| lowercase_str(n))
}

impl OccupiedNames {
    /// The names held.
    pub closed spec fn name_set(&self) -> Set<Seq<char>> {
        name_views(self.names@).to_set()
    }

    pub closed spec fn is_case_sensitive(&self) -> bool {
        self.case_sensitive
    }

    pub closed spec fn wf(&self) -> bool {
        &&& name_views(self.names@).no_duplicates()
        &&& if self.case_sensitive {
            self.ci_keys@.len() == 0
        } else {
            name_views(self.ci_keys@) == lowered(name_views(self.names@))
        }
    }

    /// Whether `q` clashes with a held name.
    pub open spec fn conflicts(&self, q: Seq<char>) -> bool {
        name_conflicts(self.name_set(), self.is_case_sensitive(), q)
    }

    /// An empty set compared case-sensitively, as names are on Linux. The
    /// rule of another platform is given to `for_filesystem`: which platform
    /// the program runs on is the caller's to find out.
    pub fn new() -> (r: Self)
        ensures
            r.wf(),
            r.name_set() == Set::<Seq<char>>::empty(),
            r.is_case_sensitive(),
    {
        let r = OccupiedNames { names: Vec::new(), ci_keys: Vec::new(), case_sensitive: true };
        assert(name_views(r.names@).to_set() =~= Set::<Seq<char>>::empty());
        r
    }

    /// An empty set compared by the rules of a filesystem that is (or is not)
    /// case-sensitive.
    pub fn for_filesystem(case_sensitive: bool) -> (r: Self)
        ensures
            r.wf(),
            r.name_set() == Set::<Seq<char>>::empty(),
            r.is_case_sensitive() == case_sensitive,
    {
        let r = OccupiedNames { names: Vec::new(), ci_keys: Vec::new(), case_sensitive };
        assert(name_views(r.names@).to_set() =~= Set::<Seq<char>>::empty());
        assert(name_views(r.ci_keys@) =~= lowered(name_views(r.names@)));
        r
    }

    /// Whether the set compares names case-sensitively.
    pub fn case_sensitive(&self) -> (r: bool)
        ensures
            r == self.is_case_sensitive(),
    {
        self.case_sensitive
    }

    fn holds_exactly(&self, name: &String) -> (r: bool)
        requires
            self.wf(),
        ensures
            r == self.name_set().contains(name@),
    {
        let mut i: usize = 0;
        while i < self.names.len()
            invariant
                i <= self.names.len(),
                forall|k: int| 0 <= k < i ==> self.names@[k]@ != name@,
            decreases self.names.len() - i,
        {
            if self.names[i] == *name {
                assert(name_views(self.names@)[i as int] == name@);
                return true;
            }
            i += 1;
        }
        proof {
            if name_views(self.names@).contains(name@) {
                let k = choose|k: int| 0 <= k < name_views(self.names@).len() && name_views(self.names@)[k] == name@;
                assert(self.names@[k]@ == name@);
            }
        }
        false
    }

    /// Adds `name` (a no-op when it is already held).
    pub fn insert(&mut self, name: &str)
        requires
            old(self).wf(),
        ensures
            final(self).wf(),
            final(self).name_set() == old(self).name_set().insert(name@),
            final(self).is_case_sensitive() == old(self).is_case_sensitive(),
    {
        let owned = name.to_string();
        if self.holds_exactly(&owned) {
            assert(self.name_set().insert(name@) =~= self.name_set());
            return;
        }
        let ghost old_names = name_views(self.names@);
        let ghost old_keys = name_views(self.ci_keys@);
        self.names.push(owned);
        assert(name_views(self.names@) =~= old_names.push(name@));
        if !self.case_sensitive {
            let key = to_lowercase(name);
            self.ci_keys.push(key);
            assert(name_views(self.ci_keys@) =~= old_keys.push(lowercase_str(name@)));
            assert(lowered(old_names.push(name@)) =~= lowered(old_names).push(lowercase_str(name@)));
        }
        proof {
            old_names.lemma_push_to_set_commute(name@);
            assert(old_names.push(name@).no_duplicates()) by {
                assert forall|a: int, b: int| 0 <= a < b < old_names.push(name@).len()
                    implies old_names.push(name@)[a] != old_names.push(name@)[b] by {
                    if b == old_names.len() {
                        assert(old_names.contains(old_names[a]));
                    }
                }
            }
        }
    }

    pub(crate) fn extend_from(&mut self, other: &OccupiedNames)
        requires
            old(self).wf(),
            other.wf(),
        ensures
            final(self).wf(),
            final(self).name_set() == old(self).name_set().union(other.name_set()),
            final(self).is_case_sensitive() == old(self).is_case_sensitive(),
    {
        let ghost start = self.name_set();
        let mut i: usize = 0;
        while i < other.names.len()
            invariant
                self.wf(),
                other.wf(),
                i <= other.names.len(),
                self.is_case_sensitive() == old(self).is_case_sensitive(),
                self.name_set() == start.union(name_views(other.names@.take(i as int)).to_set()),
            decreases other.names.len() - i,
        {
            self.insert(other.names[i].as_str());
            assert(name_views(other.names@.take(i + 1)) =~= name_views(other.names@.take(i as int)).push(other.names@[i as int]@));
            proof {
                name_views(other.names@.take(i as int)).lemma_push_to_set_commute(other.names@[i as int]@);
            }
            assert(self.name_set() =~= start.union(name_views(other.names@.take(i + 1)).to_set()));
            i += 1;
        }
        assert(other.names@.take(other.names.len() as int) =~= other.names@);
    }

    /// The names held, in the order they were added.
    pub fn names(&self) -> (r: Vec<String>)
        requires
            self.wf(),
        ensures
            name_views(r@).to_set() == self.name_set(),
            name_views(r@).no_duplicates(),
    {
        let r = self.names.clone();
        assert(name_views(r@) =~= name_views(self.names@));
        r
    }

    proof fn lemma_keys(&self)
        requires
            self.wf(),
            !self.is_case_sensitive(),
        ensures
            self.ci_keys@.len() == self.names@.len(),
            forall|k: int| 0 <= k < self.names@.len() ==> #[trigger] self.ci_keys@[k]@ == lowercase_str(self.names@[k]@),
    {
        assert(name_views(self.ci_keys@).len() == self.ci_keys@.len());
        assert forall|k: int| 0 <= k < self.names@.len() implies #[trigger] self.ci_keys@[k]@ == lowercase_str(self.names@[k]@) by {
            assert(name_views(self.ci_keys@)[k] == lowered(name_views(self.names@))[k]);
        }
    }

    /// Whether `name` clashes with a held name.
    pub fn contains(&self, name: &str) -> (r: bool)
        requires
            self.wf(),
        ensures
            r == self.conflicts(name@),
    {
        if self.case_sensitive {
            let owned = name.to_string();
            self.holds_exactly(&owned)
        } else {
            let key = to_lowercase(name);
            proof {
                self.lemma_keys();
            }
            let mut i: usize = 0;
            while i < self.ci_keys.len()
                invariant
                    self.wf(),
                    !self.case_sensitive,
                    i <= self.ci_keys.len(),
                    key@ == lowercase_str(name@),
                    forall|k: int| 0 <= k < i ==> self.ci_keys@[k]@ != key@,
                decreases self.ci_keys.len() - i,
            {
                if self.ci_keys[i] == key {
                    proof {
                        self.lemma_keys();
                        let n = self.names@[i as int]@;
                        assert(name_views(self.names@)[i as int] == n);
                        assert(name_views(self.names@).contains(n));
                        assert(self.name_set().contains(n));
                    }
                    return true;
                }
                i += 1;
            }
            proof {
                if self.conflicts(name@) {
                    let n = choose|n: Seq<char>| self.name_set().contains(n) && lowercase_str(n) == lowercase_str(name@);
                    let k = choose|k: int| 0 <= k < name_views(self.names@).len() && name_views(self.names@)[k] == n;
                    self.lemma_keys();
                    assert(self.names@[k]@ == n);
                    assert(self.ci_keys@[k]@ == key@);
                }
            }
            false
        }
    }
}


/// Number of digits of the sequence numbers: max(3, digits of `count`).
pub open spec fn width_for(count: nat) -> nat {
    if decimal(count).len() < 3 { 3 } else { decimal(count).len() }
}

/// The numbered name: `number` zero-padded to `width`, then `.` and the
/// extension when there is a nonempty one.
pub open spec fn numbered_name(number: nat, width: nat, extension: Option<Seq<char>>) -> Seq<char> {
    match extension {
        Some(ext) => if ext.len() > 0 {
            zero_padded(number, width) + seq!['.'] + ext
        } else {
            zero_padded(number, width)
        },
        None => zero_padded(number, width),
    }
}

/// The temporary name of the file numbered `k` in the run (`pid`, `token`).
pub open spec fn temp_name(pid: nat, token: Seq<char>, k: nat) -> Seq<char> {
    INTERNAL_PREFIX@ + "_tmp_"@ + decimal(pid) + "_"@ + token + "_"@ + decimal(k)
}

pub open spec fn reason_occupied(final_name: Seq<char>) -> Seq<char> {
    "目标名 "@ + final_name + " 与目录中不参与重命名的条目冲突,为避免覆盖已跳过该文件"@
}

pub open spec fn reason_cascade(final_name: Seq<char>) -> Seq<char> {
    "目标名 "@ + final_name + " 与其他保留文件的原名冲突,为避免覆盖已跳过该文件"@
}

/// Digits of sequence numbers for `count` files.
pub fn number_width(count: usize) -> (r: usize)
    ensures
        r == width_for(count as nat),
{
    let d = decimal_chars(count as u64);
    if d.len() < 3 { 3 } else { d.len() }
}

/// The final numbered name: `001` / `0001`, then `.` and the extension (case
/// kept) when it is nonempty.
pub fn format_numbered_name(number: usize, width: usize, extension: Option<&str>) -> (r: String)
    ensures
        r@ == numbered_name(number as nat, width as nat, match extension { Some(e) => Some(e@), None => None }),
{
    let digits = zero_padded_chars(number as u64, width);
    let mut s = String::new();
    push_all(&mut s, &digits);
    match extension {
        Some(ext) => {
            let e = chars_of(ext);
            if e.len() > 0 {
                push_char(&mut s, '.');
                push_all(&mut s, &e);
            }
        },
        None => {},
    }
    s
}

/// One planned rename: original name to temporary name to final name.
pub struct RenameOp {
    pub entry_index: usize,
    pub original: PathBuf,
    pub original_name: String,
    pub temporary_name: String,
    pub final_name: String,
    /// The file already has its final name: nothing to do.
    pub is_noop: bool,
}

/// A file left under its original name because its target name clashes.
pub struct BlockedRename {
    pub entry_index: usize,
    pub original_name: String,
    pub reason: String,
}

/// The whole plan of a run.
pub struct RenamePlan {
    pub ops: Vec<RenameOp>,
    pub blocked: Vec<BlockedRename>,
    /// Digits of the sequence numbers.
    pub width: usize,
}

pub struct OpSpec {
    pub entry_index: int,
    pub original: PathBuf,
    pub original_name: Seq<char>,
    pub temporary_name: Seq<char>,
    pub final_name: Seq<char>,
    pub is_noop: bool,
}

pub struct BlockedSpec {
    pub entry_index: int,
    pub original_name: Seq<char>,
    pub reason: Seq<char>,
}

impl View for RenameOp {
    type V = OpSpec;

    open spec fn view(&self) -> OpSpec {
        OpSpec {
            entry_index: self.entry_index as int,
            original: self.original,
            original_name: self.original_name@,
            temporary_name: self.temporary_name@,
            final_name: self.final_name@,
            is_noop: self.is_noop,
        }
    }
}

impl View for BlockedRename {
    type V = BlockedSpec;

    open spec fn view(&self) -> BlockedSpec {
        BlockedSpec { entry_index: self.entry_index as int, original_name: self.original_name@, reason: self.reason@ }
    }
}

impl Clone for RenameOp {
    fn clone(&self) -> (r: Self)
        ensures
            r@ == self@,
    {
        RenameOp {
            entry_index: self.entry_index,
            original: self.original.clone(),
            original_name: self.original_name.clone(),
            temporary_name: self.temporary_name.clone(),
            final_name: self.final_name.clone(),
            is_noop: self.is_noop,
        }
    }
}

pub open spec fn ops_view(v: Seq<RenameOp>) -> Seq<OpSpec> {
    v.map_values(|o: RenameOp| o@)
}

pub open spec fn blocked_view(v: Seq<BlockedRename>) -> Seq<BlockedSpec> {
    v.map_values(|b: BlockedRename| b@)
}

pub open spec fn slot_view(s: Option<RenameOp>) -> Option<OpSpec> {
    match s {
        Some(o) => Some(o@),
        None => None,
    }
}

pub open spec fn slots_view(v: Seq<Option<RenameOp>>) -> Seq<Option<OpSpec>> {
    v.map_values(|s: Option<RenameOp>| slot_view(s))
}

/// The plan for file `k` when it takes its number.
pub open spec fn op_for(es: Seq<FileEntryView>, k: int, width: nat, pid: nat, token: Seq<char>) -> OpSpec {
    let f = numbered_name((k + 1) as nat, width, es[k].extension);
    OpSpec {
        entry_index: k,
        original: es[k].path,
        original_name: es[k].file_name,
        temporary_name: temp_name(pid, token, (k + 1) as nat),
        final_name: f,
        is_noop: es[k].file_name == f,
    }
}

/// State of planning: one slot per file (`None` when left alone), the files
/// left alone so far, and the names that must not be overwritten.
pub struct PlanState {
    pub slots: Seq<Option<OpSpec>>,
    pub blocked: Seq<BlockedSpec>,
    pub occupied: Set<Seq<char>>,
}

/// The first pass over the first `i` files: each takes its number unless its
/// target name clashes, in which case its own name becomes untouchable.
pub open spec fn first_pass(
    es: Seq<FileEntryView>,
    base: Set<Seq<char>>,
    cs: bool,
    width: nat,
    pid: nat,
    token: Seq<char>,
    i: nat,
) -> PlanState
    decreases i,
{
    if i == 0 {
        PlanState { slots: Seq::empty(), blocked: Seq::empty(), occupied: base }
    } else {
        let p = first_pass(es, base, cs, width, pid, token, (i - 1) as nat);
        let k = i - 1;
        let op = op_for(es, k, width, pid, token);
        if name_conflicts(p.occupied, cs, op.final_name) {
            PlanState {
                slots: p.slots.push(None),
                blocked: p.blocked.push(
                    BlockedSpec { entry_index: k, original_name: es[k].file_name, reason: reason_occupied(op.final_name) },
                ),
                occupied: p.occupied.insert(es[k].file_name),
            }
        } else {
            PlanState { slots: p.slots.push(Some(op)), blocked: p.blocked, occupied: p.occupied }
        }
    }
}

/// A slot whose rename would overwrite an untouchable name.
pub open spec fn slot_conflicts(s: Option<OpSpec>, occupied: Set<Seq<char>>, cs: bool) -> bool {
    match s {
        Some(op) => !op.is_noop && name_conflicts(occupied, cs, op.final_name),
        None => false,
    }
}

/// The first clashing slot at or after `k`, or -1.
pub open spec fn first_conflict_from(slots: Seq<Option<OpSpec>>, occupied: Set<Seq<char>>, cs: bool, k: int) -> int
    decreases slots.len() - k,
{
    if k < 0 || k >= slots.len() {
        -1
    } else if slot_conflicts(slots[k], occupied, cs) {
        k
    } else {
        first_conflict_from(slots, occupied, cs, k + 1)
    }
}

pub open spec fn count_some(slots: Seq<Option<OpSpec>>) -> nat
    decreases slots.len(),
{
    if slots.len() == 0 {
        0
    } else {
        count_some(slots.drop_last()) + if slots.last() is Some { 1nat } else { 0nat }
    }
}

pub proof fn lemma_count_some_clear(slots: Seq<Option<OpSpec>>, i: int)
    requires
        0 <= i < slots.len(),
        slots[i] is Some,
    ensures
        count_some(slots.update(i, None)) < count_some(slots),
    decreases slots.len(),
{
    let u = slots.update(i, None);
    if i == slots.len() - 1 {
        assert(u.drop_last() =~= slots.drop_last());
    } else {
        assert(u.drop_last() =~= slots.drop_last().update(i, None));
        lemma_count_some_clear(slots.drop_last(), i);
    }
}

pub(crate) proof fn lemma_first_conflict(slots: Seq<Option<OpSpec>>, occupied: Set<Seq<char>>, cs: bool, k: int)
    requires
        0 <= k,
    ensures
        first_conflict_from(slots, occupied, cs, k) == -1 || (k <= first_conflict_from(slots, occupied, cs, k) < slots.len()
            && slot_conflicts(slots[first_conflict_from(slots, occupied, cs, k)], occupied, cs)),
        first_conflict_from(slots, occupied, cs, k) == -1 ==> forall|j: int| k <= j < slots.len() ==> !slot_conflicts(#[trigger] slots[j], occupied, cs),
    decreases slots.len() - k,
{
    if k < slots.len() && !slot_conflicts(slots[k], occupied, cs) {
        lemma_first_conflict(slots, occupied, cs, k + 1);
    }
}

/// Repeatedly leaves alone the first file whose target name clashes, making
/// its own name untouchable, until no target name clashes.
pub open spec fn cascade(st: PlanState, cs: bool) -> PlanState
    decreases count_some(st.slots),
{
    let i = first_conflict_from(st.slots, st.occupied, cs, 0);
    if i < 0 || i >= st.slots.len() || st.slots[i] is None {
        st
    } else {
        let op = st.slots[i]->Some_0;
        proof {
            lemma_count_some_clear(st.slots, i);
        }
        cascade(
            PlanState {
                slots: st.slots.update(i, None),
                blocked: st.blocked.push(
                    BlockedSpec { entry_index: op.entry_index, original_name: op.original_name, reason: reason_cascade(op.final_name) },
                ),
                occupied: st.occupied.insert(op.original_name),
            },
            cs,
        )
    }
}

/// The operations of the occupied slots, in order.
pub open spec fn somes(slots: Seq<Option<OpSpec>>) -> Seq<OpSpec>
    decreases slots.len(),
{
    if slots.len() == 0 {
        Seq::empty()
    } else {
        match slots.last() {
            Some(op) => somes(slots.drop_last()).push(op),
            None => somes(slots.drop_last()),
        }
    }
}

/// The final planning state for `es` (already in natural order).
pub open spec fn plan_state(es: Seq<FileEntryView>, base: Set<Seq<char>>, cs: bool, pid: nat, token: Seq<char>) -> PlanState {
    cascade(first_pass(es, base, cs, width_for(es.len()), pid, token, es.len()), cs)
}


pub open spec fn entries_view(s: Seq<FileEntry>) -> Seq<FileEntryView> {
    s.map_values(|e: FileEntry| e@)
}

fn temp_name_for(pid: u32, token: &str, k: usize) -> (r: String)
    ensures
        r@ == temp_name(pid as nat, token@, k as nat),
{
    let mut s = String::new();
    push_str(&mut s, INTERNAL_PREFIX);
    push_str(&mut s, "_tmp_");
    let p = decimal_chars(pid as u64);
    push_all(&mut s, &p);
    push_str(&mut s, "_");
    push_str(&mut s, token);
    push_str(&mut s, "_");
    let n = decimal_chars(k as u64);
    push_all(&mut s, &n);
    s
}

fn occupied_reason(final_name: &String) -> (r: String)
    ensures
        r@ == reason_occupied(final_name@),
{
    let mut s = String::new();
    push_str(&mut s, "目标名 ");
    push_str(&mut s, final_name.as_str());
    push_str(&mut s, " 与目录中不参与重命名的条目冲突,为避免覆盖已跳过该文件");
    s
}

fn cascade_reason(final_name: &String) -> (r: String)
    ensures
        r@ == reason_cascade(final_name@),
{
    let mut s = String::new();
    push_str(&mut s, "目标名 ");
    push_str(&mut s, final_name.as_str());
    push_str(&mut s, " 与其他保留文件的原名冲突,为避免覆盖已跳过该文件");
    s
}

fn find_conflict(slots: &Vec<Option<RenameOp>>, occupied: &OccupiedNames) -> (r: Option<usize>)
    requires
        occupied.wf(),
    ensures
        match r {
            Some(i) => i as int == first_conflict_from(slots_view(slots@), occupied.name_set(), occupied.is_case_sensitive(), 0),
            None => first_conflict_from(slots_view(slots@), occupied.name_set(), occupied.is_case_sensitive(), 0) == -1,
        },
{
    let ghost sv = slots_view(slots@);
    let ghost occ = occupied.name_set();
    let ghost cs = occupied.is_case_sensitive();
    let mut k: usize = 0;
    while k < slots.len()
        invariant
            k <= slots.len(),
            sv == slots_view(slots@),
            occupied.wf(),
            occ == occupied.name_set(),
            cs == occupied.is_case_sensitive(),
            first_conflict_from(sv, occ, cs, 0) == first_conflict_from(sv, occ, cs, k as int),
        decreases slots.len() - k,
    {
        assert(sv[k as int] == slot_view(slots@[k as int]));
        match &slots[k] {
            Some(op) => {
                if !op.is_noop && occupied.contains(op.final_name.as_str()) {
                    return Some(k);
                }
            },
            None => {},
        }
        k += 1;
    }
    None
}

/// Makes the two-phase rename plan for the remaining files.
///
/// `remaining` must already be in natural order. File i is to take the name
/// `(i+1).ext`; a file whose target name clashes with an untouchable name (an
/// entry of `occupied_base`, or the original name of a file left alone) is
/// left alone and reported, its number stays unused.
pub fn plan_renames(remaining: &[FileEntry], occupied_base: &OccupiedNames, pid: u32, token: &str) -> (plan: RenamePlan)
    requires
        occupied_base.wf(),
    ensures
        plan.width == width_for(remaining@.len()),
        ops_view(plan.ops@) == somes(
            plan_state(entries_view(remaining@), occupied_base.name_set(), occupied_base.is_case_sensitive(), pid as nat, token@).slots,
        ),
        blocked_view(plan.blocked@) == plan_state(
            entries_view(remaining@),
            occupied_base.name_set(),
            occupied_base.is_case_sensitive(),
            pid as nat,
            token@,
        ).blocked,
{
    let ghost es = entries_view(remaining@);
    let ghost base = occupied_base.name_set();
    let ghost cs = occupied_base.is_case_sensitive();
    let n = remaining.len();
    let width = number_width(n);
    let mut occupied = OccupiedNames::for_filesystem(occupied_base.case_sensitive());
    occupied.extend_from(occupied_base);
    assert(occupied.name_set() =~= base);
    let mut slots: Vec<Option<RenameOp>> = Vec::new();
    let mut blocked: Vec<BlockedRename> = Vec::new();
    let mut i: usize = 0;
    while i < n
        invariant
            n == remaining.len(),
            es == entries_view(remaining@),
            width == width_for(n as nat),
            i <= n,
            occupied.wf(),
            occupied.is_case_sensitive() == cs,
            slots_view(slots@) == first_pass(es, base, cs, width as nat, pid as nat, token@, i as nat).slots,
            blocked_view(blocked@) == first_pass(es, base, cs, width as nat, pid as nat, token@, i as nat).blocked,
            occupied.name_set() == first_pass(es, base, cs, width as nat, pid as nat, token@, i as nat).occupied,
        decreases n - i,
    {
        let fe = &remaining[i];
        assert(es[i as int] == fe@);
        let ext: Option<&str> = match &fe.extension {
            Some(e) => Some(e.as_str()),
            None => None,
        };
        let final_name = format_numbered_name(i + 1, width, ext);
        let ghost op = op_for(es, i as int, width as nat, pid as nat, token@);
        assert(final_name@ == op.final_name);
        if occupied.contains(final_name.as_str()) {
            let reason = occupied_reason(&final_name);
            blocked.push(BlockedRename { entry_index: i, original_name: fe.file_name.clone(), reason });
            occupied.insert(fe.file_name.as_str());
            slots.push(None);
            assert(slots_view(slots@) =~= first_pass(es, base, cs, width as nat, pid as nat, token@, (i + 1) as nat).slots);
            assert(blocked_view(blocked@) =~= first_pass(es, base, cs, width as nat, pid as nat, token@, (i + 1) as nat).blocked);
        } else {
            let temporary_name = temp_name_for(pid, token, i + 1);
            let is_noop = fe.file_name == final_name;
            slots.push(
                Some(
                    RenameOp {
                        entry_index: i,
                        original: fe.path.clone(),
                        original_name: fe.file_name.clone(),
                        temporary_name,
                        final_name,
                        is_noop,
                    },
                ),
            );
            assert(slots_view(slots@) =~= first_pass(es, base, cs, width as nat, pid as nat, token@, (i + 1) as nat).slots);
        }
        i += 1;
    }
    let ghost target = plan_state(es, base, cs, pid as nat, token@);
    let mut conflict = find_conflict(&slots, &occupied);
    while conflict.is_some()
        invariant
            occupied.wf(),
            occupied.is_case_sensitive() == cs,
            cascade(
                PlanState { slots: slots_view(slots@), blocked: blocked_view(blocked@), occupied: occupied.name_set() },
                cs,
            ) == target,
            match conflict {
                Some(i) => i as int == first_conflict_from(slots_view(slots@), occupied.name_set(), cs, 0),
                None => first_conflict_from(slots_view(slots@), occupied.name_set(), cs, 0) == -1,
            },
        decreases count_some(slots_view(slots@)),
    {
        let i = conflict.unwrap();
        proof {
            lemma_first_conflict(slots_view(slots@), occupied.name_set(), cs, 0);
        }
        let ghost sv = slots_view(slots@);
        let ghost cur = PlanState { slots: sv, blocked: blocked_view(blocked@), occupied: occupied.name_set() };
        let taken = slots.remove(i);
        slots.insert(i, None);
        assert(sv[i as int] == slot_view(taken));
        match taken {
            Some(op) => {
                let reason = cascade_reason(&op.final_name);
                blocked.push(BlockedRename { entry_index: op.entry_index, original_name: op.original_name.clone(), reason });
                occupied.insert(op.original_name.as_str());
                assert(slots_view(slots@) =~= sv.update(i as int, None));
                assert(blocked_view(blocked@) =~= cur.blocked.push(
                    BlockedSpec { entry_index: op@.entry_index, original_name: op@.original_name, reason: reason_cascade(op@.final_name) },
                ));
                proof {
                    lemma_count_some_clear(sv, i as int);
                }
            },
            None => {
                assert(false);
            },
        }
        conflict = find_conflict(&slots, &occupied);
    }
    let mut ops: Vec<RenameOp> = Vec::new();
    let mut k: usize = 0;
    let ghost fin = slots_view(slots@);
    assert(fin.take(0) =~= Seq::<Option<OpSpec>>::empty());
    while k < slots.len()
        invariant
            k <= slots.len(),
            fin == slots_view(slots@),
            ops_view(ops@) == somes(fin.take(k as int)),
        decreases slots.len() - k,
    {
        assert(fin.take(k + 1).drop_last() =~= fin.take(k as int));
        assert(fin[k as int] == slot_view(slots@[k as int]));
        match &slots[k] {
            Some(op) => {
                ops.push(op.clone());
                assert(ops_view(ops@) =~= somes(fin.take(k as int)).push(op@));
            },
            None => {},
        }
        k += 1;
    }
    assert(fin.take(slots.len() as int) =~= fin);
    RenamePlan { ops, blocked, width }
}

} // verus!
