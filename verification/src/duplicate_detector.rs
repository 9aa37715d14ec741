//! Duplicate detection.
//!
//! Files are grouped by (size, digest); only groups of two or more files are
//! candidates. Each candidate group is then split by byte-for-byte comparison
//! against a representative, so that files whose digests collide but whose
//! contents differ never end up together. In every group of identical files
//! the one first in natural order is kept; the others are duplicates.

use vstd::prelude::*;
use crate::models::{FileEntry, FileEntryView, HashValue, DuplicateGroup, hex_of};
use crate::sorter::{lex, lex_order, sort_names, names_in_order};
use crate::text::{chars_of, push_str};
use crate::error::FileError;
use crate::paths::shown;

verus! {

pub open spec fn hash_views(hs: Seq<Option<HashValue>>) -> Seq<Option<Seq<u8>>> {
    hs.map_values(|h: Option<HashValue>| match h {
        Some(v) => Some(v@),
        None => None,
    })
}

/// File `i` was hashed and has size `size` and digest (in hexadecimal) `hex`.
pub open spec fn key_matches(es: Seq<FileEntryView>, hs: Seq<Option<Seq<u8>>>, i: int, size: u64, hex: Seq<char>) -> bool {
    &&& hs[i] is Some
    &&& es[i].size == size
    &&& hex_of(hs[i]->Some_0) == hex
}

/// Indices below `n` of the files with key (`size`, `hex`), ascending.
pub open spec fn members_upto(es: Seq<FileEntryView>, hs: Seq<Option<Seq<u8>>>, size: u64, hex: Seq<char>, n: nat) -> Seq<int>
    decreases n,
{
    if n == 0 {
        Seq::empty()
    } else {
        let p = members_upto(es, hs, size, hex, (n - 1) as nat);
        if key_matches(es, hs, n - 1, size, hex) {
            p.push(n - 1)
        } else {
            p
        }
    }
}

/// All files with key (`size`, `hex`), ascending.
pub open spec fn members_of(es: Seq<FileEntryView>, hs: Seq<Option<Seq<u8>>>, size: u64, hex: Seq<char>) -> Seq<int> {
    members_upto(es, hs, size, hex, es.len())
}

/// Keys ordered by size, then by hexadecimal digest.
pub open spec fn key_before(s1: u64, h1: Seq<char>, s2: u64, h2: Seq<char>) -> bool {
    s1 < s2 || (s1 == s2 && lex(h1, h2) < 0)
}

/// Files that share a size and a digest: to be compared byte for byte.
pub struct CandidateGroup {
    pub size: u64,
    pub hash: HashValue,
    pub members: Vec<usize>,
}

pub open spec fn index_view(v: Seq<usize>) -> Seq<int> {
    v.map_values(|i: usize| i as int)
}

/// One candidate group together with its digest in hexadecimal.
struct Keyed {
    group: CandidateGroup,
    hex: Vec<char>,
}

impl Keyed {
    spec fn key_ok(&self) -> bool {
        self.hex@ == hex_of(self.group.hash@)
    }
}

proof fn lemma_members_other(es: Seq<FileEntryView>, hs: Seq<Option<Seq<u8>>>, size: u64, hex: Seq<char>, i: nat)
    requires
        i < es.len(),
        !key_matches(es, hs, i as int, size, hex),
    ensures
        members_upto(es, hs, size, hex, i + 1) == members_upto(es, hs, size, hex, i),
{
}

proof fn lemma_members_bounds(es: Seq<FileEntryView>, hs: Seq<Option<Seq<u8>>>, size: u64, hex: Seq<char>, n: nat)
    ensures
        forall|j: int| 0 <= j < members_upto(es, hs, size, hex, n).len() ==> {
            &&& 0 <= #[trigger] members_upto(es, hs, size, hex, n)[j] < n
            &&& key_matches(es, hs, members_upto(es, hs, size, hex, n)[j], size, hex)
        },
        forall|j1: int, j2: int| 0 <= j1 < j2 < members_upto(es, hs, size, hex, n).len()
            ==> #[trigger] members_upto(es, hs, size, hex, n)[j1] < #[trigger] members_upto(es, hs, size, hex, n)[j2],
        forall|k: int| 0 <= k < n && key_matches(es, hs, k, size, hex) ==> #[trigger] members_upto(es, hs, size, hex, n).contains(k),
    decreases n,
{
    if n > 0 {
        lemma_members_bounds(es, hs, size, hex, (n - 1) as nat);
        let p = members_upto(es, hs, size, hex, (n - 1) as nat);
        let m = members_upto(es, hs, size, hex, n);
        assert forall|k: int| 0 <= k < n && key_matches(es, hs, k, size, hex) implies #[trigger] m.contains(k) by {
            if k < n - 1 {
                assert(p.contains(k));
                let j = choose|j: int| 0 <= j < p.len() && p[j] == k;
                assert(m[j] == k);
            } else {
                assert(m[m.len() - 1] == k);
            }
        }
    }
}

fn clone_group(g: &CandidateGroup) -> (r: CandidateGroup)
    ensures
        r.size == g.size,
        r.hash@ == g.hash@,
        r.members@ == g.members@,
{
    let mut members: Vec<usize> = Vec::new();
    let mut i: usize = 0;
    while i < g.members.len()
        invariant
            i <= g.members@.len(),
            members@ == g.members@.take(i as int),
        decreases g.members@.len() - i,
    {
        members.push(g.members[i]);
        assert(g.members@.take(i + 1) =~= g.members@.take(i as int).push(g.members@[i as int]));
        i += 1;
    }
    assert(g.members@.take(g.members@.len() as int) =~= g.members@);
    CandidateGroup { size: g.size, hash: g.hash.clone(), members }
}

/// The candidate groups: for each (size, digest) shared by two or more
/// hashed files, the indices of those files, ascending; groups ordered by
/// size, then by hexadecimal digest.
pub fn candidate_groups(entries: &[FileEntry], hashes: &[Option<HashValue>]) -> (r: Vec<CandidateGroup>)
    requires
        entries@.len() == hashes@.len(),
    ensures
        forall|g: int| 0 <= g < r@.len() ==> {
            &&& index_view((#[trigger] r@[g]).members@) == members_of(
                entries@.map_values(|e: FileEntry| e@),
                hash_views(hashes@),
                r@[g].size,
                hex_of(r@[g].hash@),
            )
            &&& r@[g].members@.len() >= 2
        },
        forall|g1: int, g2: int| 0 <= g1 < g2 < r@.len() ==> key_before(
            (#[trigger] r@[g1]).size,
            hex_of(r@[g1].hash@),
            (#[trigger] r@[g2]).size,
            hex_of(r@[g2].hash@),
        ),
        forall|i: int|
            0 <= i < entries@.len() && #[trigger] hash_views(hashes@)[i] is Some && members_of(
                entries@.map_values(|e: FileEntry| e@),
                hash_views(hashes@),
                entries@[i].size,
                hex_of(hash_views(hashes@)[i]->Some_0),
            ).len() >= 2 ==> exists|g: int|
                0 <= g < r@.len() && r@[g].size == entries@[i].size && hex_of(r@[g].hash@) == hex_of(
                    hash_views(hashes@)[i]->Some_0,
                ),
{
    let ghost es = entries@.map_values(|e: FileEntry| e@);
    let ghost hs = hash_views(hashes@);
    let n = entries.len();
    let mut ks: Vec<Keyed> = Vec::new();
    let mut i: usize = 0;
    while i < n
        invariant
            n == entries@.len(),
            n == hashes@.len(),
            es == entries@.map_values(|e: FileEntry| e@),
            hs == hash_views(hashes@),
            i <= n,
            forall|g: int| 0 <= g < ks@.len() ==> {
                &&& (#[trigger] ks@[g]).key_ok()
                &&& index_view(ks@[g].group.members@) == members_upto(es, hs, ks@[g].group.size, ks@[g].hex@, i as nat)
                &&& ks@[g].group.members@.len() >= 1
            },
            forall|g1: int, g2: int| 0 <= g1 < g2 < ks@.len() ==>
                key_before((#[trigger] ks@[g1]).group.size, ks@[g1].hex@, (#[trigger] ks@[g2]).group.size, ks@[g2].hex@),
            forall|j: int| 0 <= j < i && #[trigger] hs[j] is Some ==> exists|g: int|
                0 <= g < ks@.len() && ks@[g].group.size == es[j].size && ks@[g].hex@ == hex_of(hs[j]->Some_0),
        decreases n - i,
    {
        assert(es[i as int] == entries@[i as int]@);
        assert(hs[i as int] == match hashes@[i as int] { Some(v) => Some(v@), None => None::<Seq<u8>> });
        match &hashes[i] {
            None => {
                proof {
                    assert forall|g: int| 0 <= g < ks@.len() implies
                        members_upto(es, hs, ks@[g].group.size, ks@[g].hex@, (i + 1) as nat)
                            == members_upto(es, hs, ks@[g].group.size, ks@[g].hex@, i as nat) by {
                        lemma_members_other(es, hs, ks@[g].group.size, ks@[g].hex@, i as nat);
                    }
                }
            },
            Some(h) => {
                let size = entries[i].size;
                let hex_s = h.hex();
                let hex = chars_of(hex_s.as_str());
                let (pos, found) = locate_key(&ks, size, &hex);
                assert(hex@ == hex_of(hs[i as int]->Some_0));
                let ghost before = ks@;
                match if found { Some(pos) } else { None } {
                    Some(g) => {
                        ks[g].group.members.push(i);
                        proof {
                            assert forall|g2: int| 0 <= g2 < ks@.len() implies {
                                &&& (#[trigger] ks@[g2]).key_ok()
                                &&& index_view(ks@[g2].group.members@) == members_upto(es, hs, ks@[g2].group.size, ks@[g2].hex@, (i + 1) as nat)
                                &&& ks@[g2].group.members@.len() >= 1
                            } by {
                                if g2 == g {
                                    assert(index_view(ks@[g2].group.members@) =~= index_view(before[g2].group.members@).push(i as int));
                                } else {
                                    assert(ks@[g2] == before[g2]);
                                    if g2 < g {
                                        assert(key_before(before[g2].group.size, before[g2].hex@, before[g as int].group.size, before[g as int].hex@));
                                    } else {
                                        assert(key_before(before[g as int].group.size, before[g as int].hex@, before[g2].group.size, before[g2].hex@));
                                    }
                                    lemma_key_total(size, hex@, size, hex@);
                                    lemma_members_other(es, hs, ks@[g2].group.size, ks@[g2].hex@, i as nat);
                                }
                            }
                            assert forall|j: int| 0 <= j < i + 1 && #[trigger] hs[j] is Some implies exists|g3: int|
                                0 <= g3 < ks@.len() && ks@[g3].group.size == es[j].size && ks@[g3].hex@ == hex_of(hs[j]->Some_0) by {
                                if j < i {
                                    let g3 = choose|g3: int| 0 <= g3 < before.len() && before[g3].group.size == es[j].size && before[g3].hex@ == hex_of(hs[j]->Some_0);
                                    assert(ks@[g3].group.size == before[g3].group.size);
                                    assert(ks@[g3].hex@ == before[g3].hex@);
                                } else {
                                    assert(ks@[g as int].group.size == es[j].size);
                                }
                            }
                        }
                    },
                    None => {
                        let mut members: Vec<usize> = Vec::new();
                        members.push(i);
                        let hash = h.clone();
                        let ghost hx = hex@;
                        ks.insert(pos, Keyed { group: CandidateGroup { size, hash, members }, hex });
                        proof {
                            assert forall|g1: int, g2: int| 0 <= g1 < g2 < ks@.len() implies
                                key_before((#[trigger] ks@[g1]).group.size, ks@[g1].hex@, (#[trigger] ks@[g2]).group.size, ks@[g2].hex@) by {
                                if g2 == pos {
                                    assert(ks@[g1] == before[g1]);
                                } else if g1 == pos {
                                    assert(ks@[g2] == before[g2 - 1]);
                                    if g2 - 1 > pos {
                                        lemma_key_trans(size, hx, before[pos as int].group.size, before[pos as int].hex@, before[g2 - 1].group.size, before[g2 - 1].hex@);
                                    }
                                } else if g1 < pos && g2 > pos {
                                    assert(ks@[g1] == before[g1]);
                                    assert(ks@[g2] == before[g2 - 1]);
                                } else if g2 < pos {
                                    assert(ks@[g1] == before[g1]);
                                    assert(ks@[g2] == before[g2]);
                                } else {
                                    assert(ks@[g1] == before[g1 - 1]);
                                    assert(ks@[g2] == before[g2 - 1]);
                                }
                            }
                            assert forall|g2: int| 0 <= g2 < ks@.len() implies {
                                &&& (#[trigger] ks@[g2]).key_ok()
                                &&& index_view(ks@[g2].group.members@) == members_upto(es, hs, ks@[g2].group.size, ks@[g2].hex@, (i + 1) as nat)
                                &&& ks@[g2].group.members@.len() >= 1
                            } by {
                                if g2 == pos {
                                    assert forall|j: int| 0 <= j < i implies !key_matches(es, hs, j, size, hex@) by {
                                        if key_matches(es, hs, j, size, hex@) {
                                            let g3 = choose|g3: int| 0 <= g3 < before.len() && before[g3].group.size == es[j].size && before[g3].hex@ == hex_of(hs[j]->Some_0);
                                            assert(before[g3].group.size == size && before[g3].hex@ == hex@);
                                        }
                                    }
                                    lemma_members_none(es, hs, size, hex@, i as nat);
                                    assert(index_view(ks@[g2].group.members@) =~= seq![i as int]);
                                    assert(members_upto(es, hs, size, hex@, i as nat) =~= Seq::<int>::empty());
                                } else {
                                    let src = if g2 < pos { g2 } else { g2 - 1 };
                                    assert(ks@[g2] == before[src]);
                                    lemma_members_other(es, hs, ks@[g2].group.size, ks@[g2].hex@, i as nat);
                                }
                            }
                            assert forall|j: int| 0 <= j < i + 1 && #[trigger] hs[j] is Some implies exists|g3: int|
                                0 <= g3 < ks@.len() && ks@[g3].group.size == es[j].size && ks@[g3].hex@ == hex_of(hs[j]->Some_0) by {
                                if j < i {
                                    let g3 = choose|g3: int| 0 <= g3 < before.len() && before[g3].group.size == es[j].size && before[g3].hex@ == hex_of(hs[j]->Some_0);
                                    if g3 < pos {
                                        assert(ks@[g3] == before[g3]);
                                    } else {
                                        assert(ks@[g3 + 1] == before[g3]);
                                    }
                                } else {
                                    assert(ks@[pos as int].group.size == es[j].size);
                                }
                            }
                        }
                    },
                }
            },
        }
        i += 1;
    }
    let ghost all = ks@;
    let mut r: Vec<CandidateGroup> = Vec::new();
    let ghost mut idx: Seq<int> = Seq::empty();
    let total = ks.len();
    let mut taken: usize = 0;
    while taken < total
        invariant
            total == all.len(),
            taken <= total,
            ks@ == all,
            forall|g: int| 0 <= g < all.len() ==> {
                &&& (#[trigger] all[g]).key_ok()
                &&& index_view(all[g].group.members@) == members_upto(es, hs, all[g].group.size, all[g].hex@, n as nat)
            },
            forall|g1: int, g2: int| 0 <= g1 < g2 < all.len() ==>
                key_before((#[trigger] all[g1]).group.size, all[g1].hex@, (#[trigger] all[g2]).group.size, all[g2].hex@),
            idx.len() == r@.len(),
            forall|k: int| 0 <= k < r@.len() ==> {
                &&& 0 <= #[trigger] idx[k] < taken
                &&& r@[k].size == all[idx[k]].group.size
                &&& r@[k].hash@ == all[idx[k]].group.hash@
                &&& r@[k].members@ == all[idx[k]].group.members@
                &&& r@[k].members@.len() >= 2
            },
            forall|k1: int, k2: int| 0 <= k1 < k2 < r@.len() ==> #[trigger] idx[k1] < #[trigger] idx[k2],
            forall|g: int| 0 <= g < taken && (#[trigger] all[g]).group.members@.len() >= 2 ==>
                exists|k: int| 0 <= k < r@.len() && idx[k] == g,
        decreases total - taken,
    {
        if ks[taken].group.members.len() >= 2 {
            r.push(clone_group(&ks[taken].group));
            proof {
                let ghost old_idx = idx;
                idx = idx.push(taken as int);
                assert forall|g: int| 0 <= g < taken + 1 && (#[trigger] all[g]).group.members@.len() >= 2 implies
                    exists|k2: int| 0 <= k2 < r@.len() && idx[k2] == g by {
                    if g == taken {
                        assert(idx[r@.len() - 1] == g);
                    } else {
                        let k2 = choose|k2: int| 0 <= k2 < old_idx.len() && old_idx[k2] == g;
                        assert(idx[k2] == old_idx[k2]);
                    }
                }
            }
        }
        taken += 1;
    }
    proof {
        assert forall|g1: int, g2: int| 0 <= g1 < g2 < r@.len() implies key_before(
            (#[trigger] r@[g1]).size,
            hex_of(r@[g1].hash@),
            (#[trigger] r@[g2]).size,
            hex_of(r@[g2].hash@),
        ) by {
            assert(idx[g1] < idx[g2]);
            assert(all[idx[g1]].key_ok());
            assert(all[idx[g2]].key_ok());
        }
        assert forall|g: int| 0 <= g < r@.len() implies {
            &&& index_view((#[trigger] r@[g]).members@) == members_of(es, hs, r@[g].size, hex_of(r@[g].hash@))
            &&& r@[g].members@.len() >= 2
        } by {
            assert(all[idx[g]].key_ok());
        }
        assert forall|j: int|
            0 <= j < entries@.len() && #[trigger] hs[j] is Some && members_of(es, hs, es[j].size, hex_of(hs[j]->Some_0)).len() >= 2
            implies exists|g: int| 0 <= g < r@.len() && r@[g].size == entries@[j].size && hex_of(r@[g].hash@) == hex_of(hs[j]->Some_0) by {
            let g = choose|g: int| 0 <= g < all.len() && all[g].group.size == es[j].size && all[g].hex@ == hex_of(hs[j]->Some_0);
            assert(all[g].key_ok());
            assert(es[j] == entries@[j]@);
            let k = choose|k: int| 0 <= k < r@.len() && idx[k] == g;
            assert(r@[k].size == all[g].group.size);
        }
    }
    r
}

proof fn lemma_key_trans(s1: u64, h1: Seq<char>, s2: u64, h2: Seq<char>, s3: u64, h3: Seq<char>)
    requires
        key_before(s1, h1, s2, h2),
        key_before(s2, h2, s3, h3),
    ensures
        key_before(s1, h1, s3, h3),
{
    if s1 == s2 && s2 == s3 {
        crate::order_laws::lemma_lex_trans(h1, h2, h3);
        if lex(h1, h3) == 0 {
            crate::order_laws::lemma_lex_zero(h1, h3);
            crate::order_laws::lemma_lex_antisym(h1, h2);
        }
    }
}

proof fn lemma_key_total(s1: u64, h1: Seq<char>, s2: u64, h2: Seq<char>)
    ensures
        key_before(s1, h1, s2, h2) || key_before(s2, h2, s1, h1) || (s1 == s2 && h1 == h2),
        !(key_before(s1, h1, s2, h2) && key_before(s2, h2, s1, h1)),
        !key_before(s1, h1, s1, h1),
{
    crate::order_laws::lemma_lex_antisym(h1, h2);
    crate::order_laws::lemma_lex_range(h1, h2);
    crate::order_laws::lemma_lex_refl(h1);
    if lex(h1, h2) == 0 {
        crate::order_laws::lemma_lex_zero(h1, h2);
    }
}

/// Where the key (`size`, `hex`) stands in the sorted `ks`: the first
/// position whose key is not before it, and whether that key is it.
fn locate_key(ks: &Vec<Keyed>, size: u64, hex: &Vec<char>) -> (r: (usize, bool))
    requires
        forall|g1: int, g2: int| 0 <= g1 < g2 < ks@.len() ==>
            key_before((#[trigger] ks@[g1]).group.size, ks@[g1].hex@, (#[trigger] ks@[g2]).group.size, ks@[g2].hex@),
    ensures
        r.0 <= ks@.len(),
        forall|g: int| 0 <= g < r.0 ==> key_before((#[trigger] ks@[g]).group.size, ks@[g].hex@, size, hex@),
        r.1 ==> r.0 < ks@.len() && ks@[r.0 as int].group.size == size && ks@[r.0 as int].hex@ == hex@,
        !r.1 ==> r.0 < ks@.len() ==> key_before(size, hex@, ks@[r.0 as int].group.size, ks@[r.0 as int].hex@),
        !r.1 ==> forall|g: int| 0 <= g < ks@.len() ==> !((#[trigger] ks@[g]).group.size == size && ks@[g].hex@ == hex@),
{
    let mut lo: usize = 0;
    let mut hi: usize = ks.len();
    while lo < hi
        invariant
            lo <= hi <= ks@.len(),
            forall|g1: int, g2: int| 0 <= g1 < g2 < ks@.len() ==>
                key_before((#[trigger] ks@[g1]).group.size, ks@[g1].hex@, (#[trigger] ks@[g2]).group.size, ks@[g2].hex@),
            forall|g: int| 0 <= g < lo ==> key_before((#[trigger] ks@[g]).group.size, ks@[g].hex@, size, hex@),
            forall|g: int| hi <= g < ks@.len() ==> !key_before((#[trigger] ks@[g]).group.size, ks@[g].hex@, size, hex@),
        decreases hi - lo,
    {
        let mid = lo + (hi - lo) / 2;
        let l = lex_order(&ks[mid].hex, hex);
        if ks[mid].group.size < size || (ks[mid].group.size == size && l < 0) {
            proof {
                assert forall|g: int| 0 <= g < mid + 1 implies key_before((#[trigger] ks@[g]).group.size, ks@[g].hex@, size, hex@) by {
                    if g < mid {
                        lemma_key_trans(ks@[g].group.size, ks@[g].hex@, ks@[mid as int].group.size, ks@[mid as int].hex@, size, hex@);
                    }
                }
            }
            lo = mid + 1;
        } else {
            proof {
                assert forall|g: int| mid <= g < ks@.len() implies !key_before((#[trigger] ks@[g]).group.size, ks@[g].hex@, size, hex@) by {
                    if g > mid && key_before(ks@[g].group.size, ks@[g].hex@, size, hex@) {
                        lemma_key_trans(ks@[mid as int].group.size, ks@[mid as int].hex@, ks@[g].group.size, ks@[g].hex@, size, hex@);
                    }
                }
            }
            hi = mid;
        }
    }
    let g = lo;
    if g < ks.len() {
        let l = lex_order(&ks[g].hex, hex);
        if ks[g].group.size == size && l == 0 {
            proof {
                crate::order_laws::lemma_lex_zero(ks@[g as int].hex@, hex@);
            }
            return (g, true);
        }
        proof {
            lemma_key_total(ks@[g as int].group.size, ks@[g as int].hex@, size, hex@);
            if ks@[g as int].group.size == size && ks@[g as int].hex@ == hex@ {
                crate::order_laws::lemma_lex_refl(hex@);
            }
            assert(key_before(size, hex@, ks@[g as int].group.size, ks@[g as int].hex@));
            assert forall|g2: int| 0 <= g2 < ks@.len() implies !((#[trigger] ks@[g2]).group.size == size && ks@[g2].hex@ == hex@) by {
                lemma_key_total(size, hex@, size, hex@);
                if g2 > g {
                    lemma_key_trans(size, hex@, ks@[g as int].group.size, ks@[g as int].hex@, ks@[g2].group.size, ks@[g2].hex@);
                }
            }
        }
        return (g, false);
    }
    proof {
        assert forall|g2: int| 0 <= g2 < ks@.len() implies !((#[trigger] ks@[g2]).group.size == size && ks@[g2].hex@ == hex@) by {
            lemma_key_total(size, hex@, size, hex@);
        }
    }
    (g, false)
}

/// No file below `i` has key (`size`, `hex`) when no group of that key exists yet.
proof fn lemma_members_none(es: Seq<FileEntryView>, hs: Seq<Option<Seq<u8>>>, size: u64, hex: Seq<char>, i: nat)
    requires
        i <= es.len(),
        forall|j: int| 0 <= j < i ==> !key_matches(es, hs, j, size, hex),
    ensures
        members_upto(es, hs, size, hex, i) == Seq::<int>::empty(),
    decreases i,
{
    if i > 0 {
        lemma_members_none(es, hs, size, hex, (i - 1) as nat);
    }
}

/// The outcome of comparing a file byte for byte with the representative of
/// a cluster.
pub enum Comparison {
    Same,
    Different,
    /// One of the two files could not be read; the text says why.
    Unreadable(String),
}

pub open spec fn ascending(s: Seq<usize>) -> bool {
    forall|a: int, b: int| 0 <= a < b < s.len() ==> s[a] < s[b]
}

/// Splits the members of one candidate group into clusters of identical
/// files. Each member is compared with the representative (first member) of
/// each cluster in turn: on `Same` it joins that cluster, on `Different` it
/// goes on to the next cluster, and when no cluster is left it founds a new
/// one. A member that cannot be read joins no cluster: it is kept.
pub struct Clustering {
    /// File indices of the candidate group, ascending.
    pub members: Vec<usize>,
    /// Each cluster as positions in `members`, ascending.
    pub clusters: Vec<Vec<usize>>,
    /// Position of the member being placed.
    pub next_member: usize,
    /// Cluster whose representative it is compared with next.
    pub next_cluster: usize,
    /// Position in `members` and reason of each member that could not be
    /// compared.
    pub failures: Vec<(usize, String)>,
    /// Pairs (representative, member) of file indices reported identical.
    pub same: Ghost<Set<(int, int)>>,
}

impl Clustering {
    pub open spec fn clusters_view(&self) -> Seq<Seq<usize>> {
        self.clusters@.map_values(|c: Vec<usize>| c@)
    }

    pub open spec fn failures_view(&self) -> Seq<(usize, Seq<char>)> {
        self.failures@.map_values(|f: (usize, String)| (f.0, f.1@))
    }

    /// File index of the representative of cluster `c`.
    pub open spec fn rep_of(&self, c: int) -> int {
        self.members@[self.clusters@[c]@[0] as int] as int
    }

    pub open spec fn wf(&self) -> bool {
        &&& ascending(self.members@)
        &&& self.next_member <= self.members@.len()
        &&& self.next_cluster <= self.clusters@.len()
        &&& forall|c: int| 0 <= c < self.clusters@.len() ==> {
            &&& (#[trigger] self.clusters@[c])@.len() >= 1
            &&& ascending(self.clusters@[c]@)
            &&& forall|j: int| 0 <= j < self.clusters@[c]@.len() ==> self.clusters@[c]@[j] < self.next_member
        }
        &&& forall|c1: int, c2: int, j1: int, j2: int|
            0 <= c1 < self.clusters@.len() && 0 <= c2 < self.clusters@.len() && c1 != c2
                && 0 <= j1 < self.clusters@[c1]@.len() && 0 <= j2 < self.clusters@[c2]@.len()
                ==> #[trigger] self.clusters@[c1]@[j1] != #[trigger] self.clusters@[c2]@[j2]
        &&& forall|c: int, j: int| 0 <= c < self.clusters@.len() && 0 < j < self.clusters@[c]@.len()
            ==> self.same@.contains((self.rep_of(c), #[trigger] self.members@[self.clusters@[c]@[j] as int] as int))
        &&& forall|f: int| 0 <= f < self.failures@.len() ==> (#[trigger] self.failures@[f]).0 < self.next_member
        &&& forall|f: int, c: int, j: int| 0 <= f < self.failures@.len() && 0 <= c < self.clusters@.len()
            && 0 <= j < self.clusters@[c]@.len() ==> (#[trigger] self.failures@[f]).0 != #[trigger] self.clusters@[c]@[j]
    }

    /// A comparison is waiting for its outcome.
    pub open spec fn pending(&self) -> bool {
        self.next_member < self.members@.len() && self.next_cluster < self.clusters@.len()
    }

    /// Every member has been placed.
    pub open spec fn done(&self) -> bool {
        self.next_member == self.members@.len()
    }

    /// Starts on the members (file indices, ascending) of a candidate group.
    pub fn new(members: Vec<usize>) -> (r: Self)
        requires
            ascending(members@),
        ensures
            r.wf(),
            r.members@ == members@,
            r.clusters_view() == Seq::<Seq<usize>>::empty(),
            r.next_member == 0,
            r.next_cluster == 0,
            r.failures_view() == Seq::<(usize, Seq<char>)>::empty(),
            r.same@ == Set::<(int, int)>::empty(),
    {
        let r = Clustering {
            members,
            clusters: Vec::new(),
            next_member: 0,
            next_cluster: 0,
            failures: Vec::new(),
            same: Ghost(Set::empty()),
        };
        assert(r.clusters_view() =~= Seq::<Seq<usize>>::empty());
        assert(r.failures_view() =~= Seq::<(usize, Seq<char>)>::empty());
        r
    }

    /// The next pair of files to compare: (representative, member), as file
    /// indices; `None` once every member is placed. A member left with no
    /// cluster to compare with founds a new cluster first.
    pub fn next_pair(&mut self) -> (r: Option<(usize, usize)>)
        requires
            old(self).wf(),
        ensures
            final(self).wf(),
            final(self).members@ == old(self).members@,
            final(self).failures_view() == old(self).failures_view(),
            final(self).same@ == old(self).same@,
            old(self).next_member < old(self).members@.len() && old(self).next_cluster == old(self).clusters@.len() ==> {
                &&& final(self).clusters_view() == old(self).clusters_view().push(seq![old(self).next_member])
                &&& final(self).next_member == old(self).next_member + 1
                &&& final(self).next_cluster == 0
            },
            !(old(self).next_member < old(self).members@.len() && old(self).next_cluster == old(self).clusters@.len()) ==> {
                &&& final(self).clusters_view() == old(self).clusters_view()
                &&& final(self).next_member == old(self).next_member
                &&& final(self).next_cluster == old(self).next_cluster
            },
            r is Some <==> final(self).pending(),
            r matches Some(p) ==> p.0 == final(self).rep_of(final(self).next_cluster as int)
                && p.1 == final(self).members@[final(self).next_member as int],
    {
        let ghost before = self.clusters_view();
        if self.next_member < self.members.len() && self.next_cluster == self.clusters.len() {
            let mut c: Vec<usize> = Vec::new();
            c.push(self.next_member);
            self.clusters.push(c);
            self.next_member = self.next_member + 1;
            self.next_cluster = 0;
            assert(self.clusters_view() =~= before.push(seq![(self.next_member - 1) as usize]));
        }
        if self.next_member < self.members.len() && self.next_cluster < self.clusters.len() {
            let rep = self.members[self.clusters[self.next_cluster][0]];
            Some((rep, self.members[self.next_member]))
        } else {
            None
        }
    }

    /// Records the outcome of the pending comparison.
    pub fn record(&mut self, outcome: Comparison)
        requires
            old(self).wf(),
            old(self).pending(),
        ensures
            final(self).wf(),
            final(self).members@ == old(self).members@,
            match outcome {
                Comparison::Same => {
                    &&& final(self).clusters_view() == old(self).clusters_view().update(
                        old(self).next_cluster as int,
                        old(self).clusters_view()[old(self).next_cluster as int].push(old(self).next_member),
                    )
                    &&& final(self).next_member == old(self).next_member + 1
                    &&& final(self).next_cluster == 0
                    &&& final(self).failures_view() == old(self).failures_view()
                    &&& final(self).same@ == old(self).same@.insert((
                        old(self).rep_of(old(self).next_cluster as int),
                        old(self).members@[old(self).next_member as int] as int,
                    ))
                },
                Comparison::Different => {
                    &&& final(self).clusters_view() == old(self).clusters_view()
                    &&& final(self).next_member == old(self).next_member
                    &&& final(self).next_cluster == old(self).next_cluster + 1
                    &&& final(self).failures_view() == old(self).failures_view()
                    &&& final(self).same@ == old(self).same@
                },
                Comparison::Unreadable(why) => {
                    &&& final(self).clusters_view() == old(self).clusters_view()
                    &&& final(self).next_member == old(self).next_member + 1
                    &&& final(self).next_cluster == 0
                    &&& final(self).failures_view() == old(self).failures_view().push((old(self).next_member, why@))
                    &&& final(self).same@ == old(self).same@
                },
            },
    {
        let ghost cv0 = self.clusters_view();
        let ghost fv0 = self.failures_view();
        let ghost old_self = *self;
        let _n_members = self.members.len();
        let _n_clusters = self.clusters.len();
        match outcome {
            Comparison::Same => {
                let nc = self.next_cluster;
                let nm = self.next_member;
                let ghost pair = (old_self.rep_of(nc as int), self.members@[nm as int] as int);
                self.clusters[nc].push(nm);
                self.next_member = nm + 1;
                self.next_cluster = 0;
                proof {
                    self.same = Ghost(self.same@.insert(pair));
                    assert(self.clusters_view() =~= cv0.update(nc as int, cv0[nc as int].push(nm)));
                    assert forall|c: int| 0 <= c < self.clusters@.len() implies {
                        &&& (#[trigger] self.clusters@[c])@.len() >= 1
                        &&& ascending(self.clusters@[c]@)
                        &&& forall|j: int| 0 <= j < self.clusters@[c]@.len() ==> self.clusters@[c]@[j] < self.next_member
                    } by {
                        if c != nc {
                            assert(self.clusters@[c] == old_self.clusters@[c]);
                        } else {
                            assert(self.clusters@[c]@ == old_self.clusters@[c]@.push(nm));
                        }
                    }
                    assert forall|c1: int, c2: int, j1: int, j2: int|
                        0 <= c1 < self.clusters@.len() && 0 <= c2 < self.clusters@.len() && c1 != c2
                            && 0 <= j1 < self.clusters@[c1]@.len() && 0 <= j2 < self.clusters@[c2]@.len()
                            implies #[trigger] self.clusters@[c1]@[j1] != #[trigger] self.clusters@[c2]@[j2] by {
                        if c1 != nc && c2 != nc {
                            assert(self.clusters@[c1] == old_self.clusters@[c1]);
                            assert(self.clusters@[c2] == old_self.clusters@[c2]);
                        } else if c1 == nc {
                            assert(self.clusters@[c2] == old_self.clusters@[c2]);
                            assert(self.clusters@[c1]@ == old_self.clusters@[c1]@.push(nm));
                            if j1 < old_self.clusters@[c1]@.len() {
                                assert(old_self.clusters@[c1]@[j1] != old_self.clusters@[c2]@[j2]);
                            }
                        } else {
                            assert(self.clusters@[c1] == old_self.clusters@[c1]);
                            assert(self.clusters@[c2]@ == old_self.clusters@[c2]@.push(nm));
                            if j2 < old_self.clusters@[c2]@.len() {
                                assert(old_self.clusters@[c1]@[j1] != old_self.clusters@[c2]@[j2]);
                            }
                        }
                    }
                    assert forall|c: int, j: int| 0 <= c < self.clusters@.len() && 0 < j < self.clusters@[c]@.len()
                        implies self.same@.contains((self.rep_of(c), #[trigger] self.members@[self.clusters@[c]@[j] as int] as int)) by {
                        if c != nc {
                            assert(self.clusters@[c] == old_self.clusters@[c]);
                            assert(old_self.same@.contains((old_self.rep_of(c), old_self.members@[old_self.clusters@[c]@[j] as int] as int)));
                        } else {
                            assert(self.clusters@[c]@ == old_self.clusters@[c]@.push(nm));
                            if j < old_self.clusters@[c]@.len() {
                                assert(old_self.same@.contains((old_self.rep_of(c), old_self.members@[old_self.clusters@[c]@[j] as int] as int)));
                            }
                        }
                    }
                }
            },
            Comparison::Different => {
                self.next_cluster = self.next_cluster + 1;
            },
            Comparison::Unreadable(why) => {
                let nm = self.next_member;
                self.failures.push((nm, why));
                self.next_member = nm + 1;
                self.next_cluster = 0;
                assert(self.failures_view() =~= fv0.push((nm, why@)));
                assert(self.clusters_view() =~= cv0);
            },
        }
    }
}

/// Two sequences holding the same items hold the same images under `f`.
pub proof fn lemma_multiset_map<A, B>(s1: Seq<A>, s2: Seq<A>, f: spec_fn(A) -> B)
    requires
        s1.to_multiset() == s2.to_multiset(),
    ensures
        s1.map_values(f).to_multiset() == s2.map_values(f).to_multiset(),
    decreases s1.len(),
{
    broadcast use vstd::seq_lib::group_to_multiset_ensures;
    if s1.len() == 0 {
        assert(s2.to_multiset().len() == 0);
        assert(s1.map_values(f) =~= Seq::<B>::empty());
        assert(s2.map_values(f) =~= Seq::<B>::empty());
    } else {
        let x = s1.last();
        assert(s1.drop_last().push(x) =~= s1);
        assert(s1.contains(x)) by {
            assert(s1[s1.len() - 1] == x);
        }
        assert(s2.to_multiset().count(x) > 0);
        assert(s2.contains(x));
        let i = choose|i: int| 0 <= i < s2.len() && s2[i] == x;
        assert(s1.drop_last().to_multiset() =~= s2.remove(i).to_multiset()) by {
            assert(s1.to_multiset() == s1.drop_last().to_multiset().insert(x));
            assert(s2.remove(i).to_multiset() == s2.to_multiset().remove(x));
        }
        lemma_multiset_map(s1.drop_last(), s2.remove(i), f);
        assert(s1.map_values(f) =~= s1.drop_last().map_values(f).push(f(x)));
        assert(s2.remove(i).map_values(f) =~= s2.map_values(f).remove(i));
        let m2 = s2.map_values(f);
        assert(m2[i] == f(x));
        assert(m2.remove(i).to_multiset() == m2.to_multiset().remove(f(x)));
        assert(m2.to_multiset().count(f(x)) > 0) by {
            assert(m2.contains(f(x)));
        }
        assert(m2.to_multiset().remove(f(x)).insert(f(x)) =~= m2.to_multiset());
        assert(s1.map_values(f).to_multiset() == s1.drop_last().map_values(f).to_multiset().insert(f(x)));
    }
}

/// The clusters of two or more files, in order.
pub open spec fn big_clusters(cv: Seq<Seq<usize>>) -> Seq<Seq<usize>>
    decreases cv.len(),
{
    if cv.len() == 0 {
        Seq::empty()
    } else {
        let p = big_clusters(cv.drop_last());
        if cv.last().len() >= 2 {
            p.push(cv.last())
        } else {
            p
        }
    }
}


/// The entries at the positions `ps` of `members`.
pub open spec fn entries_at(entries: Seq<FileEntry>, members: Seq<usize>, ps: Seq<usize>) -> Seq<FileEntryView> {
    ps.map_values(|p: usize| entries[members[p as int] as int]@)
}

/// The start of the message recorded for a file that could not be compared.
pub const VERIFY_FAILED: &'static str = "内容二次验证失败: ";

impl Clustering {
    /// The duplicate groups of a finished clustering: one per cluster of two
    /// or more files, in cluster order, keeping the first member and listing
    /// the others in natural order of names; and one error per member that
    /// could not be compared.
    pub fn into_groups(&self, entries: &[FileEntry], group: &CandidateGroup) -> (r: (Vec<DuplicateGroup>, Vec<FileError>))
        requires
            self.wf(),
            self.done(),
            forall|p: int| 0 <= p < self.members@.len() ==> (#[trigger] self.members@[p]) < entries@.len(),
        ensures
            r.0@.len() == big_clusters(self.clusters_view()).len(),
            forall|k: int| 0 <= k < r.0@.len() ==> {
                let cl = big_clusters(self.clusters_view())[k];
                &&& (#[trigger] r.0@[k]).size == group.size
                &&& r.0@[k].hash@ == group.hash@
                &&& r.0@[k].keep@ == entries@[self.members@[cl[0] as int] as int]@
                &&& r.0@[k].duplicates@.map_values(|e: FileEntry| e@).to_multiset()
                    == entries_at(entries@, self.members@, cl.drop_first()).to_multiset()
                &&& names_in_order(r.0@[k].duplicates@)
            },
            r.1@.len() == self.failures@.len(),
            forall|j: int| 0 <= j < r.1@.len() ==> {
                &&& (#[trigger] r.1@[j]).operation@ == "verify"@
                &&& r.1@[j].message@ == VERIFY_FAILED@ + self.failures_view()[j].1
                &&& r.1@[j].path@ == shown(entries@[self.members@[self.failures_view()[j].0 as int] as int].path)
            },
    {
        let ghost cv = self.clusters_view();
        let mut groups: Vec<DuplicateGroup> = Vec::new();
        let mut c: usize = 0;
        while c < self.clusters.len()
            invariant
                self.wf(),
                cv == self.clusters_view(),
                c <= self.clusters@.len(),
                forall|p: int| 0 <= p < self.members@.len() ==> (#[trigger] self.members@[p]) < entries@.len(),
                groups@.len() == big_clusters(cv.take(c as int)).len(),
                forall|k: int| 0 <= k < groups@.len() ==> {
                    let cl = big_clusters(cv.take(c as int))[k];
                    &&& (#[trigger] groups@[k]).size == group.size
                    &&& groups@[k].hash@ == group.hash@
                    &&& groups@[k].keep@ == entries@[self.members@[cl[0] as int] as int]@
                    &&& groups@[k].duplicates@.map_values(|e: FileEntry| e@).to_multiset()
                        == entries_at(entries@, self.members@, cl.drop_first()).to_multiset()
                    &&& names_in_order(groups@[k].duplicates@)
                },
            decreases self.clusters@.len() - c,
        {
            assert(cv.take(c + 1).drop_last() =~= cv.take(c as int));
            assert(cv.take(c + 1).last() == self.clusters@[c as int]@);
            let ghost cl = self.clusters@[c as int]@;
            assert(self.clusters@[c as int]@.len() >= 1);
            if self.clusters[c].len() >= 2 {
                let keep = entries[self.members[self.clusters[c][0]]].clone();
                let mut dups: Vec<FileEntry> = Vec::new();
                let mut j: usize = 1;
                while j < self.clusters[c].len()
                    invariant
                        self.wf(),
                        c < self.clusters@.len(),
                        cl == self.clusters@[c as int]@,
                        1 <= j <= cl.len(),
                        forall|p: int| 0 <= p < self.members@.len() ==> (#[trigger] self.members@[p]) < entries@.len(),
                        dups@.map_values(|e: FileEntry| e@) == entries_at(entries@, self.members@, cl.subrange(1, j as int)),
                    decreases cl.len() - j,
                {
                    let ghost before = dups@;
                    let e = entries[self.members[self.clusters[c][j]]].clone();
                    assert(e@ == entries@[self.members@[cl[j as int] as int] as int]@);
                    dups.push(e);
                    assert(dups@ == before.push(e));
                    assert(dups@.map_values(|e: FileEntry| e@) =~= before.map_values(|e: FileEntry| e@).push(e@));
                    assert(cl.subrange(1, j + 1) =~= cl.subrange(1, j as int).push(cl[j as int]));
                    assert(entries_at(entries@, self.members@, cl.subrange(1, j + 1)) =~= entries_at(entries@, self.members@, cl.subrange(1, j as int)).push(e@));
                    j += 1;
                }
                assert(cl.subrange(1, cl.len() as int) =~= cl.drop_first());
                let ghost unsorted = dups@;
                sort_names(&mut dups);
                proof {
                    lemma_multiset_map(dups@, unsorted, |e: FileEntry| e@);
                }
                groups.push(DuplicateGroup { size: group.size, hash: group.hash.clone(), keep, duplicates: dups });
            }
            c += 1;
        }
        assert(cv.take(self.clusters@.len() as int) =~= cv);
        let mut errors: Vec<FileError> = Vec::new();
        let mut f: usize = 0;
        while f < self.failures.len()
            invariant
                self.wf(),
                self.done(),
                forall|p: int| 0 <= p < self.members@.len() ==> (#[trigger] self.members@[p]) < entries@.len(),
                f <= self.failures@.len(),
                errors@.len() == f,
                forall|j: int| 0 <= j < errors@.len() ==> {
                    &&& (#[trigger] errors@[j]).operation@ == "verify"@
                    &&& errors@[j].message@ == VERIFY_FAILED@ + self.failures_view()[j].1
                    &&& errors@[j].path@ == shown(entries@[self.members@[self.failures_view()[j].0 as int] as int].path)
                },
            decreases self.failures@.len() - f,
        {
            let (pos, why) = &self.failures[f];
            assert(self.failures@[f as int].0 < self.members@.len());
            let mut msg = String::new();
            push_str(&mut msg, VERIFY_FAILED);
            push_str(&mut msg, why.as_str());
            let path = &entries[self.members[*pos]].path;
            errors.push(FileError::new("verify", path, msg));
            f += 1;
        }
        (groups, errors)
    }
}

/// What duplicate detection found: the groups of identical files and the
/// files that could not be compared.
pub struct Detection {
    pub groups: Vec<DuplicateGroup>,
    pub errors: Vec<FileError>,
}

impl Detection {
    pub fn new() -> (r: Self)
        ensures
            r.groups@.len() == 0,
            r.errors@.len() == 0,
    {
        Detection { groups: Vec::new(), errors: Vec::new() }
    }

    /// Appends what one candidate group gave.
    pub fn absorb(&mut self, groups: Vec<DuplicateGroup>, errors: Vec<FileError>)
        ensures
            final(self).groups@ == old(self).groups@ + groups@,
            final(self).errors@ == old(self).errors@ + errors@,
    {
        let mut groups = groups;
        let mut errors = errors;
        self.groups.append(&mut groups);
        self.errors.append(&mut errors);
    }
}

/// Every file of a candidate group is a hashed file of the group's size and
/// digest, and its files are listed once each, in ascending order.
pub proof fn law_candidates_share_size_and_digest(
    es: Seq<FileEntryView>,
    hs: Seq<Option<Seq<u8>>>,
    size: u64,
    hex: Seq<char>,
    j: int,
    k: int,
)
    requires
        0 <= j < k < members_of(es, hs, size, hex).len(),
    ensures
        key_matches(es, hs, members_of(es, hs, size, hex)[j], size, hex),
        members_of(es, hs, size, hex)[j] < members_of(es, hs, size, hex)[k],
        0 <= members_of(es, hs, size, hex)[k] < es.len(),
{
    lemma_members_bounds(es, hs, size, hex, es.len());
}

} // verus!
