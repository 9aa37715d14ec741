//! Laws of duplicate detection: what every group that it reports guarantees.

use vstd::prelude::*;
use crate::duplicate_detector::{Clustering, big_clusters};
use crate::models::FileEntry;
use crate::sorter::{names_in_order, natural_order, NaturalName};
use crate::sorter::lowering_keeps_digits;
use crate::order_laws::law_sorted_names_pairwise;

verus! {

/// Where each cluster of two or more files stands among all clusters.
pub open spec fn big_positions(cv: Seq<Seq<usize>>) -> Seq<int>
    decreases cv.len(),
{
    if cv.len() == 0 {
        Seq::empty()
    } else {
        let p = big_positions(cv.drop_last());
        if cv.last().len() >= 2 {
            p.push(cv.len() - 1)
        } else {
            p
        }
    }
}

proof fn lemma_big_positions(cv: Seq<Seq<usize>>)
    ensures
        big_positions(cv).len() == big_clusters(cv).len(),
        forall|k: int| 0 <= k < big_positions(cv).len() ==> {
            &&& 0 <= #[trigger] big_positions(cv)[k] < cv.len()
            &&& big_clusters(cv)[k] == cv[big_positions(cv)[k]]
            &&& cv[big_positions(cv)[k]].len() >= 2
        },
        forall|k1: int, k2: int| 0 <= k1 < k2 < big_positions(cv).len()
            ==> #[trigger] big_positions(cv)[k1] < #[trigger] big_positions(cv)[k2],
    decreases cv.len(),
{
    if cv.len() > 0 {
        let p = cv.drop_last();
        lemma_big_positions(p);
        assert forall|k: int| 0 <= k < big_positions(p).len() implies cv[big_positions(p)[k]] == p[big_positions(p)[k]] by {}
    }
}

/// Every file that a group lists as a duplicate was reported identical, byte
/// for byte, to the file that the group keeps; and the kept file is the one
/// of the group that comes first in the (naturally sorted) listing.
pub proof fn law_duplicates_match_kept(cl: Clustering, k: int, j: int)
    requires
        cl.wf(),
        0 <= k < big_clusters(cl.clusters_view()).len(),
        0 < j < big_clusters(cl.clusters_view())[k].len(),
    ensures
        cl.same@.contains((
            cl.members@[big_clusters(cl.clusters_view())[k][0] as int] as int,
            cl.members@[big_clusters(cl.clusters_view())[k][j] as int] as int,
        )),
        cl.members@[big_clusters(cl.clusters_view())[k][0] as int] < cl.members@[big_clusters(cl.clusters_view())[k][j] as int],
{
    let cv = cl.clusters_view();
    lemma_big_positions(cv);
    let c = big_positions(cv)[k];
    assert(cv[c] == cl.clusters@[c]@);
    assert(cl.clusters@[c]@.len() >= 1);
    assert(cl.same@.contains((cl.rep_of(c), cl.members@[cl.clusters@[c]@[j] as int] as int)));
    assert(cl.clusters@[c]@[0] < cl.clusters@[c]@[j]);
}

/// No file stands in two groups, nor twice in one group: the kept file is
/// never among the duplicates, and no duplicate is listed twice.
pub proof fn law_groups_disjoint(cl: Clustering, k1: int, j1: int, k2: int, j2: int)
    requires
        cl.wf(),
        0 <= k1 < big_clusters(cl.clusters_view()).len(),
        0 <= k2 < big_clusters(cl.clusters_view()).len(),
        0 <= j1 < big_clusters(cl.clusters_view())[k1].len(),
        0 <= j2 < big_clusters(cl.clusters_view())[k2].len(),
        k1 != k2 || j1 != j2,
    ensures
        cl.members@[big_clusters(cl.clusters_view())[k1][j1] as int]
            != cl.members@[big_clusters(cl.clusters_view())[k2][j2] as int],
{
    let cv = cl.clusters_view();
    lemma_big_positions(cv);
    let c1 = big_positions(cv)[k1];
    let c2 = big_positions(cv)[k2];
    if k1 != k2 {
        if k1 < k2 {
            assert(big_positions(cv)[k1] < big_positions(cv)[k2]);
        } else {
            assert(big_positions(cv)[k2] < big_positions(cv)[k1]);
        }
    }
    assert(cv[c1] == cl.clusters@[c1]@ && cv[c2] == cl.clusters@[c2]@);
    let p1 = cl.clusters@[c1]@[j1];
    let p2 = cl.clusters@[c2]@[j2];
    if c1 == c2 {
        assert(p1 != p2);
    } else {
        assert(p1 != p2);
    }
    assert(p1 < cl.members@.len() && p2 < cl.members@.len());
    if p1 < p2 {
        assert(cl.members@[p1 as int] < cl.members@[p2 as int]);
    } else {
        assert(cl.members@[p2 as int] < cl.members@[p1 as int]);
    }
}

/// A file that could not be compared is in no group: it is kept.
pub proof fn law_unreadable_never_grouped(cl: Clustering, f: int, k: int, j: int)
    requires
        cl.wf(),
        0 <= f < cl.failures@.len(),
        0 <= k < big_clusters(cl.clusters_view()).len(),
        0 <= j < big_clusters(cl.clusters_view())[k].len(),
    ensures
        big_clusters(cl.clusters_view())[k][j] != cl.failures@[f].0,
{
    let cv = cl.clusters_view();
    lemma_big_positions(cv);
    let c = big_positions(cv)[k];
    assert(cv[c] == cl.clusters@[c]@);
    assert(cl.failures@[f].0 != cl.clusters@[c]@[j]);
}

/// When the files are in natural order of names (as a scan leaves them),
/// the file a group keeps comes first in natural order among the group's
/// files.
pub proof fn law_kept_first_in_natural_order(entries: Seq<FileEntry>, cl: Clustering, k: int, j: int)
    requires
        cl.wf(),
        names_in_order(entries),
        forall|i: int| 0 <= i < entries.len() ==> lowering_keeps_digits(#[trigger] entries[i].natural_name()),
        forall|p: int| 0 <= p < cl.members@.len() ==> (#[trigger] cl.members@[p]) < entries.len(),
        0 <= k < big_clusters(cl.clusters_view()).len(),
        0 < j < big_clusters(cl.clusters_view())[k].len(),
    ensures
        natural_order(
            entries[cl.members@[big_clusters(cl.clusters_view())[k][0] as int] as int].file_name@,
            entries[cl.members@[big_clusters(cl.clusters_view())[k][j] as int] as int].file_name@,
        ) <= 0,
{
    let cv = cl.clusters_view();
    law_duplicates_match_kept(cl, k, j);
    lemma_big_positions(cv);
    let c = big_positions(cv)[k];
    assert(cv[c] == cl.clusters@[c]@);
    let keep = cl.members@[big_clusters(cv)[k][0] as int] as int;
    let dup = cl.members@[big_clusters(cv)[k][j] as int] as int;
    law_sorted_names_pairwise(entries, keep, dup);
}

} // verus!
