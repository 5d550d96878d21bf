//! What holds of every run of the merge.
use crate::merge::{event_for, merge, merge_from, EventView};
use crate::order::{acc_le, acc_lt, lemma_acc_order};
use crate::query::{ascending, sorted_of};
use crate::record::Record;
use vstd::prelude::*;

verus! {

broadcast use vstd::seq_lib::group_to_multiset_ensures;

/// For each event of `merge_from(qs, rs, i, j)`, the index of the query and
/// of the row whose comparison produced it.
pub open spec fn event_sources(qs: Seq<Seq<char>>, rs: Seq<Record>, i: int, j: int) -> Seq<
    (int, int),
>
    decreases rs.len() - j,
{
    if i < 0 || i >= qs.len() || j < 0 || j >= rs.len() {
        seq![]
    } else {
        match event_for(qs[i], rs[j]) {
            None => event_sources(qs, rs, i, j + 1),
            Some(_) => seq![(i, j)] + event_sources(qs, rs, i + 1, j + 1),
        }
    }
}

/// Each event comes from one comparison of a query with a row, and both
/// indices strictly increase from one event to the next.
pub proof fn lemma_event_sources(qs: Seq<Seq<char>>, rs: Seq<Record>, i: int, j: int)
    requires
        0 <= i,
        0 <= j,
    ensures
        event_sources(qs, rs, i, j).len() == merge_from(qs, rs, i, j).len(),
        forall|k: int|
            0 <= k < event_sources(qs, rs, i, j).len() ==> {
                let (a, b) = #[trigger] event_sources(qs, rs, i, j)[k];
                &&& i <= a < qs.len()
                &&& j <= b < rs.len()
                &&& event_for(qs[a], rs[b]) == Some(merge_from(qs, rs, i, j)[k])
            },
        forall|k1: int, k2: int|
            0 <= k1 < k2 < event_sources(qs, rs, i, j).len() ==> (#[trigger] event_sources(
                qs,
                rs,
                i,
                j,
            )[k1]).0 < (#[trigger] event_sources(qs, rs, i, j)[k2]).0 && event_sources(
                qs,
                rs,
                i,
                j,
            )[k1].1 < event_sources(qs, rs, i, j)[k2].1,
    decreases rs.len() - j,
{
    if i < qs.len() && j < rs.len() {
        lemma_event_sources(qs, rs, i, j + 1);
        lemma_event_sources(qs, rs, i + 1, j + 1);
        match event_for(qs[i], rs[j]) {
            None => {},
            Some(e) => {
                let src = event_sources(qs, rs, i, j);
                let ev = merge_from(qs, rs, i, j);
                let src1 = event_sources(qs, rs, i + 1, j + 1);
                let ev1 = merge_from(qs, rs, i + 1, j + 1);
                assert(src == seq![(i, j)] + src1);
                assert(ev == seq![e] + ev1);
                assert forall|k: int| 0 < k < src.len() implies src[k] == src1[k - 1] && ev[k]
                    == ev1[k - 1] by {}
            },
        }
    }
}

/// A match is reported only for a query equal to a row's accession, with
/// that row's identifiers; a miss is reported only for a query.
pub proof fn law_reports_are_sound(qs: Seq<Seq<char>>, rs: Seq<Record>)
    ensures
        forall|k: int|
            0 <= k < merge(qs, rs).len() ==> qs.contains(#[trigger] merge(qs, rs)[k].subject()),
        forall|k: int|
            0 <= k < merge(qs, rs).len() && (#[trigger] merge(qs, rs)[k]) is Found ==> exists|
                m: int,
            |
                0 <= m < rs.len() && merge(qs, rs)[k] == EventView::Found(
                    #[trigger] rs[m].accession@,
                    rs[m].taxid,
                    rs[m].gid,
                ),
{
    lemma_event_sources(qs, rs, 0, 0);
    let src = event_sources(qs, rs, 0, 0);
    assert forall|k: int| 0 <= k < merge(qs, rs).len() implies qs.contains(
        #[trigger] merge(qs, rs)[k].subject(),
    ) by {
        let (a, b) = src[k];
        assert(qs[a] == merge(qs, rs)[k].subject());
    }
    assert forall|k: int|
        0 <= k < merge(qs, rs).len() && (#[trigger] merge(qs, rs)[k]) is Found implies exists|
            m: int,
        |
            0 <= m < rs.len() && merge(qs, rs)[k] == EventView::Found(
                #[trigger] rs[m].accession@,
                rs[m].taxid,
                rs[m].gid,
            ) by {
        let (a, b) = src[k];
        assert(rs[b].accession@ == rs[b].accession@);
    }
}

/// Row accessions strictly increase: the table is sorted and holds each
/// accession once.
pub open spec fn rows_strictly_ascending(rs: Seq<Record>) -> bool {
    forall|a: int, b: int|
        0 <= a < b < rs.len() ==> acc_lt(#[trigger] rs[a].accession@, #[trigger] rs[b].accession@)
}

/// Row accessions never decrease: the table is sorted, an accession may
/// repeat.
pub open spec fn rows_ascending(rs: Seq<Record>) -> bool {
    forall|a: int, b: int|
        0 <= a < b < rs.len() ==> acc_le(#[trigger] rs[a].accession@, #[trigger] rs[b].accession@)
}

/// Queries strictly increase: sorted, and each one once.
pub open spec fn strictly_ascending(qs: Seq<Seq<char>>) -> bool {
    forall|a: int, b: int| 0 <= a < b < qs.len() ==> acc_lt(#[trigger] qs[a], #[trigger] qs[b])
}

/// The accessions or queries that the events are about, in order.
pub open spec fn subjects(ev: Seq<EventView>) -> Seq<Seq<char>> {
    ev.map_values(|e: EventView| e.subject())
}

/// In a table that holds each accession once, a match carries the
/// identifiers of the one row with that accession.
pub proof fn law_found_identifiers(qs: Seq<Seq<char>>, rs: Seq<Record>, k: int, m: int)
    requires
        rows_strictly_ascending(rs),
        0 <= k < merge(qs, rs).len(),
        merge(qs, rs)[k] is Found,
        0 <= m < rs.len(),
        rs[m].accession@ == merge(qs, rs)[k].subject(),
    ensures
        merge(qs, rs)[k] == EventView::Found(rs[m].accession@, rs[m].taxid, rs[m].gid),
{
    lemma_event_sources(qs, rs, 0, 0);
    let (a, b) = event_sources(qs, rs, 0, 0)[k];
    lemma_acc_order(rs[m].accession@, rs[b].accession@, rs[m].accession@);
    if m < b {
        assert(acc_lt(rs[m].accession@, rs[b].accession@));
    } else if b < m {
        assert(acc_lt(rs[b].accession@, rs[m].accession@));
    }
}

/// The events follow the ascending order of the queries, whatever order
/// they were given in.
pub proof fn law_events_in_query_order(qs: Seq<Seq<char>>, rs: Seq<Record>)
    requires
        ascending(qs),
    ensures
        ascending(subjects(merge(qs, rs))),
{
    lemma_event_sources(qs, rs, 0, 0);
    let src = event_sources(qs, rs, 0, 0);
    let sub = subjects(merge(qs, rs));
    assert forall|k1: int, k2: int| 0 <= k1 < k2 < sub.len() implies acc_le(
        #[trigger] sub[k1],
        #[trigger] sub[k2],
    ) by {
        let (a1, b1) = src[k1];
        let (a2, b2) = src[k2];
        assert(sub[k1] == qs[a1]);
        assert(sub[k2] == qs[a2]);
        assert(a1 < a2);
    }
}

/// With each query given once, no query is reported twice: after a match the
/// next rows, same accession or not, meet the following queries only.
pub proof fn law_each_query_once(qs: Seq<Seq<char>>, rs: Seq<Record>)
    requires
        strictly_ascending(qs),
    ensures
        forall|k1: int, k2: int|
            0 <= k1 < k2 < merge(qs, rs).len() ==> (#[trigger] merge(qs, rs)[k1]).subject() != (
            #[trigger] merge(qs, rs)[k2]).subject(),
{
    lemma_event_sources(qs, rs, 0, 0);
    let src = event_sources(qs, rs, 0, 0);
    let ev = merge(qs, rs);
    assert forall|k1: int, k2: int| 0 <= k1 < k2 < ev.len() implies (#[trigger] ev[k1]).subject()
        != (#[trigger] ev[k2]).subject() by {
        let (a1, b1) = src[k1];
        let (a2, b2) = src[k2];
        assert(a1 < a2);
        assert(acc_lt(qs[a1], qs[a2]));
        lemma_acc_order(qs[a1], qs[a2], qs[a1]);
    }
}

/// Row `m` is the first row whose accession is `q`.
pub open spec fn first_row_of(rs: Seq<Record>, q: Seq<char>, m: int) -> bool {
    &&& 0 <= m < rs.len()
    &&& rs[m].accession@ == q
    &&& forall|m2: int| 0 <= m2 < m ==> (#[trigger] rs[m2]).accession@ != q
}

/// `e` is the match of query `q` with the first row that holds it.
pub open spec fn found_in_first_row(rs: Seq<Record>, q: Seq<char>, e: EventView) -> bool {
    exists|m: int|
        first_row_of(rs, q, m) && e == EventView::Found(
            #[trigger] rs[m].accession@,
            rs[m].taxid,
            rs[m].gid,
        )
}

/// Some row from `j` on holds accession `q`.
pub open spec fn in_rows_from(rs: Seq<Record>, q: Seq<char>, j: int) -> bool {
    exists|m: int| j <= m < rs.len() && #[trigger] rs[m].accession@ == q
}

/// No row before `j` holds accession `q`.
pub open spec fn absent_before(rs: Seq<Record>, q: Seq<char>, j: int) -> bool {
    forall|m: int| 0 <= m < j ==> (#[trigger] rs[m]).accession@ != q
}

/// Queries from `i` on are all in rows from `j` on, and in no row before `j`.
pub open spec fn ahead(qs: Seq<Seq<char>>, rs: Seq<Record>, i: int, j: int) -> bool {
    forall|k: int|
        i <= k < qs.len() ==> in_rows_from(rs, #[trigger] qs[k], j) && absent_before(rs, qs[k], j)
}

proof fn lemma_all_present_from(qs: Seq<Seq<char>>, rs: Seq<Record>, i: int, j: int)
    requires
        strictly_ascending(qs),
        rows_ascending(rs),
        0 <= i <= qs.len(),
        0 <= j,
        ahead(qs, rs, i, j),
    ensures
        merge_from(qs, rs, i, j).len() == qs.len() - i,
        forall|t: int|
            0 <= t < qs.len() - i ==> found_in_first_row(
                rs,
                qs[i + t],
                #[trigger] merge_from(qs, rs, i, j)[t],
            ),
    decreases rs.len() - j,
{
    if i == qs.len() {
        return;
    }
    if j >= rs.len() {
        let m = choose|m: int| j <= m < rs.len() && #[trigger] rs[m].accession@ == qs[i];
        return;
    }
    let q = qs[i];
    let r = rs[j].accession@;
    lemma_acc_order(q, r, q);
    if q == r {
        assert forall|k: int| i + 1 <= k < qs.len() implies in_rows_from(rs, qs[k], j + 1) && absent_before(rs, qs[k], j + 1) by {
            assert(acc_lt(qs[i], qs[k]));
            lemma_acc_order(qs[i], qs[k], qs[i]);
            let m = choose|m: int| j <= m < rs.len() && #[trigger] rs[m].accession@ == qs[k];
            assert(m != j);
            assert(rs[m].accession@ == qs[k]);
        }
        lemma_all_present_from(qs, rs, i + 1, j + 1);
        let ev = merge_from(qs, rs, i, j);
        let ev1 = merge_from(qs, rs, i + 1, j + 1);
        let e = EventView::Found(rs[j].accession@, rs[j].taxid, rs[j].gid);
        assert(ev == seq![e] + ev1);
        assert(first_row_of(rs, q, j));
        assert(found_in_first_row(rs, q, e));
        assert forall|t: int| 0 <= t < qs.len() - i implies found_in_first_row(
            rs,
            qs[i + t],
            #[trigger] ev[t],
        ) by {
            if t > 0 {
                assert(ev[t] == ev1[t - 1]);
                assert(qs[i + t] == qs[(i + 1) + (t - 1)]);
            }
        }
    } else if acc_lt(q, r) {
        let m = choose|m: int| j <= m < rs.len() && #[trigger] rs[m].accession@ == qs[i];
        assert(m != j);
        assert(acc_le(rs[j].accession@, rs[m].accession@));
    } else {
        assert(acc_lt(r, q));
        assert forall|k: int| i <= k < qs.len() implies in_rows_from(rs, qs[k], j + 1) && absent_before(rs, qs[k], j + 1) by {
            if k > i {
                assert(acc_lt(qs[i], qs[k]));
            }
            lemma_acc_order(r, q, qs[k]);
            lemma_acc_order(r, qs[k], r);
            let m = choose|m: int| j <= m < rs.len() && #[trigger] rs[m].accession@ == qs[k];
            assert(m != j);
            assert(rs[m].accession@ == qs[k]);
        }
        lemma_all_present_from(qs, rs, i, j + 1);
    }
}

/// When every query is in the sorted table, each query is reported once, in
/// order, as a match with the first row that holds it; nothing is reported
/// missing. In a table that holds each accession once, that row is the only
/// one.
pub proof fn law_all_present(qs: Seq<Seq<char>>, rs: Seq<Record>)
    requires
        strictly_ascending(qs),
        rows_ascending(rs),
        forall|k: int| 0 <= k < qs.len() ==> in_rows_from(rs, #[trigger] qs[k], 0),
    ensures
        merge(qs, rs).len() == qs.len(),
        forall|k: int|
            0 <= k < qs.len() ==> found_in_first_row(rs, qs[k], #[trigger] merge(qs, rs)[k]),
{
    assert forall|k: int| 0 <= k < qs.len() implies in_rows_from(rs, #[trigger] qs[k], 0)
        && absent_before(rs, qs[k], 0) by {
    }
    lemma_all_present_from(qs, rs, 0, 0);
    assert forall|k: int| 0 <= k < qs.len() implies found_in_first_row(
        rs,
        qs[k],
        #[trigger] merge(qs, rs)[k],
    ) by {
        assert(qs[0 + k] == qs[k]);
    }
}

/// The events depend on which queries are given, each as often, and not on
/// the order they are given in: two runs on the same inputs agree.
pub proof fn law_same_queries_same_events(a: Seq<Seq<char>>, b: Seq<Seq<char>>, rs: Seq<Record>)
    requires
        a.to_multiset() == b.to_multiset(),
    ensures
        merge(sorted_of(a), rs) == merge(sorted_of(b), rs),
{
}

/// With no queries, nothing is reported.
pub proof fn law_no_queries(rs: Seq<Record>)
    ensures
        merge(sorted_of(Seq::empty()), rs) == Seq::<EventView>::empty(),
{
    let e = Seq::<Seq<char>>::empty();
    assert(ascending(e) && e.to_multiset() == e.to_multiset());
    let s = sorted_of(e);
    assert(s.to_multiset().len() == 0);
    assert(s.len() == 0);
}

/// With no rows, nothing is reported: no match, and no query is reached to
/// be reported missing.
pub proof fn law_no_rows(qs: Seq<Seq<char>>)
    ensures
        merge(qs, Seq::empty()) == Seq::<EventView>::empty(),
{
}

/// Once query `i` is current at row `j`, if no row from `j` on holds it and
/// some row from `j` on sorts after it, the next event reports it missing.
/// If every remaining row sorts before it, the rows run out first and it is
/// never reported.
pub proof fn law_absent_query_reported(qs: Seq<Seq<char>>, rs: Seq<Record>, i: int, j: int)
    requires
        0 <= i < qs.len(),
        0 <= j,
        forall|m: int| j <= m < rs.len() ==> (#[trigger] rs[m]).accession@ != qs[i],
        exists|m: int| j <= m < rs.len() && acc_lt(qs[i], #[trigger] rs[m].accession@),
    ensures
        merge_from(qs, rs, i, j).len() > 0,
        merge_from(qs, rs, i, j)[0] == EventView::NotFound(qs[i]),
    decreases rs.len() - j,
{
    let m = choose|m: int| j <= m < rs.len() && acc_lt(qs[i], #[trigger] rs[m].accession@);
    let q = qs[i];
    let r = rs[j].accession@;
    if !acc_lt(q, r) {
        assert(q != r);
        lemma_acc_order(q, r, q);
        assert(m != j);
        assert(j + 1 <= m < rs.len() && acc_lt(qs[i], rs[m].accession@));
        law_absent_query_reported(qs, rs, i, j + 1);
    }
}

} // verus!
