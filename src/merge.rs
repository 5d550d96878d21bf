//! The three-way sorted merge of the ascending query list against the
//! ascending reference stream.
use crate::line::{format_found, format_not_found, found_line, not_found_line};
use crate::order::{acc_cmp, compare};
use crate::query::{sort_queries, sorted_of, views};
use crate::record::Record;
use core::cmp::Ordering;
use vstd::prelude::*;

verus! {

/// What the merge reports for one comparison.
#[derive(Debug, PartialEq, Eq)]
pub enum Event {
    /// A query equal to a row's accession: the row's accession and identifiers.
    Found { accession: String, taxid: u64, gid: u64 },
    /// A query that the reference stream has passed without a match.
    NotFound { query: String },
}

/// The mathematical value of an `Event`.
pub enum EventView {
    Found(Seq<char>, u64, u64),
    NotFound(Seq<char>),
}

impl View for Event {
    type V = EventView;

    open spec fn view(&self) -> EventView {
        match self {
            Event::Found { accession, taxid, gid } => EventView::Found(accession@, *taxid, *gid),
            Event::NotFound { query } => EventView::NotFound(query@),
        }
    }
}

impl EventView {
    /// The accession or query that the event is about.
    pub open spec fn subject(self) -> Seq<char> {
        match self {
            EventView::Found(a, _, _) => a,
            EventView::NotFound(q) => q,
        }
    }

    /// The line written for the event.
    pub open spec fn line(self) -> Seq<char> {
        match self {
            EventView::Found(a, t, g) => found_line(a, t, g),
            EventView::NotFound(q) => not_found_line(q),
        }
    }
}

impl Event {
    /// The line written for the event: to the output for a match, to the
    /// diagnostic stream otherwise.
    pub fn line(&self) -> (r: String)
        ensures
            r@ == self@.line(),
    {
        match self {
            Event::Found { accession, taxid, gid } => format_found(accession.as_str(), *taxid, *gid),
            Event::NotFound { query } => format_not_found(query.as_str()),
        }
    }
}

pub open spec fn event_views(v: Seq<Event>) -> Seq<EventView> {
    v.map_values(|e: Event| e@)
}

/// The outcome of comparing query `q` with row `r`: `None` when the row is
/// skipped and the query stays current; otherwise the event, and the merge
/// moves on to the next query and the next row.
///
/// A miss consumes the row that revealed it: the next query is compared with
/// the row after it, so a query equal to that row's accession is not matched.
/// A match likewise consumes its row, so a repeated accession in the table is
/// matched by its first row only. Both are deliberate; the laws module states
/// what holds of the reports with them.
pub open spec fn event_for(q: Seq<char>, r: Record) -> Option<EventView> {
    match acc_cmp(q, r.accession@) {
        Ordering::Greater => None,
        Ordering::Equal => Some(EventView::Found(r.accession@, r.taxid, r.gid)),
        Ordering::Less => Some(EventView::NotFound(q)),
    }
}

/// The events of the merge from query `i` and row `j` on. It stops when the
/// queries or the rows run out; the queries left at that point are dropped.
pub open spec fn merge_from(qs: Seq<Seq<char>>, rs: Seq<Record>, i: int, j: int) -> Seq<
    EventView,
>
    decreases rs.len() - j,
{
    if i < 0 || i >= qs.len() || j < 0 || j >= rs.len() {
        seq![]
    } else {
        match event_for(qs[i], rs[j]) {
            None => merge_from(qs, rs, i, j + 1),
            Some(e) => seq![e] + merge_from(qs, rs, i + 1, j + 1),
        }
    }
}

/// The events of the whole merge of ascending queries `qs` with rows `rs`.
pub open spec fn merge(qs: Seq<Seq<char>>, rs: Seq<Record>) -> Seq<EventView> {
    merge_from(qs, rs, 0, 0)
}

/// The query cursor: the queries in ascending order and the position of the
/// current one.
pub struct Matcher {
    queries: Vec<String>,
    next: usize,
}

impl Matcher {
    /// The queries in the order in which they are visited.
    pub closed spec fn queries(&self) -> Seq<Seq<char>> {
        views(self.queries@)
    }

    /// The position of the current query.
    pub closed spec fn pos(&self) -> int {
        self.next as int
    }

    pub closed spec fn wf(&self) -> bool {
        self.next <= self.queries@.len()
    }

    /// Starts the merge on the given queries, in any order.
    pub fn new(queries: Vec<String>) -> (m: Matcher)
        ensures
            m.wf(),
            m.queries() == sorted_of(views(queries@)),
            m.pos() == 0,
    {
        let mut queries = queries;
        sort_queries(&mut queries);
        Matcher { queries, next: 0 }
    }

    /// Whether every query has been visited; no row needs to be read then.
    pub fn is_done(&self) -> (r: bool)
        requires
            self.wf(),
        ensures
            r == (self.pos() >= self.queries().len()),
    {
        self.next >= self.queries.len()
    }

    /// Compares the current query with the next row of the reference stream.
    pub fn step(&mut self, r: &Record) -> (e: Option<Event>)
        requires
            old(self).wf(),
            old(self).pos() < old(self).queries().len(),
        ensures
            final(self).wf(),
            final(self).queries() == old(self).queries(),
            match e {
                None => event_for(old(self).queries()[old(self).pos()], *r) is None,
                Some(ev) => event_for(old(self).queries()[old(self).pos()], *r) == Some(ev@),
            },
            final(self).pos() == if e is None {
                old(self).pos()
            } else {
                old(self).pos() + 1
            },
    {
        proof {
            assert(views(self.queries@).len() == self.queries@.len());
        }
        let n = self.queries.len();
        let q = self.queries[self.next].clone();
        match compare(q.as_str(), r.accession.as_str()) {
            Ordering::Greater => None,
            Ordering::Equal => {
                assert(self.next < n);
                self.next = self.next + 1;
                Some(Event::Found { accession: r.accession.clone(), taxid: r.taxid, gid: r.gid })
            },
            Ordering::Less => {
                assert(self.next < n);
                self.next = self.next + 1;
                Some(Event::NotFound { query: q })
            },
        }
    }
}

/// Runs the whole merge of `queries`, in any order, against the rows.
pub fn match_all(queries: Vec<String>, records: &Vec<Record>) -> (r: Vec<Event>)
    ensures
        event_views(r@) == merge(sorted_of(views(queries@)), records@),
{
    let mut m = Matcher::new(queries);
    let ghost qs = m.queries();
    let ghost rs = records@;
    let mut out: Vec<Event> = Vec::new();
    let mut j: usize = 0;
    while j < records.len() && !m.is_done()
        invariant
            m.wf(),
            m.queries() == qs,
            qs == sorted_of(views(queries@)),
            rs == records@,
            0 <= m.pos(),
            j <= records.len(),
            merge(qs, rs) == event_views(out@) + merge_from(qs, rs, m.pos(), j as int),
        decreases records.len() - j,
    {
        let ghost out0 = out@;
        let ghost i0 = m.pos();
        let ev = m.step(&records[j]);
        match ev {
            None => {},
            Some(e) => {
                out.push(e);
                proof {
                    assert(event_views(out@) =~= event_views(out0) + seq![e@]);
                }
            },
        }
        proof {
            assert(merge_from(qs, rs, i0, j as int) == match event_for(qs[i0], rs[j as int]) {
                None => merge_from(qs, rs, i0, j + 1),
                Some(e) => seq![e] + merge_from(qs, rs, i0 + 1, j + 1),
            });
            if let Some(e) = event_for(qs[i0], rs[j as int]) {
                assert(event_views(out0) + (seq![e] + merge_from(qs, rs, i0 + 1, j + 1)) =~= (
                event_views(out0) + seq![e]) + merge_from(qs, rs, i0 + 1, j + 1));
            }
        }
        j = j + 1;
    }
    proof {
        assert(event_views(out@) + seq![] =~= event_views(out@));
    }
    out
}

} // verus!
