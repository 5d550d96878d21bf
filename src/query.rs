//! The query list: the accessions to look up, visited in ascending order.
use crate::order::{acc_le, lemma_acc_order};
use vstd::multiset::Multiset;
use vstd::prelude::*;

verus! {

broadcast use vstd::seq_lib::group_to_multiset_ensures;

/// The accessions held by a list of strings.
pub open spec fn views(v: Seq<String>) -> Seq<Seq<char>> {
    v.map_values(|s: String| s@)
}

/// Every accession sorts before or equal to each one after it.
pub open spec fn ascending(s: Seq<Seq<char>>) -> bool {
    forall|i: int, j: int| 0 <= i < j < s.len() ==> acc_le(#[trigger] s[i], #[trigger] s[j])
}

/// The accessions of `qs` in ascending order (unique by `lemma_sorted_unique`).
pub open spec fn sorted_of(qs: Seq<Seq<char>>) -> Seq<Seq<char>> {
    sorted_of_multiset(qs.to_multiset())
}

/// The ascending list of the accessions counted by `m`.
pub open spec fn sorted_of_multiset(m: Multiset<Seq<char>>) -> Seq<Seq<char>> {
    choose|s: Seq<Seq<char>>| ascending(s) && s.to_multiset() == m
}

/// Two ascending lists with the same elements are the same list.
pub proof fn lemma_sorted_unique(a: Seq<Seq<char>>, b: Seq<Seq<char>>)
    requires
        ascending(a),
        ascending(b),
        a.to_multiset() == b.to_multiset(),
    ensures
        a == b,
    decreases a.len(),
{
    if a.len() == 0 {
        assert(b.to_multiset().len() == 0);
        assert(b =~= a);
    } else {
        assert(b.to_multiset().count(a[0]) > 0);
        assert(b.len() > 0);
        assert(b.contains(b[0]));
        assert(a.to_multiset().count(b[0]) > 0);
        assert(b.contains(a[0]));
        let k = choose|k: int| 0 <= k < b.len() && b[k] == a[0];
        assert(a.contains(b[0]));
        let l = choose|l: int| 0 <= l < a.len() && a[l] == b[0];
        if k > 0 {
            assert(acc_le(b[0], b[k]));
        }
        if l > 0 {
            assert(acc_le(a[0], a[l]));
        }
        lemma_acc_order(a[0], b[0], a[0]);
        assert(a[0] == b[0]);
        vstd::seq_lib::to_multiset_remove(a, 0);
        vstd::seq_lib::to_multiset_remove(b, 0);
        assert(a.remove(0) =~= a.drop_first());
        assert(b.remove(0) =~= b.drop_first());
        let ra = a.drop_first();
        let rb = b.drop_first();
        assert forall|i: int, j: int| 0 <= i < j < ra.len() implies acc_le(ra[i], ra[j]) by {
            assert(ra[i] == a[i + 1] && ra[j] == a[j + 1]);
        }
        assert forall|i: int, j: int| 0 <= i < j < rb.len() implies acc_le(rb[i], rb[j]) by {
            assert(rb[i] == b[i + 1] && rb[j] == b[j + 1]);
        }
        lemma_sorted_unique(ra, rb);
        assert(a =~= seq![a[0]] + ra);
        assert(b =~= seq![b[0]] + rb);
    }
}

/// Relies on `slice::sort` over `String`: the result is a permutation of the
/// input in the order of `str`, which compares the bytes lexicographically.
#[verifier::external_body]
fn sort_ascending(v: &mut Vec<String>)
    ensures
        views(final(v)@).to_multiset() == views(old(v)@).to_multiset(),
        ascending(views(final(v)@)),
{
    v.sort();
}

/// Sorts the queries into the order in which the merge visits them.
pub fn sort_queries(v: &mut Vec<String>)
    ensures
        views(final(v)@) == sorted_of(views(old(v)@)),
{
    sort_ascending(v);
    proof {
        let s = views(final(v)@);
        let qs = views(old(v)@);
        assert(ascending(s) && s.to_multiset() == qs.to_multiset());
        let c = sorted_of(qs);
        lemma_sorted_unique(s, c);
    }
}

/// What `str::trim_end` leaves of a text.
pub uninterp spec fn trimmed_end(s: Seq<char>) -> Seq<char>;

/// Relies on `str::trim_end`: the text without its trailing whitespace; the
/// result depends on the characters alone, and an empty text stays empty.
#[verifier::external_body]
fn trim_end(s: &str) -> (r: String)
    ensures
        r@ == trimmed_end(s@),
        s@.len() == 0 ==> r@.len() == 0,
{
    s.trim_end().to_string()
}

/// The pieces of `s` between newlines, in order: one more than there are
/// newlines.
pub open spec fn split_newlines(s: Seq<char>) -> Seq<Seq<char>>
    decreases s.len(),
{
    if s.len() == 0 {
        seq![Seq::empty()]
    } else {
        let head = split_newlines(s.drop_last());
        if s.last() == '\n' {
            head.push(Seq::empty())
        } else {
            head.update(head.len() - 1, head.last().push(s.last()))
        }
    }
}

/// Relies on `str::split` with the pattern `'\n'`: the substrings between
/// newlines, in order, empty ones included.
#[verifier::external_body]
fn split_at_newlines(s: &str) -> (r: Vec<String>)
    ensures
        views(r@) == split_newlines(s@),
{
    s.split('\n').map(String::from).collect()
}

/// The queries written one per line in a text whose trailing whitespace is
/// already gone: none for an empty text.
pub open spec fn lines_of(t: Seq<char>) -> Seq<Seq<char>> {
    if t.len() == 0 {
        Seq::empty()
    } else {
        split_newlines(t)
    }
}

/// Splits a text without trailing whitespace into its queries.
pub fn split_lines(t: &str) -> (r: Vec<String>)
    ensures
        views(r@) == lines_of(t@),
{
    if t.is_empty() {
        proof {
            assert(views(Seq::<String>::empty()) =~= Seq::<Seq<char>>::empty());
        }
        Vec::new()
    } else {
        split_at_newlines(t)
    }
}

/// Reads the query list: one accession per line, trailing whitespace of the
/// text ignored, an empty text holding none.
pub fn parse_queries(text: &str) -> (r: Vec<String>)
    ensures
        views(r@) == lines_of(trimmed_end(text@)),
        text@.len() == 0 ==> r@.len() == 0,
{
    let t = trim_end(text);
    let r = split_lines(t.as_str());
    proof {
        assert(views(r@).len() == r@.len());
    }
    r
}

} // verus!
