use acc2taxid::{match_all, Event, Matcher, Record};

fn row(acc: &str, taxid: u64, gid: u64) -> Record {
    Record {
        accession: acc.to_string(),
        accession_version: format!("{}.1", acc),
        taxid,
        gid,
    }
}

fn queries(q: &[&str]) -> Vec<String> {
    q.iter().map(|s| s.to_string()).collect()
}

fn found(acc: &str, taxid: u64, gid: u64) -> Event {
    Event::Found { accession: acc.to_string(), taxid, gid }
}

fn not_found(q: &str) -> Event {
    Event::NotFound { query: q.to_string() }
}

fn output_text(events: &[Event]) -> String {
    events
        .iter()
        .filter(|e| matches!(e, Event::Found { .. }))
        .map(|e| e.line())
        .collect()
}

fn diagnostic_text(events: &[Event]) -> String {
    events
        .iter()
        .filter(|e| matches!(e, Event::NotFound { .. }))
        .map(|e| e.line())
        .collect()
}

#[test]
fn two_rows_one_match_one_query_past_the_end() {
    let rows = vec![row("acc.A", 1, 100), row("acc.B", 2, 200)];
    let events = match_all(queries(&["acc.B", "acc.C"]), &rows);
    assert_eq!(events, vec![found("acc.B", 2, 200)]);
    assert_eq!(output_text(&events), "acc.B,2,200\n");
    assert_eq!(diagnostic_text(&events), "");
}

#[test]
fn empty_query_list_reports_nothing() {
    let rows = vec![row("acc.A", 1, 100)];
    assert_eq!(match_all(Vec::new(), &rows), Vec::<Event>::new());
}

#[test]
fn empty_table_reports_nothing() {
    let events = match_all(queries(&["a", "b"]), &Vec::new());
    assert_eq!(events, Vec::<Event>::new());
}

#[test]
fn duplicate_rows_match_only_the_first() {
    let rows = vec![row("x", 1, 10), row("x", 2, 20), row("y", 3, 30)];
    let events = match_all(queries(&["x", "y"]), &rows);
    assert_eq!(events, vec![found("x", 1, 10), found("y", 3, 30)]);
}

#[test]
fn events_follow_ascending_query_order() {
    let rows = vec![row("a", 1, 1), row("b", 2, 2), row("c", 3, 3)];
    let events = match_all(queries(&["c", "a", "b"]), &rows);
    assert_eq!(events, vec![found("a", 1, 1), found("b", 2, 2), found("c", 3, 3)]);
    assert_eq!(output_text(&events), "a,1,1\nb,2,2\nc,3,3\n");
}

#[test]
fn miss_is_reported_and_consumes_its_row() {
    let rows = vec![row("a", 1, 1), row("c", 3, 3), row("d", 4, 4)];
    let events = match_all(queries(&["b", "c"]), &rows);
    assert_eq!(events, vec![not_found("b"), not_found("c")]);
    assert_eq!(diagnostic_text(&events), "b not found\nc not found\n");
}

#[test]
fn miss_then_match_on_a_later_row() {
    let rows = vec![row("a", 1, 1), row("c", 3, 3), row("d", 4, 4), row("e", 5, 5)];
    let events = match_all(queries(&["b", "e"]), &rows);
    assert_eq!(events, vec![not_found("b"), found("e", 5, 5)]);
}

#[test]
fn queries_left_when_rows_run_out_are_dropped() {
    let rows = vec![row("a", 1, 1)];
    let events = match_all(queries(&["a", "z"]), &rows);
    assert_eq!(events, vec![found("a", 1, 1)]);
}

#[test]
fn two_runs_agree_whatever_the_query_order() {
    let rows = vec![row("a", 1, 1), row("b", 2, 2), row("d", 4, 4), row("e", 5, 5)];
    let first = match_all(queries(&["e", "a", "c"]), &rows);
    let second = match_all(queries(&["e", "a", "c"]), &rows);
    let third = match_all(queries(&["c", "e", "a"]), &rows);
    assert_eq!(first, second);
    assert_eq!(first, third);
    assert_eq!(first, vec![found("a", 1, 1), not_found("c"), found("e", 5, 5)]);
}

#[test]
fn matcher_steps_through_rows() {
    let mut m = Matcher::new(queries(&["b", "a"]));
    assert!(!m.is_done());
    assert_eq!(m.step(&row("0", 9, 9)), None);
    assert_eq!(m.step(&row("a", 1, 10)), Some(found("a", 1, 10)));
    assert!(!m.is_done());
    assert_eq!(m.step(&row("c", 3, 30)), Some(not_found("b")));
    assert!(m.is_done());
}

#[test]
fn matcher_with_no_queries_is_done() {
    let m = Matcher::new(Vec::new());
    assert!(m.is_done());
}

#[test]
fn miss_consumes_the_row_of_the_next_query() {
    let rows = vec![row("b", 2, 2)];
    let events = match_all(queries(&["a", "b"]), &rows);
    assert_eq!(events, vec![not_found("a")]);
}
