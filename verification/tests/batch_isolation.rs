use clickhouse::batch_isolation::{sub_batch_token, BatchInsertResult, BatchIsolation};
use clickhouse::error::Error;

#[test]
fn sub_batch_token_format_inclusive_end() {
    assert_eq!(sub_batch_token("batch_42", 0, 100), "batch_42/0-99");
    assert_eq!(sub_batch_token("batch_42", 100, 50), "batch_42/100-149");
    assert_eq!(sub_batch_token("batch_42", 7, 1), "batch_42/7-7");
}

#[test]
fn sub_batch_token_is_deterministic_across_calls() {
    let a = sub_batch_token("logical_42", 200, 50);
    let b = sub_batch_token("logical_42", 200, 50);
    assert_eq!(a, b);
}

fn isolate(rows: Vec<u32>, bad: &[u32], limit: u64) -> (BatchInsertResult<u32>, Vec<(usize, usize)>) {
    let mut search = BatchIsolation::new(rows, limit);
    let mut sent = Vec::new();
    while let Some((start, len)) = search.next() {
        sent.push((start, len));
        assert_eq!(search.batch().len(), len);
        let fails = search.batch().iter().any(|row| bad.contains(row));
        search.answer(if fails {
            Err(Error::BadResponse("rejected".to_string()))
        } else {
            Ok(())
        });
    }
    (search.finish().unwrap(), sent)
}

#[test]
fn a_clean_batch_takes_one_insert() {
    let (result, sent) = isolate((0..8).collect(), &[], 2048);
    assert!(result.is_clean());
    assert_eq!((result.succeeded_rows, result.round_trips), (8, 1));
    assert_eq!(sent, vec![(0, 8)]);
}

#[test]
fn one_bad_row_is_isolated() {
    let (result, sent) = isolate((0..8).collect(), &[5], 2048);
    assert!(!result.is_clean());
    assert_eq!(result.succeeded_rows, 7);
    assert_eq!(result.failed.len(), 1);
    assert_eq!(result.failed[0].0, 5);
    assert!(matches!(&result.failed[0].1, Error::BadResponse(s) if s == "rejected"));
    // Two inserts for each of the three levels, and the one for the whole batch.
    assert_eq!(result.round_trips, 7);
    assert_eq!(sent.len(), 7);
}

#[test]
fn every_bad_row_fails_and_no_other() {
    let (result, _) = isolate((0..13).collect(), &[0, 3, 12], 2048);
    let mut failed: Vec<u32> = result.failed.iter().map(|(row, _)| *row).collect();
    failed.sort_unstable();
    assert_eq!(failed, vec![0, 3, 12]);
    assert_eq!(result.succeeded_rows, 10);
}

#[test]
fn an_empty_batch_sends_nothing() {
    let (result, sent) = isolate(Vec::new(), &[], 2048);
    assert!(result.is_clean());
    assert_eq!((result.succeeded_rows, result.round_trips), (0, 0));
    assert!(sent.is_empty());
}

#[test]
fn the_limit_fails_what_is_left() {
    let (result, _) = isolate((0..8).collect(), &[0, 1, 2, 3, 4, 5, 6, 7], 3);
    assert_eq!(result.round_trips, 3);
    assert_eq!(result.succeeded_rows as usize + result.failed.len(), 8);
    assert!(result
        .failed
        .iter()
        .all(|(_, e)| matches!(e, Error::Custom(s) if s == "max bisection round trips exceeded")));
}

#[test]
fn sub_batches_have_distinct_tokens() {
    let (_, sent) = isolate((0..16).collect(), &[3, 11], 2048);
    let mut tokens: Vec<String> = sent
        .iter()
        .map(|(start, len)| sub_batch_token("base", *start, *len))
        .collect();
    let all = tokens.len();
    tokens.sort();
    tokens.dedup();
    assert_eq!(tokens.len(), all);
}

fn server_exception(code: u32) -> Error {
    Error::ServerException { code, name: None, message: "no".to_string(), stack_trace: None }
}

#[test]
fn a_missing_table_fails_the_whole_batch() {
    let mut search = BatchIsolation::new(vec![1u32, 2, 3], 2048);
    assert_eq!(search.next(), Some((0, 3)));
    search.answer(Err(server_exception(60)));
    assert_eq!(search.next(), None);
    assert!(matches!(search.finish(), Err(Error::ServerException { code: 60, .. })));
}

#[test]
fn a_connection_that_fails_fails_the_whole_batch() {
    let mut search = BatchIsolation::new(vec![1u32], 2048);
    assert_eq!(search.next(), Some((0, 1)));
    search.answer(Err(Error::Network("refused".to_string())));
    assert_eq!(search.next(), None);
    assert!(matches!(search.finish(), Err(Error::Network(s)) if s == "refused"));

    let mut search = BatchIsolation::new(vec![1u32, 2], 2048);
    assert_eq!(search.next(), Some((0, 2)));
    search.answer(Err(Error::TimedOut));
    assert_eq!(search.next(), None);
    assert!(matches!(search.finish(), Err(Error::TimedOut)));
}

#[test]
fn connections_that_fail_later_count_row_by_row() {
    let mut search = BatchIsolation::new(vec![1u32, 2], 2048);
    assert_eq!(search.next(), Some((0, 2)));
    search.answer(Err(Error::BadResponse("bad row".to_string())));
    assert_eq!(search.next(), Some((0, 1)));
    search.answer(Err(Error::TimedOut));
    assert_eq!(search.next(), Some((1, 1)));
    search.answer(Ok(()));
    assert_eq!(search.next(), None);
    let result = search.finish().unwrap();
    assert_eq!((result.succeeded_rows, result.round_trips), (1, 3));
    assert_eq!(result.failed[0].0, 1);
    assert!(matches!(result.failed[0].1, Error::TimedOut));

    let mut search = BatchIsolation::new(vec![1u32, 2], 2048);
    assert_eq!(search.next(), Some((0, 2)));
    search.answer(Err(Error::BadResponse("bad row".to_string())));
    assert_eq!(search.next(), Some((0, 1)));
    search.answer(Err(server_exception(60)));
    assert_eq!(search.next(), None);
    assert!(matches!(search.finish(), Err(Error::ServerException { code: 60, .. })));
}

#[test]
fn errors_behind_an_accepted_insert_count_row_by_row() {
    let mut search = BatchIsolation::new(vec![1u32, 2], 2048);
    assert_eq!(search.next(), Some((0, 2)));
    search.answer(Err(server_exception(469)));
    assert_eq!(search.next(), Some((0, 1)));
    search.answer(Ok(()));
    assert_eq!(search.next(), Some((1, 1)));
    search.answer(Err(Error::Network("reset".to_string())));
    assert_eq!(search.next(), None);
    let result = search.finish().unwrap();
    assert_eq!((result.succeeded_rows, result.round_trips), (1, 3));
    assert_eq!(result.failed[0].0, 2);
    assert!(matches!(result.failed[0].1, Error::Network(_)));
}

#[test]
fn ranges_come_behind_one_another() {
    let (_, sent) = isolate((0..16).collect(), &[3, 11, 12], 2048);
    for pair in sent.windows(2) {
        let ((start, len), (next, shorter)) = (pair[0], pair[1]);
        assert!(next > start || (next == start && shorter < len));
    }
}
