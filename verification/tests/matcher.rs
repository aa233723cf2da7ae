use std::cell::RefCell;

use address_check::error::{CheckError, ErrorKind};
use address_check::matcher::{
    check_addresses, check_batch, check_candidates, check_candidates_with, collect_rows,
};
use address_check::outcome::exit_code;
use rusqlite::Connection;

const GENESIS: &str = "1A1zP1eP5QGefi2DMPTfTL5SLmv7DivfNa";
const SCRIPT: &str = "3J98t1WpEZ73CNmQviecrnyiWrnqRhWNLy";

fn store_with(keys: &[&str]) -> Connection {
    let conn = Connection::open_in_memory().unwrap();
    conn.execute_batch("CREATE TABLE addresses (address TEXT)").unwrap();
    for key in keys {
        conn.execute("INSERT INTO addresses (address) VALUES (?1)", [key]).unwrap();
    }
    conn
}

fn strings(keys: &[&str]) -> Vec<String> {
    keys.iter().map(|k| k.to_string()).collect()
}

fn sorted(mut keys: Vec<String>) -> Vec<String> {
    keys.sort();
    keys
}

fn decode_failure() -> rusqlite::Error {
    let conn = Connection::open_in_memory().unwrap();
    conn.query_row("SELECT 1", [], |row| row.get::<usize, String>(0)).unwrap_err()
}

fn query_failure() -> rusqlite::Error {
    let conn = Connection::open_in_memory().unwrap();
    conn.execute_batch("SELECT address FROM missing").unwrap_err()
}

#[test]
fn batch_reports_the_keys_that_the_store_holds() {
    let conn = store_with(&[GENESIS, SCRIPT]);
    let found = check_batch(&conn, &strings(&[GENESIS, "bogus"])).unwrap();
    assert_eq!(found, strings(&[GENESIS]));
}

#[test]
fn batch_reports_a_key_once_however_often_it_is_asked() {
    let conn = store_with(&[GENESIS]);
    let found = check_batch(&conn, &strings(&[GENESIS, GENESIS, GENESIS])).unwrap();
    assert_eq!(found, strings(&[GENESIS]));
}

#[test]
fn batch_reports_a_row_for_each_copy_in_the_store() {
    let conn = store_with(&[GENESIS, GENESIS]);
    let found = check_batch(&conn, &strings(&[GENESIS])).unwrap();
    assert_eq!(found, strings(&[GENESIS, GENESIS]));
}

#[test]
fn batch_follows_the_order_of_the_store() {
    let conn = store_with(&["c", "a", "b"]);
    let found = check_batch(&conn, &strings(&["a", "b", "c"])).unwrap();
    assert_eq!(found, strings(&["c", "a", "b"]));
}

#[test]
fn batch_without_keys_finds_nothing() {
    let conn = store_with(&[GENESIS]);
    assert_eq!(check_batch(&conn, &[]).unwrap(), Vec::<String>::new());
}

#[test]
fn batch_binds_keys_and_never_splices_them() {
    let conn = store_with(&[GENESIS]);
    let hostile = "x') OR ('1'='1";
    assert_eq!(check_batch(&conn, &strings(&[hostile])).unwrap(), Vec::<String>::new());
}

#[test]
fn batch_without_the_table_is_a_query_failure() {
    let conn = Connection::open_in_memory().unwrap();
    let e = check_batch(&conn, &strings(&[GENESIS])).unwrap_err();
    assert_eq!(e.kind, ErrorKind::Query);
    assert!(!e.message.is_empty());
}

#[test]
fn batch_with_a_value_that_is_no_string_is_a_decode_failure() {
    let conn = Connection::open_in_memory().unwrap();
    conn.execute_batch(
        "CREATE TABLE addresses (address INTEGER); INSERT INTO addresses VALUES (42)",
    )
    .unwrap();
    let e = check_batch(&conn, &strings(&["42"])).unwrap_err();
    assert_eq!(e.kind, ErrorKind::Decode);
    assert!(!e.message.is_empty());
}

#[test]
fn rows_read_in_full_are_collected_in_order() {
    let rows = vec![Ok(Ok("b".to_string())), Ok(Ok("a".to_string()))];
    assert_eq!(collect_rows(rows).unwrap(), strings(&["b", "a"]));
}

#[test]
fn no_rows_give_an_empty_answer() {
    assert_eq!(collect_rows(Vec::new()).unwrap(), Vec::<String>::new());
}

#[test]
fn a_value_that_is_no_string_is_a_decode_failure() {
    let rows = vec![Ok(Ok("a".to_string())), Ok(Err(decode_failure()))];
    assert_eq!(collect_rows(rows).unwrap_err().kind, ErrorKind::Decode);
}

#[test]
fn a_failed_step_is_a_query_failure() {
    let rows = vec![Ok(Ok("a".to_string())), Err(query_failure())];
    assert_eq!(collect_rows(rows).unwrap_err().kind, ErrorKind::Query);
}

#[test]
fn the_first_failure_decides_the_kind() {
    let rows = vec![Ok(Err(decode_failure())), Err(query_failure())];
    assert_eq!(collect_rows(rows).unwrap_err().kind, ErrorKind::Decode);
    let rows = vec![Err(query_failure()), Ok(Err(decode_failure()))];
    assert_eq!(collect_rows(rows).unwrap_err().kind, ErrorKind::Query);
}

#[test]
fn candidates_in_one_batch() {
    let conn = store_with(&[GENESIS, SCRIPT]);
    let found = check_candidates(&conn, &strings(&["x", SCRIPT, GENESIS]), 1000).unwrap();
    assert_eq!(found, strings(&[GENESIS, SCRIPT]));
}

#[test]
fn answers_are_concatenated_in_batch_order() {
    let conn = store_with(&["a", "b", "c", "d"]);
    let found = check_candidates(&conn, &strings(&["d", "x", "a", "c", "b"]), 2).unwrap();
    assert_eq!(found, strings(&["d", "a", "c", "b"]));
}

#[test]
fn no_candidates_give_an_empty_result_without_a_query() {
    // A connection without the table fails every query, so success shows
    // that none was made.
    let conn = Connection::open_in_memory().unwrap();
    assert_eq!(check_candidates(&conn, &[], 1000).unwrap(), Vec::<String>::new());
}

#[test]
fn a_key_in_two_batches_is_reported_twice() {
    let conn = store_with(&["a"]);
    let found = check_candidates(&conn, &strings(&["a", "x", "a"]), 2).unwrap();
    assert_eq!(found, strings(&["a", "a"]));
}

#[test]
fn batching_does_not_change_the_set_of_matches() {
    let conn = store_with(&["k1", "k3", "k5", "k7", "k9", "other"]);
    let candidates: Vec<String> = (0..10).map(|i| format!("k{}", i)).collect();
    let whole = sorted(check_candidates(&conn, &candidates, candidates.len()).unwrap());
    assert_eq!(whole, strings(&["k1", "k3", "k5", "k7", "k9"]));
    for size in 1..12 {
        let split = sorted(check_candidates(&conn, &candidates, size).unwrap());
        assert_eq!(split, whole);
    }
}

#[test]
fn every_candidate_in_the_store_is_found_and_no_other() {
    let conn = store_with(&["a", "b", "c"]);
    let candidates = strings(&["c", "z", "a", "y"]);
    let found = check_candidates(&conn, &candidates, 3).unwrap();
    for key in ["a", "c"] {
        assert!(found.contains(&key.to_string()));
    }
    for key in &found {
        assert!(candidates.contains(key));
        assert!(["a", "b", "c"].contains(&key.as_str()));
    }
}

#[test]
fn a_failing_batch_ends_the_run() {
    let conn = Connection::open_in_memory().unwrap();
    let e = check_candidates(&conn, &strings(&["a", "b", "c"]), 2).unwrap_err();
    assert_eq!(e.kind, ErrorKind::Query);
}

#[test]
fn more_keys_than_the_default_batch_size() {
    let conn = store_with(&["k0", "k999", "k1000", "k2499", "k2500"]);
    let candidates: Vec<String> = (0..2500).map(|i| format!("k{}", i)).collect();
    let found = sorted(check_candidates(&conn, &candidates, 1000).unwrap());
    assert_eq!(found, strings(&["k0", "k1000", "k2499", "k999"]));
}

#[test]
fn one_match_among_blank_and_bogus_lines() {
    let conn = store_with(&[GENESIS, SCRIPT]);
    let text = format!("{}\n\nbogus\n", GENESIS);
    let outcome = check_addresses(&conn, &text, 1000);
    assert_eq!(exit_code(&outcome), 1);
    assert_eq!(outcome.unwrap(), strings(&[GENESIS]));
}

#[test]
fn empty_candidate_list_matches_nothing() {
    // The connection has no table: a query would fail.
    let conn = Connection::open_in_memory().unwrap();
    let outcome = check_addresses(&conn, "", 1000);
    assert_eq!(exit_code(&outcome), 0);
    assert_eq!(outcome.unwrap(), Vec::<String>::new());
}

#[test]
fn blank_candidate_list_matches_nothing() {
    let conn = Connection::open_in_memory().unwrap();
    let outcome = check_addresses(&conn, "\n   \n\t\r\n\n", 1000);
    assert_eq!(exit_code(&outcome), 0);
    assert_eq!(outcome.unwrap(), Vec::<String>::new());
}

#[test]
fn candidates_are_trimmed_before_they_are_asked() {
    let conn = store_with(&[GENESIS]);
    let text = format!("   {}\t\r\n", GENESIS);
    assert_eq!(check_addresses(&conn, &text, 1000).unwrap(), strings(&[GENESIS]));
}

#[test]
fn keys_match_verbatim_only() {
    let conn = store_with(&[GENESIS]);
    let text = GENESIS.to_lowercase();
    assert_eq!(check_addresses(&conn, &text, 1000).unwrap(), Vec::<String>::new());
}

#[test]
fn every_batch_is_asked_once_and_in_order() {
    let asked: RefCell<Vec<Vec<String>>> = RefCell::new(Vec::new());
    let ask = |batch: &[String]| {
        asked.borrow_mut().push(batch.to_vec());
        Ok(Vec::new())
    };
    let candidates = strings(&["a", "b", "c", "d", "e", "f", "g"]);
    assert_eq!(check_candidates_with(ask, &candidates, 3).unwrap(), Vec::<String>::new());
    assert_eq!(
        asked.into_inner(),
        vec![strings(&["a", "b", "c"]), strings(&["d", "e", "f"]), strings(&["g"])]
    );
}

#[test]
fn as_many_batches_are_asked_as_the_count_rounded_up() {
    for (count, size, expected) in [(0, 5, 0), (1, 5, 1), (5, 5, 1), (6, 5, 2), (10, 5, 2), (11, 5, 3)]
    {
        let calls = RefCell::new(0);
        let ask = |batch: &[String]| {
            assert!(!batch.is_empty() && batch.len() <= size);
            *calls.borrow_mut() += 1;
            Ok(Vec::new())
        };
        let candidates: Vec<String> = (0..count).map(|i| format!("k{}", i)).collect();
        check_candidates_with(ask, &candidates, size).unwrap();
        assert_eq!(calls.into_inner(), expected);
    }
}

#[test]
fn the_result_is_every_answer_in_batch_order() {
    let ask = |batch: &[String]| Ok(batch.iter().rev().map(|k| format!("<{}>", k)).collect());
    let candidates = strings(&["a", "b", "c", "d", "e"]);
    assert_eq!(
        check_candidates_with(ask, &candidates, 2).unwrap(),
        strings(&["<b>", "<a>", "<d>", "<c>", "<e>"])
    );
}

#[test]
fn answers_are_not_deduplicated_across_batches() {
    let ask = |_batch: &[String]| Ok(strings(&["same"]));
    let candidates = strings(&["a", "b", "c"]);
    assert_eq!(
        check_candidates_with(ask, &candidates, 1).unwrap(),
        strings(&["same", "same", "same"])
    );
}

#[test]
fn the_first_failing_batch_ends_the_run() {
    let asked: RefCell<Vec<Vec<String>>> = RefCell::new(Vec::new());
    let ask = |batch: &[String]| {
        asked.borrow_mut().push(batch.to_vec());
        if batch.contains(&"c".to_string()) {
            Err(CheckError::new(ErrorKind::Query, format!("failed at {}", batch[0])))
        } else {
            Ok(batch.to_vec())
        }
    };
    let candidates = strings(&["a", "b", "c", "d", "e", "f"]);
    let e = check_candidates_with(ask, &candidates, 2).unwrap_err();
    assert_eq!(e, CheckError::new(ErrorKind::Query, "failed at c".to_string()));
    assert_eq!(asked.into_inner(), vec![strings(&["a", "b"]), strings(&["c", "d"])]);
}

#[test]
fn without_candidates_nothing_is_asked() {
    let ask = |_batch: &[String]| -> Result<Vec<String>, CheckError> {
        panic!("asked without a candidate")
    };
    assert_eq!(check_candidates_with(ask, &[], 1000).unwrap(), Vec::<String>::new());
}

#[test]
fn the_match_of_the_final_short_batch_is_in_the_result() {
    let conn = store_with(&["a", "b"]);
    let filler: String = (0..999).map(|i| format!("x{}\n", i)).collect();
    let text = format!("a\n{}b\n", filler);
    assert_eq!(check_addresses(&conn, &text, 1000).unwrap(), strings(&["a", "b"]));
}

#[test]
fn blank_lines_are_no_candidates_and_keys_are_trimmed_on_both_sides() {
    let conn = store_with(&["", " ", "\t", "abc", " abc"]);
    let text = "\n \n\t\n  abc \t\r\n";
    assert_eq!(check_addresses(&conn, text, 1000).unwrap(), strings(&["abc"]));
}
