use address_check::error::ErrorKind;
use address_check::matcher::check_addresses;
use address_check::outcome::exit_code;
use address_check::store::{open_store, BUSY_TIMEOUT_SECS, MAX_BUSY_TIMEOUT_SECS};
use rusqlite::Connection;

const GENESIS: &str = "1A1zP1eP5QGefi2DMPTfTL5SLmv7DivfNa";
const SCRIPT: &str = "3J98t1WpEZ73CNmQviecrnyiWrnqRhWNLy";

fn write_store(path: &str, keys: &[&str]) -> Connection {
    let conn = Connection::open(path).unwrap();
    conn.execute_batch(
        "PRAGMA journal_mode = WAL;
         DROP TABLE IF EXISTS addresses;
         CREATE TABLE addresses (address TEXT PRIMARY KEY);",
    )
    .unwrap();
    for key in keys {
        conn.execute("INSERT INTO addresses (address) VALUES (?1)", [key]).unwrap();
    }
    conn
}

#[test]
fn missing_store_is_a_connection_failure() {
    let outcome = open_store("/nonexistent/directory/btc_addresses.db");
    let e = outcome.unwrap_err();
    assert_eq!(e.kind, ErrorKind::Connection);
    assert!(!e.message.is_empty());
    assert_eq!(exit_code(&Err(e)), 2);
}

#[test]
fn busy_timeout_is_five_seconds_and_within_the_limit() {
    assert_eq!(BUSY_TIMEOUT_SECS, 5);
    assert!(BUSY_TIMEOUT_SECS <= MAX_BUSY_TIMEOUT_SECS);
    assert_eq!(MAX_BUSY_TIMEOUT_SECS, (i32::MAX / 1000) as u64);
}

#[test]
fn opened_store_answers_queries() {
    let path = "/tmp/address_check_opened_store_answers_queries.db";
    let _writer = write_store(path, &[GENESIS, SCRIPT]);
    let conn = open_store(path).unwrap();
    let text = format!("{}\n\nbogus\n", GENESIS);
    assert_eq!(check_addresses(&conn, &text, 1000).unwrap(), vec![GENESIS.to_string()]);
}

#[test]
fn opened_store_cannot_be_written() {
    let path = "/tmp/address_check_opened_store_cannot_be_written.db";
    let _writer = write_store(path, &[GENESIS]);
    let conn = open_store(path).unwrap();
    assert!(conn.execute("INSERT INTO addresses (address) VALUES ('x')", []).is_err());
    assert!(conn.execute("DELETE FROM addresses", []).is_err());
}
