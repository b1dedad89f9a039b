use prime_search::database::Database;
use prime_search::prime_number::PrimeNumber;

fn record(number: u32) -> PrimeNumber {
    PrimeNumber::new(
        number,
        String::from("2024-01-01 00:00:00"),
        String::from("0.25"),
    )
}

fn fresh_db(threshold: usize) -> Database {
    let conn = rusqlite::Connection::open_in_memory().unwrap();
    Database::from_connection(conn, threshold).unwrap()
}

#[test]
fn empty_store_defaults_to_two() {
    let db = fresh_db(10);
    assert_eq!(db.get_latest_prime().unwrap(), 2);
}

#[test]
fn explicit_flush_round_trip() {
    let mut db = fresh_db(100);
    db.add_prime(record(5)).unwrap();
    db.add_prime(record(11)).unwrap();
    db.add_prime(record(7)).unwrap();
    assert_eq!(db.buffered_count(), 3);
    // Nothing is durable before the flush.
    assert_eq!(db.get_latest_prime().unwrap(), 2);

    db.flush_primes().unwrap();
    assert_eq!(db.buffered_count(), 0);
    assert_eq!(db.get_latest_prime().unwrap(), 11);
}

#[test]
fn auto_flush_at_threshold() {
    let mut db = fresh_db(3);
    db.add_prime(record(5)).unwrap();
    db.add_prime(record(7)).unwrap();
    // One below the threshold: nothing flushed yet.
    assert_eq!(db.buffered_count(), 2);
    assert_eq!(db.get_latest_prime().unwrap(), 2);

    // The third add reaches the threshold and flushes everything at once.
    db.add_prime(record(11)).unwrap();
    assert_eq!(db.buffered_count(), 0);
    assert_eq!(db.get_latest_prime().unwrap(), 11);
}

#[test]
fn repeated_flush_after_auto_flush_is_harmless() {
    let mut db = fresh_db(2);
    db.add_prime(record(5)).unwrap();
    db.add_prime(record(13)).unwrap();
    assert_eq!(db.buffered_count(), 0);

    db.flush_primes().unwrap();
    assert_eq!(db.get_latest_prime().unwrap(), 13);
}

#[test]
fn failed_flush_keeps_buffer() {
    let conn = rusqlite::Connection::open_in_memory().unwrap();
    // A pre-existing schema whose constraint the flush will violate stands
    // in for a storage fault in the middle of the transaction.
    conn.execute(
        "CREATE TABLE primes (
            number       INTEGER CHECK (number < 10),
            created_at   TEXT,
            elapsed_secs REAL
        )",
        (),
    )
    .unwrap();
    let mut db = Database::from_connection(conn, 100).unwrap();
    db.add_prime(record(5)).unwrap();
    db.add_prime(record(23)).unwrap();
    assert_eq!(db.buffered_count(), 2);

    assert!(db.flush_primes().is_err());
    // The whole transaction rolled back: no record became durable and
    // none left the buffer.
    assert_eq!(db.buffered_count(), 2);
    assert_eq!(db.get_latest_prime().unwrap(), 2);

    let storage_error = db.flush_primes().err().unwrap().into_storage_error();
    let _ = format!("{storage_error}");
}
