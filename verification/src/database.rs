//! The batched, transactional persistence queue: confirmed primes are
//! buffered in memory and written to durable SQLite storage in one
//! all-or-nothing transaction, either when the buffer reaches its flush
//! threshold or on explicit request. The store also answers the resume-point
//! query: the largest prime it holds.

use crate::prime_number::{PrimeNumber, PrimeRecord};
use vstd::prelude::*;

verus! {

/// Where the durable store lives by default. Its parent directory must exist
/// before `Database::setup` is called; arranging that is the caller's job.
pub const DATABASE_PATH: &'static str = "tmp/primes.db";

/// How many buffered records trigger an automatic flush in a queue made by
/// `Database::setup`.
pub const FLUSH_THRESHOLD: usize = 10000;

/// The resume point reported when the store holds no prime yet.
pub const DEFAULT_PRIME: u32 = 2;

#[verifier::external_type_specification]
#[verifier::external_body]
pub struct ExConnection(rusqlite::Connection);

#[verifier::external_type_specification]
#[verifier::external_body]
pub struct ExSqliteError(rusqlite::Error);

/// A storage fault surfaced by the persistence queue, wrapping the storage
/// engine's own error.
#[derive(Debug)]
pub enum DbError {
    Storage(rusqlite::Error),
}

impl DbError {
    /// The underlying storage engine's error.
    pub fn into_storage_error(self) -> (r: rusqlite::Error)
        ensures
            self == DbError::Storage(r),
    {
        match self {
            DbError::Storage(e) => e,
        }
    }
}

/// Relies on rusqlite's `Connection::open`: opens, creating it if absent,
/// the SQLite database file at `path`; fails if the file cannot be opened
/// or created.
#[verifier::external_body]
fn open_connection(path: &str) -> (r: Result<rusqlite::Connection, rusqlite::Error>) {
    rusqlite::Connection::open(path)
}

/// Relies on rusqlite's `Connection::execute`: creates the append-only
/// `primes` table (number, created_at, elapsed_secs) if it is not there yet.
#[verifier::external_body]
fn create_primes_table(conn: &rusqlite::Connection) -> (r: Result<(), rusqlite::Error>) {
    match conn.execute(
        "CREATE TABLE IF NOT EXISTS primes (
            number       INTEGER,
            created_at   TEXT,
            elapsed_secs REAL
        )",
        (),
    ) {
        Ok(_) => Ok(()),
        Err(e) => Err(e),
    }
}

/// Relies on rusqlite's `Connection::execute_batch`: begins a deferred
/// transaction, exactly as rusqlite's own `Connection::transaction` does.
#[verifier::external_body]
fn begin_transaction(conn: &rusqlite::Connection) -> (r: Result<(), rusqlite::Error>) {
    conn.execute_batch("BEGIN DEFERRED")
}

/// Relies on rusqlite's `Connection::execute_batch`: commits the open
/// transaction, making every insert inside it durable at once — or none of
/// them, if the commit itself fails.
#[verifier::external_body]
fn commit_transaction(conn: &rusqlite::Connection) -> (r: Result<(), rusqlite::Error>) {
    conn.execute_batch("COMMIT")
}

/// Relies on rusqlite's `Connection::execute_batch`: rolls the open
/// transaction back, discarding every insert made inside it.
#[verifier::external_body]
fn rollback_transaction(conn: &rusqlite::Connection) -> (r: Result<(), rusqlite::Error>) {
    conn.execute_batch("ROLLBACK")
}

/// Relies on rusqlite's `Connection::execute`: inserts one row into the
/// `primes` table inside the open transaction.
#[verifier::external_body]
fn insert_prime_row(
    conn: &rusqlite::Connection,
    number: u32,
    created_at: &str,
    elapsed_secs: &str,
) -> (r: Result<(), rusqlite::Error>) {
    match conn.execute(
        "INSERT INTO primes
        (number, created_at, elapsed_secs)
        VALUES
        (?1, ?2, ?3)",
        (number, created_at, elapsed_secs),
    ) {
        Ok(_) => Ok(()),
        Err(e) => Err(e),
    }
}

/// Relies on rusqlite's `Connection::query_row`: the scalar maximum of the
/// stored numbers, or `None` when the table is empty (the SQL `MAX` of no
/// rows is the NULL row).
#[verifier::external_body]
fn query_max_number(conn: &rusqlite::Connection) -> (r: Result<Option<u32>, rusqlite::Error>) {
    conn.query_row("SELECT MAX(number) FROM primes", [], |row| row.get(0))
}

/// The resume point that a stored maximum yields: the maximum itself, or the
/// default of 2 when the store was empty.
pub fn resume_point(stored_max: Option<u32>) -> (r: u32)
    ensures
        r == (match stored_max {
            Some(m) => m,
            None => DEFAULT_PRIME,
        }),
{
    match stored_max {
        Some(m) => m,
        None => DEFAULT_PRIME,
    }
}

/// The batched persistence queue: an in-memory buffer of confirmed primes in
/// front of a durable SQLite store.
pub struct Database {
    conn: rusqlite::Connection,
    delayed_primes: Vec<PrimeNumber>,
    flush_threshold: usize,
    committed_log: Ghost<Seq<PrimeRecord>>,
}

impl Database {
    /// The records confirmed but not yet durably stored, oldest first.
    pub closed spec fn buffered(self) -> Seq<PrimeRecord> {
        self.delayed_primes@.map_values(|p: PrimeNumber| p@)
    }

    /// The records this queue has handed to durable storage in committed
    /// transactions, in commit order.
    pub closed spec fn committed(self) -> Seq<PrimeRecord> {
        self.committed_log@
    }

    /// The buffer length at which `add_prime` flushes on its own.
    pub closed spec fn threshold(self) -> int {
        self.flush_threshold as int
    }

    /// How many confirmed primes are buffered and not yet durably stored.
    pub fn buffered_count(&self) -> (r: usize)
        ensures
            r == self.buffered().len(),
    {
        self.delayed_primes.len()
    }

    /// A persistence queue over an already opened connection, flushing
    /// automatically at `flush_threshold` buffered records. Ensures the
    /// `primes` table exists; begins with an empty buffer and nothing
    /// committed by this queue.
    pub fn from_connection(conn: rusqlite::Connection, flush_threshold: usize) -> (r: Result<
        Database,
        DbError,
    >)
        ensures
            r matches Ok(db) ==> db.buffered() =~= Seq::<PrimeRecord>::empty()
                && db.committed() =~= Seq::<PrimeRecord>::empty() && db.threshold()
                == flush_threshold,
    {
        match create_primes_table(&conn) {
            Ok(()) => Ok(
                Database {
                    conn,
                    delayed_primes: Vec::new(),
                    flush_threshold,
                    committed_log: Ghost(Seq::empty()),
                },
            ),
            Err(e) => Err(DbError::Storage(e)),
        }
    }

    /// Prepares the durable store at `DATABASE_PATH`: opens it, creating the
    /// file if absent, and makes sure its schema exists, with the default
    /// flush threshold of 10,000 records. Fails if the store cannot be
    /// opened or its schema cannot be prepared.
    pub fn setup() -> (r: Result<Database, DbError>)
        ensures
            r matches Ok(db) ==> db.buffered() =~= Seq::<PrimeRecord>::empty()
                && db.committed() =~= Seq::<PrimeRecord>::empty() && db.threshold()
                == FLUSH_THRESHOLD,
    {
        match open_connection(DATABASE_PATH) {
            Ok(conn) => Database::from_connection(conn, FLUSH_THRESHOLD),
            Err(e) => Err(DbError::Storage(e)),
        }
    }

    /// Appends one confirmed prime to the buffer. When that fills the buffer
    /// to the flush threshold, exactly one flush runs synchronously before
    /// returning; below the threshold nothing is written and the call cannot
    /// fail. A failed triggered flush leaves every record — the new one
    /// included — buffered.
    pub fn add_prime(&mut self, prime: PrimeNumber) -> (r: Result<(), DbError>)
        ensures
            final(self).threshold() == old(self).threshold(),
            old(self).buffered().len() + 1 < old(self).threshold() ==> ((r matches Ok(()))
                && final(self).buffered() =~= old(self).buffered().push(prime@)
                && final(self).committed() =~= old(self).committed()),
            old(self).buffered().len() + 1 >= old(self).threshold() ==> (match r {
                Ok(()) => final(self).buffered().len() == 0 && final(self).committed()
                    =~= old(self).committed() + old(self).buffered().push(prime@),
                Err(_) => final(self).buffered() =~= old(self).buffered().push(prime@)
                    && final(self).committed() =~= old(self).committed(),
            }),
    {
        self.delayed_primes.push(prime);

        if self.delayed_primes.len() >= self.flush_threshold {
            return self.flush_primes();
        }

        Ok(())
    }

    /// Writes every buffered record to durable storage inside one
    /// transaction: either all of them become durable, in buffer order, and
    /// the buffer is cleared, or none of them do and the buffer is left
    /// exactly as it was. There is no partial flush.
    pub fn flush_primes(&mut self) -> (r: Result<(), DbError>)
        ensures
            final(self).threshold() == old(self).threshold(),
            match r {
                Ok(()) => final(self).buffered().len() == 0 && final(self).committed()
                    =~= old(self).committed() + old(self).buffered(),
                Err(_) => final(self).buffered() =~= old(self).buffered() && final(self).committed()
                    =~= old(self).committed(),
            },
    {
        match begin_transaction(&self.conn) {
            Ok(()) => {},
            Err(e) => {
                return Err(DbError::Storage(e));
            },
        }

        let mut i: usize = 0;
        while i < self.delayed_primes.len()
            invariant
                i <= self.delayed_primes.len(),
            decreases self.delayed_primes.len() - i,
        {
            let number = self.delayed_primes[i].number;
            let outcome = insert_prime_row(
                &self.conn,
                number,
                self.delayed_primes[i].created_at.as_str(),
                self.delayed_primes[i].elapsed_secs.as_str(),
            );
            match outcome {
                Ok(()) => {},
                Err(e) => {
                    // The transaction as a whole is abandoned; nothing of it
                    // became durable and the buffer is untouched.
                    let _ = rollback_transaction(&self.conn);
                    return Err(DbError::Storage(e));
                },
            }
            i = i + 1;
        }

        match commit_transaction(&self.conn) {
            Ok(()) => {},
            Err(e) => {
                let _ = rollback_transaction(&self.conn);
                return Err(DbError::Storage(e));
            },
        }

        self.committed_log = Ghost(self.committed_log@ + self.buffered());
        self.delayed_primes = Vec::new();
        Ok(())
    }

    /// The resume point: the largest stored prime, or the default of 2 when
    /// the store holds none (the empty answer is not a fault). What the
    /// query returns is the store's to decide; any storage fault propagates.
    pub fn get_latest_prime(&self) -> (r: Result<u32, DbError>) {
        match query_max_number(&self.conn) {
            Ok(stored_max) => Ok(resume_point(stored_max)),
            Err(e) => Err(DbError::Storage(e)),
        }
    }
}

} // verus!
