//! What the search for stores in a directory tree has to decide and to say:
//! which files are stores, and the lines that tell of the progress.

use vstd::prelude::*;
use vstd::string::*;

use crate::text::{push_decimal, same_text};

verus! {

/// The kind of store that a file holds.
#[derive(Clone, Copy, Debug, PartialEq, Eq, Structural)]
pub enum StoreKind {
    /// The store of the database engine, `Windows.edb`.
    Ese,
    /// The relational database, `Windows.db`.
    Sqlite,
}

/// The kind of store that a file of the given name holds. Only the two names
/// under which the search index keeps its stores are known.
pub open spec fn kind_of_file(name: Seq<char>) -> Option<StoreKind> {
    if name == "Windows.edb"@ {
        Some(StoreKind::Ese)
    } else if name == "Windows.db"@ {
        Some(StoreKind::Sqlite)
    } else {
        None
    }
}

/// Tells the kind of store from the name of a file.
pub fn store_kind(file_name: &str) -> (r: Option<StoreKind>)
    ensures
        r == kind_of_file(file_name@),
{
    if same_text(file_name, "Windows.edb") {
        Some(StoreKind::Ese)
    } else if same_text(file_name, "Windows.db") {
        Some(StoreKind::Sqlite)
    } else {
        None
    }
}

/// The line that announces the work on a store.
pub fn processing_message(path: &str) -> (r: String)
    ensures
        r@ == "Processing ESE db: "@ + path@,
{
    let mut r = String::from_str("Processing ESE db: ");
    r.append(path);
    r
}

/// The line that tells that the work on a store has failed.
pub fn failure_message(kind: StoreKind, path: &str, error: &str) -> (r: String)
    ensures
        r@ == (match kind {
            StoreKind::Ese => "ese_generate_report("@,
            StoreKind::Sqlite => "sqlite_generate_report("@,
        }) + path@ + ") failed with error: "@ + error@,
{
    let mut r = match kind {
        StoreKind::Ese => String::from_str("ese_generate_report("),
        StoreKind::Sqlite => String::from_str("sqlite_generate_report("),
    };
    r.append(path);
    r.append(") failed with error: ");
    r.append(error);
    r
}

/// What is said of the number of stores that were found in a directory:
/// nothing where there was none.
pub open spec fn found_text(processed: u64) -> Option<Seq<char>> {
    if processed > 0 {
        Some(
            "\nFound "@ + crate::text::decimal(processed as nat) + " Windows Search database(s)"@,
        )
    } else {
        None
    }
}

/// The line that sums a directory up.
pub fn found_message(processed: u64) -> (r: Option<String>)
    ensures
        match r {
            Some(s) => found_text(processed) == Some(s@),
            None => found_text(processed) is None,
        },
{
    if processed > 0 {
        let mut r = String::from_str("\nFound ");
        push_decimal(&mut r, processed);
        r.append(" Windows Search database(s)");
        Some(r)
    } else {
        None
    }
}

} // verus!
