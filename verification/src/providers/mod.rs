//! Sources of events: text files, CSV files, SQLite databases and web services.

pub mod csv;
pub mod sample;
pub mod sqlite;
pub mod text;
pub mod web;

pub use csv::CSVFileProvider;
pub use sample::TestProvider;
pub use sqlite::SQLiteProvider;
pub use text::TextFileProvider;
pub use web::WebProvider;

use vstd::prelude::*;

verus! {

/// Why adding an event to a source failed.
#[derive(Debug, Clone, Copy, PartialEq, Eq, Structural)]
pub enum EventProviderError {
    /// The source takes events but could not take this one.
    OperationFailed,
    /// The source takes no events.
    OperationNotSupported,
}

} // verus!
