//! The errors of the payment engine.
use vstd::prelude::*;

verus! {

/// `csv::Error`, carried through unread.
#[verifier::external_type_specification]
#[verifier::external_body]
pub struct ExCsvError(csv::Error);

/// `std::io::Error`, carried through unread.
#[verifier::external_type_specification]
#[verifier::external_body]
pub struct ExIoError(std::io::Error);

/// What can go wrong in the payment engine.
#[derive(Debug)]
#[allow(inconsistent_fields)]
pub enum EngineError {
    /// An invalid command line argument.
    InvalidCliArgument(String),
    /// The transactions could not be read as CSV, or the accounts not written.
    CsvParseError { source: csv::Error },
    /// The file could not be opened or read.
    FileError { source: std::io::Error },
    /// The on-disk ledger could not be set up.
    LedgerInitError(String),
    /// A task panicked or was cancelled.
    TaskError(String),
    /// The runtime could not be built.
    RuntimeError(String),
    /// A configuration value could not be parsed or was out of range.
    ConfigError(String),
    /// The engine could not be built.
    EngineInitError(String),
}

} // verus!
