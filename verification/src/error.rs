//! Error taxonomy of the kinship engine. Every category is fatal to the whole
//! run: no error is retried or downgraded, and no partial matrix is returned.

use vstd::prelude::*;

verus! {

/// A fault in the text of the genotype panel.
#[derive(Debug, Clone, PartialEq, Eq)]
pub enum FormatError {
    /// The input ended before a header line was found.
    EmptyInput,
    /// The header line names no markers.
    MalformedHeader,
    /// A record line has no tab between the row id and the genotype string.
    MissingSeparator,
    /// A record's genotype string does not have one character per marker.
    LengthMismatch { expected: usize, found: usize },
    /// A genotype character is absent from the mapping table.
    UnmappedChar { ch: char },
}

/// A fault in the run configuration.
#[derive(Debug, Clone, PartialEq, Eq)]
pub enum ConfigError {
    /// The batch size must be at least one.
    BatchSizeZero,
    /// Fewer records than markers: the estimate is not well posed.
    NotEnoughRows { rows: usize, ids: usize },
    /// A mapping-table value lies outside the dosage range the engine admits.
    ValueOutOfRange { ch: char, value: i64 },
}

/// The accelerator cannot be used.
#[derive(Debug, Clone, PartialEq, Eq)]
pub enum CapabilityError {
    /// A runtime library the accelerator needs cannot be loaded.
    LibraryMissing,
    /// No compatible accelerator device is present.
    NoDevice,
}

/// Any fatal fault of a kinship run.
#[derive(Debug, Clone, PartialEq, Eq)]
pub enum ProcessingError {
    /// The underlying stream could not be read.
    Io(String),
    /// The panel text is malformed; `row` is the index of the offending
    /// record line, counted from the first record (0 for faults found before
    /// any record).
    Format { row: usize, error: FormatError },
    /// The run configuration is invalid.
    Config(ConfigError),
    /// The accelerator was requested but is unavailable.
    Capability(CapabilityError),
    /// A worker's computation faulted.
    Kernel(String),
}

} // verus!
