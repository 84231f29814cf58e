//! Streaming computation of a genetic-relatedness (kinship) matrix from an
//! R/qtl2-style genotype panel.
//!
//! The panel is a line-oriented text table: leading `#` comment lines, one
//! header line naming the markers, then one record per line holding a row id
//! and one character per marker. Each character is decoded through a
//! caller-supplied mapping table into an integer dosage value. The kinship
//! matrix is the symmetric matrix of pairwise dosage products summed over all
//! records, with each cell divided by the number of records; the division is
//! kept exact by returning the summed numerators together with their common
//! divisor.

pub mod error;
pub mod geno;
pub mod kinship;
pub mod laws;
pub mod mapping;
pub mod pool;
pub mod reader;

pub use error::{CapabilityError, ConfigError, FormatError, ProcessingError};
pub use kinship::{
    calc_partial_kinship, merge_partial_kinship, mirror_and_scale_kinship, KinshipMatrix, WorkUnit,
    CELL_LIMIT, KINSHIP_LIMIT, VAL_LIMIT,
};
pub use geno::{
    consume_markers, fill_buffer, parse_geno, parse_into, parse_markers, parse_comments,
    parse_snp_rec, read_geno, GenoParser,
};
pub use mapping::SnpMapper;
pub use pool::{pool_size, pool_size_from_probes, GPU_POOL_CAP};
pub use reader::consume_comments2;
