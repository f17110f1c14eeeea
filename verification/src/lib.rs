//! Discrete core of a numeric statistics service.
//!
//! The statistics themselves are computed over IEEE floating-point numbers by
//! the surrounding service; everything order-theoretic and combinatorial about
//! them — sorting, order-statistic selection, tie-aware ranking, concordance
//! counting, histogram binning, and retrieval-set accounting — is independent
//! of the numeric representation and is verified here. Sample values enter
//! this crate as *order keys*: signed integers whose ordering and equality
//! agree with the ordering and equality of the values they stand for.

pub mod binrule;
pub mod bins;
pub mod counting;
pub mod ecdf;
pub mod error;
pub mod hubness;
pub mod kendall;
pub mod mode;
pub mod order;
pub mod outliers;
pub mod ranks;
pub mod retrieval;
pub mod state;
pub mod types;

pub use binrule::{parse_bin_rule, BinRule};
pub use bins::{bin_index, histogram_counts};
pub use ecdf::ecdf_steps;
pub use error::ServiceError;
pub use hubness::{gini_sums, occurrence_counts};
pub use kendall::{kendall_pair_counts, PairCounts};
pub use mode::modal_keys;
pub use order::{kth_smallest, max_key, median_key_pair, min_key, sort_keys};
pub use outliers::outlier_indices;
pub use ranks::average_ranks_doubled;
pub use retrieval::{
    distinct_count, first_relevant_rank, hit_positions, hits_at_k, ideal_relevance_flags,
    relevance_flags,
};
pub use state::AppState;
pub use types::{BinRuleOut, CorrMethod, ErrorResponse, NormMethod, OutlierMethod};
