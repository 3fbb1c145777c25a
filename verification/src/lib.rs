//! Verified core of a package-download reporting pipeline: it reduces
//! per-day download breakdowns to a latest-day total, aggregates
//! per-package fetch outcomes into an ordered report, computes
//! percentage shares for package pairs, serializes the report as JSON,
//! and prepares the publish request for a remote snippet store.

pub mod assoc;
pub mod counts;
pub mod daily;
pub mod fetch;
pub mod json;
pub mod publish;
pub mod ratio;
pub mod report;
pub mod strnum;
