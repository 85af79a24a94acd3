//! Egress connectivity audit: the policy model, destination resolution,
//! per-rule and per-group result aggregation, and the decisions of the
//! instance-metadata region lookup.

pub mod filters;
pub mod text;
pub mod egress;
pub mod target;
pub mod conncheck;
pub mod imds;
