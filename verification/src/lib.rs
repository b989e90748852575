//! Verified core of a desktop toolbox for PDF, image and video batch jobs:
//! the checks on each request, the parsing of series download lists, the
//! listings of input directories, and the bookkeeping of batch runs.
pub mod batch;
pub mod download;
pub mod jobs;
pub mod listing;
pub mod models;
pub mod paths;
pub mod properties;
pub mod recut;
pub mod series;
pub mod text;
pub mod validation;
