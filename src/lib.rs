//! Trustworthiness scoring of open-source repositories: identity resolution
//! of package URLs, the parsing of hosting-platform responses, the metric
//! formulas, and the ranked report.

pub mod text;
pub mod json;
pub mod weburl;
pub mod pagination;
pub mod github;
pub mod npm;
pub mod metrics;
pub mod report;
pub mod date;
pub mod input;
pub mod test_report;
