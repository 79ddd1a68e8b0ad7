//! Audits which version of a named package is referenced across the
//! repositories of a hosted project: manifest lines are parsed for a
//! dependency declaration, matching references are accumulated per
//! repository, and a grouped, version-sorted text report is rendered.

pub mod models;
pub mod paging;
pub mod report;
pub mod scan;
pub mod text;
