//! A linter for Python, Rust and JavaScript/TypeScript sources that works on
//! raw bytes: it splits a file into lines, applies its rules to each line in
//! turn and, in fix mode, rewrites the lines that a fix applies to.


pub mod bytes;
pub mod lines;
pub mod report;
pub mod language;
pub mod rules;
pub mod fix;
pub mod analyze;
pub mod laws;
pub mod rule_laws;
pub mod cache;
pub mod debug_scan;

pub use analyze::{analyze_and_fix, lint_content, FileAnalysis, LintOutcome};
pub use cache::{should_skip, FileStamp};
pub use language::{is_target_file, Language};
pub use report::LintReport;
