pub mod branch;
pub mod clock;
pub mod deletion;
pub mod finder;

pub use branch::{BranchManager, GitBranch, HeadRef, RawBranch, RepoSnapshot};
pub use deletion::{DeleteOutcome, DeleteRequest, DeletionReport, DeletionRun, ReportEntry};
pub use finder::GitFinder;
