//! Collects marked comments, such as `// TODO: ...`, from the source files
//! of a project into one report.

pub mod aggregator;
pub mod collector;
pub mod comment;
pub mod error;
pub mod expand;
pub mod fileformat;
pub mod path;
pub mod project;
pub mod source_file;
pub mod text;
pub mod todofile;
pub mod walker;
pub mod workspace;

pub use collector::TodoCollector;
pub use comment::{Comment, CommentLine};
pub use error::CollectError;
pub use fileformat::FileFormat;
pub use project::{Action, Event, Notice, Project, ProjectRun};
pub use source_file::{SourceFile, SourceFileType};
pub use todofile::TodofileCommand;
pub use walker::{Entry, Walker};
pub use workspace::WorkspaceRun;
