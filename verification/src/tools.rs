//! What agents can call.

pub mod access;
pub mod cargo_run;
pub mod definition;
pub mod file_edit;
pub mod file_list;
pub mod file_read;
pub mod file_read_many;
pub mod file_write;
pub mod git_commit;
pub mod grep;
pub mod invocation;
pub mod memory;
pub mod output;
pub mod path_parts;
pub mod path_safe;
pub mod registry;
pub mod routing;
pub mod skill_read;
pub mod web_fetch;

pub use crate::tools::cargo_run::CargoRunTool;
pub use crate::tools::definition::{EchoTool, ToolDefinition};
pub use crate::tools::file_edit::FileEditTool;
pub use crate::tools::file_list::FileListTool;
pub use crate::tools::file_read::FileReadTool;
pub use crate::tools::file_read_many::FileReadManyTool;
pub use crate::tools::file_write::FileWriteTool;
pub use crate::tools::git_commit::GitCommitTool;
pub use crate::tools::grep::GrepTool;
pub use crate::tools::invocation::ToolInvocation;
pub use crate::tools::memory::{MemoryDeleteTool, MemoryQueryTool, MemoryStoreTool};
pub use crate::tools::registry::ToolRegistry;
pub use crate::tools::skill_read::{SkillReadTool, SkillRegistry};
pub use crate::tools::web_fetch::WebFetchTool;
