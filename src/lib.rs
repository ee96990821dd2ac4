pub mod cache;
pub mod codec;
pub mod query;
pub mod rule;
pub mod targets;
pub mod text;
pub mod wire;
pub mod workspace;

pub use cache::{get_cache_dir, get_query_bin_file_path, update_external, update_query, UpdateQueryOptions};
pub use rule::create_target_details;
pub use targets::{create_target_details_message, list_external_targets, list_targets};
pub use workspace::{find_bazel_workspace_path, get_workspace_name};
