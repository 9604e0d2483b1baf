//! A verified core for a small HTTP front-end over a version-control tool.
//!
//! The library validates untrusted path-like inputs (repository names,
//! branch names, object identifiers), parses the tool's line-oriented
//! output (commit logs in two formats, tree listings, object lists) into
//! typed records, and caches computed results per key.  All subprocess
//! and filesystem work stays outside the library; callers hand in the
//! captured output text and get structured values back.

pub mod cache;
pub mod commits;
pub mod dates;
pub mod errors;
pub mod object;
pub mod repo;
pub mod strutil;
pub mod validation;

pub use cache::{cache_key, RepoCache};
pub use commits::{last_commit_of_log, parse_commit_stream, parse_record, Commit, LogFormat};
pub use dates::{parse_date_to_string, parse_string_to_date, Date};
pub use errors::GitApiError;
pub use object::{extension_of, finish_tool_output, get_filename_from_hash, Object};
pub use repo::{repo_display_name, ParsedObject, Repo, RepoBranchFile, RepoData, RepoSource};
pub use validation::{
    normalize_path, validate_branch_name, validate_hash, validate_repo_name, validate_repo_path,
};
