//! Release decisions for a repository that follows conventional commits:
//! ranking of version tags, classification of commit subjects, the choice
//! of the bump level, the next version tag and the changelog section.

pub mod text;
pub mod version;
pub mod commit;
pub mod changelog;
pub mod release;

pub use changelog::{make_changelog, sort_commits};
pub use commit::{classify, release_bump, select_bump, CommitKind, Conventional};
pub use release::{manifest_paths, release_notes, set_manifest_version, Manifest, PathSetting};
pub use version::{bump, checked_bump, semver, version_of, MAJOR_BUMP, MINOR_BUMP, PATCH_BUMP};
