//! Document versioning configuration and version summaries.

use vstd::prelude::*;

verus! {

/// Versioning configuration of a collection.
#[derive(Debug, Clone)]
pub struct VersioningConfig {
    /// Enable versioning.
    pub enabled: bool,
    /// `diff` (store only changes) or `snapshot` (full copy).
    pub mode: String,
    /// Maximum versions per document (-1: unlimited).
    pub max_versions: i64,
    /// How long versions are kept (`-1`: forever).
    pub retain_for: String,
    /// Track the author of each version.
    pub track_author: bool,
    /// Tag each version automatically.
    pub auto_tag: bool,
}

impl Default for VersioningConfig {
    /// Disabled, `diff` mode, 50 versions, kept forever, no author, no tags.
    fn default() -> (c: Self)
        ensures
            !c.enabled,
            c.mode@ == "diff"@,
            c.max_versions == 50,
            c.retain_for@ == "-1"@,
            !c.track_author,
            !c.auto_tag,
    {
        VersioningConfig {
            enabled: false,
            mode: "diff".to_string(),
            max_versions: 50,
            retain_for: "-1".to_string(),
            track_author: false,
            auto_tag: false,
        }
    }
}

/// Version information returned to the user.
#[derive(Debug, Clone)]
pub struct VersionInfo {
    pub version: u64,
    pub created_at: u64,
    pub author: Option<String>,
    pub tag: Option<String>,
    pub change_count: usize,
}

} // verus!
