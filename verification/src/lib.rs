//! Decides which Cargo dependencies may move to a release that has aged long enough.
//!
//! The library reads manifests, lock files and configuration, tells the stable versions of a
//! crate from the others, compares their age with the minimum age, and plans the updates. It
//! touches neither files nor the network: what is found there comes in as plain values, and
//! what is to be done and said goes out as plain values.

pub mod age;
pub mod check;
pub mod config;
pub mod document;
pub mod lockfile;
pub mod manifest;
pub mod pass;
pub mod report;
pub mod rows;
pub mod run;
pub mod status;
pub mod text;
pub mod time;
pub mod versions;

pub use crate::age::{parse_min_publish_age, read_days, AgeError};
pub use crate::check::{run_check, write_status, Check, CheckReport, CheckStep};
pub use crate::config::{
    cargo_home, find_config_min_age, find_config_min_age_with_home, min_age_in_config,
    read_config_min_age_from_file, read_config_min_age_from_str, require_min_age, resolve_min_age,
    CargoHome, ConfigDir, ConfigError, ConfigFile, ConfigSearch, FileState, ResolveError, HOME_CONFIG,
    HOME_CONFIG_LEGACY, NO_MIN_AGE, PROJECT_CONFIG, PROJECT_CONFIG_LEGACY,
};
pub use crate::document::{parse_toml, Toml};
pub use crate::lockfile::{locked_versions_from_str, locked_versions_in};
pub use crate::manifest::{
    classify, collect_deps, manifest_dependencies, parse_manifest_str, DepKind, Dependency,
    ManifestError,
};
pub use crate::pass::{
    plan_dep, Attempt, Next, Pass, PassStep, Plan, PlanReport, Progress, ProgressReport,
    MAX_UPDATE_ATTEMPTS,
};
pub use crate::report::{write_heading, Line};
pub use crate::run::{
    strip_subcommand, update_args, update_failure, Options, Run, RunNext, RunStep,
    MAX_ITERATE_PASSES,
};
pub use crate::status::{classify_dep, skip_without_lookup, DepStatus, Facts, SkipReason};
pub use crate::time::Timestamp;
pub use crate::versions::{
    crate_url, is_stable, read_reply, stable_versions, versions_from_reply, LookupError,
    StableVersion, VersionInfo,
};
