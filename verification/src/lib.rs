//! Role reconciliation for installed systems.
//!
//! A system runs in a role: a named installation of reference that says which
//! patterns and packages belong on it. This library holds the roles of a
//! configuration ([`roles`], [`config`], [`control`]), finds the role that is
//! closest to what is installed ([`matcher`]), writes the query that asks the
//! dependency solver what a role installs and reads the solver's answer
//! ([`query`], [`repos`], [`resolver`]), and renders what it found: the
//! manifests of an installation, their digests, the differences between two
//! installations and the status report ([`manifest`], [`digest`], [`diff`],
//! [`status`]).
//!
//! Nothing here reads a file or runs the solver: the caller hands in texts and
//! plain values and gets plain values back.

pub mod config;
pub mod control;
pub mod diff;
pub mod digest;
pub mod ini;
pub mod inventory;
pub mod manifest;
pub mod matcher;
pub mod package;
pub mod query;
pub mod repos;
pub mod resolver;
pub mod roles;
pub mod sorting;
pub mod status;
pub mod text;

pub use crate::config::ConfigError;
pub use crate::inventory::{find_configs, OsRelease};
pub use crate::package::{Installation, Package};
pub use crate::query::ZypperConf;
pub use crate::roles::{ReferenceInstallation, Roles};
pub use crate::status::create_status_file;
