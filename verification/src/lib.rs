//! Verified core of a Node.js package manager: platform and
//! installability checks, the `package.json` model, populating the
//! virtual store from a lockfile, direct-dependency links, build
//! policies and build order, the hoisted dependency graph, and the
//! `.modules.yaml` record and its validation.

pub mod platform;
pub mod text;
pub mod path;
pub mod lockfile;
pub mod build_sequence;
pub mod sequence_laws;
pub mod add;
pub mod json;
pub mod build_modules;
pub mod validate_modules;
pub mod link_file;
pub mod installability;
pub mod virtual_store;
pub mod virtual_store_layout;
pub mod manifest_core;
pub mod package_manifest;
pub mod package_json;
pub mod slots;
pub mod symlink_direct;
pub mod link_bins;
pub mod fetch;
pub mod install;
pub mod hoisted;
pub mod hoisted_laws;
pub mod without_lockfile;
