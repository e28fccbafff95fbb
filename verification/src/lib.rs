//! jbx: run Java scripts with their dependencies.
//!
//! This library holds the logic of the tool: script directives, Maven
//! coordinates, version ordering and dependency resolution, JDK version
//! selection, catalogs, trust records and the texts that the tool writes.
use vstd::prelude::*;

pub mod text;
pub mod version;
pub mod resolver;
pub mod resolution;
pub mod pom;
pub mod init;
pub mod remote;
pub mod trust;
pub mod export;
pub mod apps;
pub mod junit;
pub mod catalog;
pub mod source;
pub mod publish;
pub mod descriptor;
pub mod check;
pub mod cli;
pub mod javadoc;
pub mod pattern;
pub mod docs_select;
pub mod fmt;
pub mod repository;
pub mod directives;
pub mod jdk;
pub mod juvx;
pub mod compile;
pub mod docs;
pub mod java_source;
pub mod json_text;

pub use directives::{parse_directives, split_directive_words, Directives, KeyValue};

verus! {

/// Filesystem paths are carried through the library without being read.
#[verifier::external_type_specification]
#[verifier::external_body]
pub struct ExPathBuf(std::path::PathBuf);

/// Borrowed paths, likewise.
#[verifier::external_type_specification]
#[verifier::external_body]
pub struct ExPath(std::path::Path);

} // verus!
