//! Project-level metadata describing a collection of documents.  These
//! records do not take part in the container codec; they are plain data that
//! surrounding tooling reads and writes.

use vstd::prelude::*;

verus! {

#[derive(Debug, Clone, PartialEq)]
pub struct FractalProject {
    pub meta: Meta,
    pub settings: Settings,
    pub included_files: Vec<String>,
    /// Excluded from project scope.
    pub exclude_files: Vec<String>,
}

#[derive(Debug, Clone, PartialEq)]
pub struct Meta {
    pub author: String,
    pub title: String,
    pub tags: Vec<String>,
    pub creation_date: Option<u64>,
    pub last_change_date: Option<u64>,
}

#[derive(Debug, Clone, PartialEq)]
pub struct Settings {
    pub auto_include: bool,
    /// Not linked to when mentioned in a file, but still part of the project.
    pub auto_linking_ignore: Vec<String>,
}

} // verus!
