//! The project listing: plain records read from the projects file at start
//! and paged through the component endpoint. Loading and decoding the file
//! is the caller's work; paging them is the pagination contract.
use vstd::prelude::*;

verus! {

/// One listed project.
pub struct Project {
    pub title: String,
    pub description: String,
    pub source_url: String,
    pub deploy_url: Option<String>,
    pub image_url: Option<String>,
}

/// The projects file: a list of project records.
pub struct ProjectsFile {
    pub project: Vec<Project>,
}

} // verus!
