//! The messages between the host and the two search workers, and the workers.

use vstd::prelude::*;
use crate::search::{Search, SearchType};

verus! {

/// What a worker is asked to do.
#[derive(PartialEq, Eq, Structural, Clone, Copy, Debug)]
pub enum MessageToSearch {
    ScanFolder,
    Search,
}

/// What a worker reports back.
#[derive(PartialEq, Eq, Structural, Clone, Copy, Debug)]
pub enum MessageToPlugin {
    UpdateFileNameSearchResults,
    UpdateFileContentsSearchResults,
    DoneScanningFolder,
}

/// The worker that searches file names.
pub struct FileNameWorker {
    pub search: Search,
}

impl Default for FileNameWorker {
    fn default() -> (r: Self)
        ensures
            r.search.search_type() == SearchType::Names,
            r.search.names().len() == 0,
            r.search.contents().len() == 0,
            r.search.name_cache().len() == 0,
            r.search.content_cache().len() == 0,
            r.search.well_formed(),
    {
        FileNameWorker { search: Search::new(SearchType::Names) }
    }
}

/// The worker that searches the lines of files.
pub struct FileContentsWorker {
    pub search: Search,
}

impl Default for FileContentsWorker {
    fn default() -> (r: Self)
        ensures
            r.search.search_type() == SearchType::Contents,
            r.search.names().len() == 0,
            r.search.contents().len() == 0,
            r.search.name_cache().len() == 0,
            r.search.content_cache().len() == 0,
            r.search.well_formed(),
    {
        FileContentsWorker { search: Search::new(SearchType::Contents) }
    }
}

} // verus!
