//! Holders for the data-file generation stage of the visualization.

use vstd::prelude::*;

verus! {

/// The engine that writes one data file per charted series under its
/// directory.
#[derive(Debug)]
pub struct DataEngine {
    /// The directory the data files are written under, as text.
    pub path: String,
}

impl DataEngine {
    /// An engine writing under the given directory.
    pub fn new(path: String) -> (r: DataEngine)
        ensures
            r.path == path,
    {
        DataEngine { path }
    }
}

/// The generator of series files under a directory.
#[derive(Debug)]
pub struct SeriesGenerator {
    /// The directory the series files are written under, as text.
    pub path: String,
}

impl SeriesGenerator {
    /// A generator writing under the given directory.
    pub fn new(path: String) -> (r: SeriesGenerator)
        ensures
            r.path == path,
    {
        SeriesGenerator { path }
    }
}

/// An adapter that will drop per-chunk errors from a stream and keep the
/// decoded chunks.
#[derive(Debug)]
pub struct ErrorHandlingIter<I> {
    /// The stream the adapter reads from.
    pub iter: I,
}

impl<I> ErrorHandlingIter<I> {
    /// An adapter over the given stream.
    pub fn new(iter: I) -> (r: ErrorHandlingIter<I>)
        ensures
            r.iter == iter,
    {
        ErrorHandlingIter { iter }
    }
}


/// The on-disk layout of the whole visualization: the index file, the
/// view pages and the data files, each under its path.
#[derive(Debug)]
pub struct VisLayout {
    /// The path of the index file, as text.
    pub index_file_path: String,
    /// The directory the view pages are written under, as text.
    pub views_path: String,
    /// The directory the data files are written under, as text.
    pub data_path: String,
}

impl VisLayout {
    /// The layout rooted at the given paths.
    pub fn new(index_file_path: String, views_path: String, data_path: String) -> (r: VisLayout)
        ensures
            r.index_file_path == index_file_path,
            r.views_path == views_path,
            r.data_path == data_path,
    {
        VisLayout { index_file_path, views_path, data_path }
    }
}

/// The on-disk layout of a single-page visualization: the root, the index
/// file and the series directory.
#[derive(Debug)]
pub struct DataVis {
    /// The root directory of the visualization, as text.
    pub root_path: String,
    /// The path of the index file, as text.
    pub index_file_path: String,
    /// The directory the series files are written under, as text.
    pub series_path: String,
}

impl DataVis {
    /// The layout rooted at the given paths.
    pub fn new(root_path: String, index_file_path: String, series_path: String) -> (r: DataVis)
        ensures
            r.root_path == root_path,
            r.index_file_path == index_file_path,
            r.series_path == series_path,
    {
        DataVis { root_path, index_file_path, series_path }
    }
}

} // verus!
