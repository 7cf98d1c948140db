//! What the caller read from disk, as plain values: the library itself
//! reads no file.

use vstd::prelude::*;
use crate::text::same_text;

verus! {

/// An entry of a directory, as the caller found it.
#[derive(Debug, PartialEq, Eq)]
pub struct SourceFile {
    /// The entry's full path.
    pub path: String,
    /// Whether the entry is a regular file.
    pub is_file: bool,
    /// The entry's text, or nothing if it could not be read as text.
    pub content: Option<String>,
    /// When the entry was last modified, in milliseconds since the epoch.
    pub modified_millis: u64,
    /// Why the time of modification cannot be given in milliseconds since
    /// the epoch, if it cannot: a node file with such a time is rejected.
    pub modified_error: Option<String>,
}

/// The model of a [`SourceFile`].
pub ghost struct SourceFileModel {
    pub path: Seq<char>,
    pub is_file: bool,
    pub content: Option<Seq<char>>,
    pub modified_millis: u64,
    pub modified_error: Option<Seq<char>>,
}

impl DeepView for SourceFile {
    type V = SourceFileModel;

    open spec fn deep_view(&self) -> SourceFileModel {
        SourceFileModel {
            path: self.path@,
            is_file: self.is_file,
            content: self.content.deep_view(),
            modified_millis: self.modified_millis,
            modified_error: self.modified_error.deep_view(),
        }
    }
}

impl View for SourceFile {
    type V = SourceFileModel;

    open spec fn view(&self) -> SourceFileModel {
        self.deep_view()
    }
}

/// What the caller found where a directory was expected.
#[derive(Debug, PartialEq, Eq)]
pub enum Listing {
    /// Nothing is there.
    Missing,
    /// What is there is not a directory.
    NotADirectory,
    /// The directory could not be read; the message says why.
    Unreadable(String),
    /// The directory's entries.
    Entries(Vec<SourceFile>),
}

/// The model of a [`Listing`].
pub ghost enum ListingModel {
    Missing,
    NotADirectory,
    Unreadable(Seq<char>),
    Entries(Seq<SourceFileModel>),
}

impl DeepView for Listing {
    type V = ListingModel;

    open spec fn deep_view(&self) -> ListingModel {
        match self {
            Listing::Missing => ListingModel::Missing,
            Listing::NotADirectory => ListingModel::NotADirectory,
            Listing::Unreadable(m) => ListingModel::Unreadable(m@),
            Listing::Entries(files) => ListingModel::Entries(files.deep_view()),
        }
    }
}

impl View for Listing {
    type V = ListingModel;

    open spec fn view(&self) -> ListingModel {
        self.deep_view()
    }
}

/// A directory as the caller found it.
#[derive(Debug, PartialEq, Eq)]
pub struct DirSnapshot {
    pub path: String,
    pub listing: Listing,
}

/// The model of a [`DirSnapshot`].
pub ghost struct DirSnapshotModel {
    pub path: Seq<char>,
    pub listing: ListingModel,
}

impl DeepView for DirSnapshot {
    type V = DirSnapshotModel;

    open spec fn deep_view(&self) -> DirSnapshotModel {
        DirSnapshotModel { path: self.path@, listing: self.listing@ }
    }
}

impl View for DirSnapshot {
    type V = DirSnapshotModel;

    open spec fn view(&self) -> DirSnapshotModel {
        self.deep_view()
    }
}

/// The listing that the snapshots hold for a path: that of the first
/// snapshot of the path, and `Missing` if there is none.
pub open spec fn listing_of(snapshots: Seq<DirSnapshotModel>, path: Seq<char>) -> ListingModel
    decreases snapshots.len(),
{
    if snapshots.len() == 0 {
        ListingModel::Missing
    } else if snapshots[0].path == path {
        snapshots[0].listing
    } else {
        listing_of(snapshots.skip(1), path)
    }
}

/// Finds the listing of a path among the snapshots.
pub fn find_listing<'a>(snapshots: &'a Vec<DirSnapshot>, path: &str) -> (r: Option<&'a Listing>)
    ensures
        match r {
            Some(l) => l@ == listing_of(snapshots.deep_view(), path@),
            None => listing_of(snapshots.deep_view(), path@) is Missing,
        },
{
    let mut i: usize = 0;
    assert(snapshots.deep_view().skip(0) =~= snapshots.deep_view());
    while i < snapshots.len()
        invariant
            i <= snapshots.len(),
            listing_of(snapshots.deep_view(), path@) == listing_of(
                snapshots.deep_view().skip(i as int),
                path@,
            ),
        decreases snapshots.len() - i,
    {
        let ghost rest = snapshots.deep_view().skip(i as int);
        assert(rest[0] == snapshots@[i as int]@);
        assert(rest.skip(1) =~= snapshots.deep_view().skip(i + 1));
        if same_text(snapshots[i].path.as_str(), path) {
            return Some(&snapshots[i].listing);
        }
        i += 1;
    }
    None
}

} // verus!
