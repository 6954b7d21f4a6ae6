//! Cache of VOD files: which URLs it keeps and where, and the decisions taken
//! while a file is looked up and downloaded into it.
//!
//! A file is downloaded into a temporary directory first and moved into the
//! cache only once complete, so that the cache never holds a partial file.

use vstd::prelude::*;

use crate::fspath::{
    components, component_view, path_components, path_stripped, strip_prefix, ComponentView,
    PathComponent,
};
use crate::weburl::{WebUrl, WebUrlView};

verus! {

/// Number of downloads into the cache that run at the same time, at most.
pub const CONCURRENT_DOWNLOADS: usize = 4;

/// Whether the components hold a `..`.
pub open spec fn climbs(cs: Seq<ComponentView>) -> bool {
    exists|i: int| 0 <= i < cs.len() && cs[i] is ParentDir
}

/// Path of the cached file of a URL, relative to the cache directory: the
/// path of an `api.allatra.video` URL under `/storage/videos`, unless it has
/// a `..` component, which could point outside the cache. `None` for any
/// other URL, which the cache does not keep.
pub open spec fn relative_path(u: WebUrlView) -> Option<Seq<char>> {
    if u.host != Some("api.allatra.video"@) {
        None
    } else {
        match path_stripped(u.path, "/storage/videos"@) {
            None => None,
            Some(p) => if climbs(path_components(p)) {
                None
            } else {
                Some(p)
            },
        }
    }
}

/// Whether the path has a `..` component.
fn has_parent_dir(path: &str) -> (res: bool)
    ensures
        res == climbs(path_components(path@)),
{
    let cs = components(path);
    let ghost v = path_components(path@);
    let mut i: usize = 0;
    while i < cs.len()
        invariant
            i <= cs@.len(),
            v == path_components(path@),
            v == crate::fspath::components_view(cs@),
            forall|j: int| 0 <= j < i ==> !(#[trigger] v[j] is ParentDir),
        decreases cs@.len() - i,
    {
        assert(v[i as int] == component_view(cs@[i as int]));
        if let PathComponent::ParentDir = cs[i] {
            return true;
        }
        i = i + 1;
    }
    false
}

/// Path of the cached file of the given URL, relative to the cache
/// directory; `None` when the cache does not keep such URLs.
pub fn url_to_relative_path(url: &WebUrl) -> (res: Option<String>)
    ensures
        match res {
            Some(p) => relative_path(url@) == Some(p@),
            None => relative_path(url@) is None,
        },
{
    match url.host_str() {
        Some(h) => {
            if !crate::text::str_eq(h, "api.allatra.video") {
                return None;
            }
        },
        None => {
            return None;
        },
    }
    match strip_prefix(url.path(), "/storage/videos") {
        None => None,
        Some(p) => if has_parent_dir(p.as_str()) {
            None
        } else {
            Some(p)
        },
    }
}

/// What the filesystem holds at a path.
#[derive(Clone, Copy, Debug, PartialEq, Eq, Structural)]
pub enum Entry {
    /// A file.
    File,
    /// A directory.
    Dir,
    /// Something else.
    Other,
    /// Nothing.
    Missing,
    /// What it holds cannot be read.
    Unreadable,
}

/// Answer to a look-up of a URL in the cache.
#[derive(Clone, Copy, Debug, PartialEq, Eq, Structural)]
pub enum Lookup {
    /// The file is cached.
    Cached,
    /// The file is not cached: it is to be downloaded.
    Schedule,
    /// Whether the file is cached cannot be told.
    Failed,
}

/// Answer to a look-up of a URL whose cached file path holds the given
/// entry: a file is the cached one; a path that cannot be read fails the
/// look-up; anything else has the file downloaded.
pub open spec fn lookup_of(e: Entry) -> Lookup {
    match e {
        Entry::File => Lookup::Cached,
        Entry::Unreadable => Lookup::Failed,
        _ => Lookup::Schedule,
    }
}

/// Answer to a look-up of a URL whose cached file path holds the given
/// entry.
pub fn lookup(e: Entry) -> (res: Lookup)
    ensures
        res == lookup_of(e),
{
    match e {
        Entry::File => Lookup::Cached,
        Entry::Unreadable => Lookup::Failed,
        _ => Lookup::Schedule,
    }
}

/// Step of a download into the cache: what is to be done next, or how the
/// download ended.
#[derive(Clone, Copy, Debug, PartialEq, Eq, Structural)]
pub enum DownloadStep {
    /// Look at the cached file path.
    CheckCached,
    /// Look at the temporary file path.
    CheckDownloading,
    /// Create the directory of the temporary file.
    CreateTemporaryDir,
    /// Request the URL.
    Request,
    /// Create the temporary file, which must not exist yet.
    CreateTemporaryFile,
    /// Copy the response body into the temporary file.
    Copy,
    /// Look at the cached file path again.
    RecheckCached,
    /// Remove the directory at the cached file path.
    RemoveDir,
    /// Create the directory of the cached file.
    CreateCachedDir,
    /// Rename the temporary file into the cached one.
    Rename,
    /// Copy the temporary file into the cached one.
    CopyFile,
    /// Remove the temporary file.
    RemoveTemporaryFile,
    /// The download ended.
    Finished(DownloadEnd),
}

/// How a download ended.
#[derive(Clone, Copy, Debug, PartialEq, Eq, Structural)]
pub enum DownloadEnd {
    /// The file was cached already.
    AlreadyCached,
    /// The file is being downloaded already.
    AlreadyDownloading,
    /// The temporary directory vanished: nothing was downloaded.
    Abandoned,
    /// The file was cached while it was being downloaded.
    CachedMeanwhile,
    /// The file is downloaded into the cache.
    Downloaded,
    /// The step failed.
    Failed(DownloadStepFailure),
}

/// Step at which a download failed.
#[derive(Clone, Copy, Debug, PartialEq, Eq, Structural)]
pub enum DownloadStepFailure {
    /// A directory could not be created.
    CreateDir,
    /// The URL could not be reached, or answered with an error.
    Request,
    /// The temporary file could not be created.
    CreateFile,
    /// The body could not be downloaded into the temporary file.
    Download,
    /// The directory at the cached file path could not be removed.
    RemoveDir,
    /// The temporary file could not be moved into the cache.
    Move,
    /// The temporary file could not be removed.
    RemoveFile,
}

/// Outcome of an action of a download other than a look at a path.
#[derive(Clone, Copy, Debug, PartialEq, Eq, Structural)]
pub enum Outcome {
    /// It succeeded.
    Done,
    /// It failed because a path does not exist.
    NotFound,
    /// It failed otherwise.
    Failed,
}

/// Whether the step looks at a path, rather than acts.
pub open spec fn is_check(s: DownloadStep) -> bool {
    s is CheckCached || s is CheckDownloading || s is RecheckCached
}

/// The step after a look at a path that holds `e`: a cached file ends the
/// download, and so does a temporary file (another download makes it); a
/// directory in place of the downloaded file is removed.
pub open spec fn after_check(s: DownloadStep, e: Entry) -> DownloadStep {
    match s {
        DownloadStep::CheckCached => if e == Entry::File {
            DownloadStep::Finished(DownloadEnd::AlreadyCached)
        } else {
            DownloadStep::CheckDownloading
        },
        DownloadStep::CheckDownloading => if e == Entry::File {
            DownloadStep::Finished(DownloadEnd::AlreadyDownloading)
        } else {
            DownloadStep::CreateTemporaryDir
        },
        _ => if e == Entry::File {
            DownloadStep::Finished(DownloadEnd::CachedMeanwhile)
        } else if e == Entry::Dir {
            DownloadStep::RemoveDir
        } else {
            DownloadStep::CreateCachedDir
        },
    }
}

/// The step after an action with the given outcome: a success goes on; a
/// temporary file that cannot be created for want of its directory
/// abandons the download; a failed rename falls back to a copy and a
/// removal; any other failure ends the download.
pub open spec fn after_action(s: DownloadStep, o: Outcome) -> DownloadStep {
    let fail = |f: DownloadStepFailure| DownloadStep::Finished(DownloadEnd::Failed(f));
    match s {
        DownloadStep::CreateTemporaryDir => if o == Outcome::Done {
            DownloadStep::Request
        } else {
            fail(DownloadStepFailure::CreateDir)
        },
        DownloadStep::Request => if o == Outcome::Done {
            DownloadStep::CreateTemporaryFile
        } else {
            fail(DownloadStepFailure::Request)
        },
        DownloadStep::CreateTemporaryFile => if o == Outcome::Done {
            DownloadStep::Copy
        } else if o == Outcome::NotFound {
            DownloadStep::Finished(DownloadEnd::Abandoned)
        } else {
            fail(DownloadStepFailure::CreateFile)
        },
        DownloadStep::Copy => if o == Outcome::Done {
            DownloadStep::RecheckCached
        } else {
            fail(DownloadStepFailure::Download)
        },
        DownloadStep::RemoveDir => if o == Outcome::Done {
            DownloadStep::CreateCachedDir
        } else {
            fail(DownloadStepFailure::RemoveDir)
        },
        DownloadStep::CreateCachedDir => if o == Outcome::Done {
            DownloadStep::Rename
        } else {
            fail(DownloadStepFailure::CreateDir)
        },
        DownloadStep::Rename => if o == Outcome::Done {
            DownloadStep::Finished(DownloadEnd::Downloaded)
        } else {
            DownloadStep::CopyFile
        },
        DownloadStep::CopyFile => if o == Outcome::Done {
            DownloadStep::RemoveTemporaryFile
        } else {
            fail(DownloadStepFailure::Move)
        },
        _ => if o == Outcome::Done {
            DownloadStep::Finished(DownloadEnd::Downloaded)
        } else {
            fail(DownloadStepFailure::RemoveFile)
        },
    }
}

/// Number of steps at most that a download still takes from the given step.
pub open spec fn steps_left(s: DownloadStep) -> nat {
    match s {
        DownloadStep::CheckCached => 12,
        DownloadStep::CheckDownloading => 11,
        DownloadStep::CreateTemporaryDir => 10,
        DownloadStep::Request => 9,
        DownloadStep::CreateTemporaryFile => 8,
        DownloadStep::Copy => 7,
        DownloadStep::RecheckCached => 6,
        DownloadStep::RemoveDir => 5,
        DownloadStep::CreateCachedDir => 4,
        DownloadStep::Rename => 3,
        DownloadStep::CopyFile => 2,
        DownloadStep::RemoveTemporaryFile => 1,
        DownloadStep::Finished(_) => 0,
    }
}

/// The end of a download that failed at the given step.
fn failed(f: DownloadStepFailure) -> (res: DownloadStep)
    ensures
        res == DownloadStep::Finished(DownloadEnd::Failed(f)),
{
    DownloadStep::Finished(DownloadEnd::Failed(f))
}

impl DownloadStep {
    /// The first step of a download.
    pub fn start() -> (res: DownloadStep)
        ensures
            res == DownloadStep::CheckCached,
    {
        DownloadStep::CheckCached
    }

    /// Whether this step looks at a path: its outcome is the entry found
    /// there.
    pub fn is_check(&self) -> (res: bool)
        ensures
            res == is_check(*self),
    {
        match self {
            DownloadStep::CheckCached | DownloadStep::CheckDownloading | DownloadStep::RecheckCached => true,
            _ => false,
        }
    }

    /// Whether the download ended.
    pub fn is_finished(&self) -> (res: bool)
        ensures
            res == (*self is Finished),
    {
        match self {
            DownloadStep::Finished(_) => true,
            _ => false,
        }
    }

    /// The step after this look at a path, which holds `e`.
    pub fn after_check(self, e: Entry) -> (res: DownloadStep)
        requires
            is_check(self),
        ensures
            res == after_check(self, e),
    {
        match self {
            DownloadStep::CheckCached => if e == Entry::File {
                DownloadStep::Finished(DownloadEnd::AlreadyCached)
            } else {
                DownloadStep::CheckDownloading
            },
            DownloadStep::CheckDownloading => if e == Entry::File {
                DownloadStep::Finished(DownloadEnd::AlreadyDownloading)
            } else {
                DownloadStep::CreateTemporaryDir
            },
            _ => if e == Entry::File {
                DownloadStep::Finished(DownloadEnd::CachedMeanwhile)
            } else if e == Entry::Dir {
                DownloadStep::RemoveDir
            } else {
                DownloadStep::CreateCachedDir
            },
        }
    }

    /// The step after this action, which had the outcome `o`.
    pub fn after_action(self, o: Outcome) -> (res: DownloadStep)
        requires
            !is_check(self),
            !(self is Finished),
        ensures
            res == after_action(self, o),
    {
        match self {
            DownloadStep::CreateTemporaryDir => if o == Outcome::Done {
                DownloadStep::Request
            } else {
                failed(DownloadStepFailure::CreateDir)
            },
            DownloadStep::Request => if o == Outcome::Done {
                DownloadStep::CreateTemporaryFile
            } else {
                failed(DownloadStepFailure::Request)
            },
            DownloadStep::CreateTemporaryFile => if o == Outcome::Done {
                DownloadStep::Copy
            } else if o == Outcome::NotFound {
                DownloadStep::Finished(DownloadEnd::Abandoned)
            } else {
                failed(DownloadStepFailure::CreateFile)
            },
            DownloadStep::Copy => if o == Outcome::Done {
                DownloadStep::RecheckCached
            } else {
                failed(DownloadStepFailure::Download)
            },
            DownloadStep::RemoveDir => if o == Outcome::Done {
                DownloadStep::CreateCachedDir
            } else {
                failed(DownloadStepFailure::RemoveDir)
            },
            DownloadStep::CreateCachedDir => if o == Outcome::Done {
                DownloadStep::Rename
            } else {
                failed(DownloadStepFailure::CreateDir)
            },
            DownloadStep::Rename => if o == Outcome::Done {
                DownloadStep::Finished(DownloadEnd::Downloaded)
            } else {
                DownloadStep::CopyFile
            },
            DownloadStep::CopyFile => if o == Outcome::Done {
                DownloadStep::RemoveTemporaryFile
            } else {
                failed(DownloadStepFailure::Move)
            },
            _ => if o == Outcome::Done {
                DownloadStep::Finished(DownloadEnd::Downloaded)
            } else {
                failed(DownloadStepFailure::RemoveFile)
            },
        }
    }
}

/// Every step of a download brings it closer to its end: whatever the
/// outcomes, a download ends within twelve steps.
pub proof fn lemma_download_progresses(s: DownloadStep, e: Entry, o: Outcome)
    requires
        !(s is Finished),
    ensures
        is_check(s) ==> steps_left(after_check(s, e)) < steps_left(s),
        !is_check(s) ==> steps_left(after_action(s, o)) < steps_left(s),
        steps_left(s) <= 12,
{
}

/// A download ends with the file downloaded only through a successful
/// rename of the temporary file, or a successful copy and removal of it.
pub proof fn lemma_downloaded_only_by_moving(s: DownloadStep, e: Entry, o: Outcome)
    ensures
        !is_check(s) && !(s is Finished) && after_action(s, o) == DownloadStep::Finished(
            DownloadEnd::Downloaded,
        ) ==> (s == DownloadStep::Rename || s == DownloadStep::RemoveTemporaryFile) && o
            == Outcome::Done,
        is_check(s) ==> after_check(s, e) != DownloadStep::Finished(DownloadEnd::Downloaded),
{
}

} // verus!
