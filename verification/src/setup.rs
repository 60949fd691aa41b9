//! The start of a batch: from what the list file and the cache file hold to
//! the targets to work on and the cache to record them in.
//!
//! Whatever is wrong with the files is found here, before anything is
//! attempted.

use crate::cache::EntryView;
use crate::cache::ProgressCache;
use crate::codec::CacheLoadError;
use crate::codec::load;
use crate::codec::load_spec;
use crate::codec::loaded_view;
use crate::resolve::distinct;
use crate::resolve::resolve;
use crate::resolve::resolve_spec;
use crate::text::strings_view;
use vstd::prelude::*;

verus! {

/// Why a batch cannot start.
#[derive(Clone, Copy, Debug, PartialEq, Eq)]
pub enum SetupError {
    /// The cache file does not hold a progress cache.
    Cache(CacheLoadError),
    /// Neither a list nor a cache was given.
    NoTargetsSpecified,
}

/// What a batch starts from.
pub struct BatchPlan {
    /// The targets of the batch, each once.
    pub targets: Vec<String>,
    /// The progress made so far.
    pub cache: ProgressCache,
}

/// What a `BatchPlan` stands for.
pub struct PlanView {
    pub targets: Seq<Seq<char>>,
    pub cache: Seq<EntryView>,
}

impl View for BatchPlan {
    type V = PlanView;

    open spec fn view(&self) -> PlanView {
        PlanView { targets: strings_view(self.targets@), cache: self.cache@ }
    }
}

/// What the result of planning stands for.
pub open spec fn planned_view(r: Result<BatchPlan, SetupError>) -> Result<PlanView, SetupError> {
    match r {
        Ok(plan) => Ok(plan@),
        Err(e) => Err(e),
    }
}

/// What the content of a list file stands for.
pub open spec fn list_view(list: Option<&str>) -> Option<Seq<char>> {
    match list {
        Some(text) => Some(text@),
        None => None,
    }
}

/// The plan for a run without a cache file: the targets of the list, and an
/// empty cache.
pub open spec fn plan_without_cache(list: Option<Seq<char>>) -> Result<PlanView, SetupError> {
    match resolve_spec(list, None) {
        Ok(targets) => Ok(PlanView { targets, cache: Seq::empty() }),
        Err(_) => Err(SetupError::NoTargetsSpecified),
    }
}

/// The plan for a run with a cache file that was read with the result
/// `loaded`: none where the file is unusable; else the targets of the list,
/// or without a list those that the cache holds as not yet succeeded.
pub open spec fn plan_with_cache(
    list: Option<Seq<char>>,
    loaded: Result<Seq<EntryView>, CacheLoadError>,
) -> Result<PlanView, SetupError> {
    match loaded {
        Err(e) => Err(SetupError::Cache(e)),
        Ok(es) => match resolve_spec(list, Some(es)) {
            Ok(targets) => Ok(PlanView { targets, cache: es }),
            Err(_) => Err(SetupError::NoTargetsSpecified),
        },
    }
}

/// What is known of the cache file when a run starts.
#[derive(Clone, Copy, Debug, PartialEq, Eq)]
pub enum CacheFile<'a> {
    /// No cache file was named: the run keeps no record.
    NotNamed,
    /// A cache file was named, and does not exist yet: a first run.
    Missing,
    /// The cache file holds this text.
    Content(&'a str),
}

/// What a `CacheFile` stands for.
pub enum CacheFileView {
    NotNamed,
    Missing,
    Content(Seq<char>),
}

impl<'a> View for CacheFile<'a> {
    type V = CacheFileView;

    open spec fn view(&self) -> CacheFileView {
        match self {
            CacheFile::NotNamed => CacheFileView::NotNamed,
            CacheFile::Missing => CacheFileView::Missing,
            CacheFile::Content(text) => CacheFileView::Content(text@),
        }
    }
}

/// The plan for a run with the list `list` and the cache file `cache_file`.
pub open spec fn plan_spec(list: Option<Seq<char>>, cache_file: CacheFileView) -> Result<
    PlanView,
    SetupError,
> {
    match cache_file {
        CacheFileView::NotNamed => plan_without_cache(list),
        CacheFileView::Missing => plan_with_cache(list, load_spec(None)),
        CacheFileView::Content(text) => plan_with_cache(list, load_spec(Some(text))),
    }
}

/// The plan once the cache file, where one was named, was read with the
/// result `loaded`.
pub fn plan_with(list: Option<&str>, loaded: Option<Result<ProgressCache, CacheLoadError>>) -> (r:
    Result<BatchPlan, SetupError>)
    ensures
        planned_view(r) == match loaded {
            None => plan_without_cache(list_view(list)),
            Some(read) => plan_with_cache(list_view(list), loaded_view(read)),
        },
        r matches Ok(plan) ==> distinct(strings_view(plan.targets@)),
{
    match loaded {
        None => match resolve(list, None) {
            Ok(targets) => Ok(BatchPlan { targets, cache: ProgressCache::new() }),
            Err(_) => Err(SetupError::NoTargetsSpecified),
        },
        Some(Err(e)) => Err(SetupError::Cache(e)),
        Some(Ok(cache)) => match resolve(list, Some(&cache)) {
            Ok(targets) => Ok(BatchPlan { targets, cache }),
            Err(_) => Err(SetupError::NoTargetsSpecified),
        },
    }
}

/// Plans a batch from the content of the list file, where one was named, and
/// from what is known of the cache file.
///
/// An unusable cache file is an error even where a list is given: the run
/// would overwrite the progress that the file holds.
pub fn plan_batch(list: Option<&str>, cache_file: CacheFile) -> (r: Result<BatchPlan, SetupError>)
    ensures
        planned_view(r) == plan_spec(list_view(list), cache_file@),
        r matches Ok(plan) ==> distinct(strings_view(plan.targets@)),
{
    match cache_file {
        CacheFile::NotNamed => plan_with(list, None),
        CacheFile::Missing => plan_with(list, Some(load(None))),
        CacheFile::Content(text) => plan_with(list, Some(load(Some(text)))),
    }
}

} // verus!
