//! Keeping the search index in step with what it is built from: the package lists and
//! the state of the installed packages.
use vstd::prelude::*;

use crate::shutdown::{reason_of, Exit};
use crate::sorting::{
    law_order_of_arrival_does_not_matter, stable_sort, stably_sorted, Ranked,
};
use crate::text::{
    is_text_before, lemma_text_before_asymmetric, lemma_text_before_transitive, prefixed,
    text_before,
};

verus! {

/// What was found of a list file: its size, and its modification time in whole seconds
/// since the epoch, where it has one that is not before the epoch.
#[derive(Clone, Copy, Debug)]
pub struct FileMeta {
    pub len: u64,
    pub mtime: Option<u64>,
}

/// A list file: its name, its size and its modification time.
pub type ListFile = (String, u64, i64);

impl Ranked for (String, u64, i64) {
    /// By name, then by size, then by modification time.
    open spec fn precedes(&self, other: &Self) -> bool {
        if self.0@ != other.0@ {
            text_before(self.0@, other.0@)
        } else if self.1 != other.1 {
            self.1 < other.1
        } else {
            self.2 < other.2
        }
    }

    proof fn precedes_asymmetric(a: &Self, b: &Self) {
        lemma_text_before_asymmetric(a.0@, b.0@);
    }

    proof fn precedes_transitive(a: &Self, b: &Self, c: &Self) {
        lemma_text_before_asymmetric(a.0@, b.0@);
        lemma_text_before_asymmetric(b.0@, c.0@);
        lemma_text_before_asymmetric(a.0@, c.0@);
        lemma_text_before_transitive(a.0@, b.0@, c.0@);
    }

    fn is_before(&self, other: &Self) -> bool {
        if self.0 != other.0 {
            is_text_before(self.0.as_str(), other.0.as_str())
        } else if self.1 != other.1 {
            self.1 < other.1
        } else {
            self.2 < other.2
        }
    }
}

/// The files that were found with a modification time.
pub open spec fn found(files: Seq<(String, Option<FileMeta>)>) -> Seq<ListFile>
    decreases files.len(),
{
    if files.len() == 0 {
        Seq::empty()
    } else {
        let rest = found(files.drop_last());
        match files.last().1 {
            Some(FileMeta { len, mtime: Some(mtime) }) => rest.push(
                (files.last().0, len, mtime as i64),
            ),
            _ => rest,
        }
    }
}

/// The state of the list files: those that were found, in order.
pub fn lists_files_state(files: Vec<(String, Option<FileMeta>)>) -> (state: Vec<ListFile>)
    ensures
        stably_sorted(found(files@), state@),
{
    let mut state: Vec<ListFile> = Vec::new();
    let mut i: usize = 0;
    while i < files.len()
        invariant
            i <= files.len(),
            state@ == found(files@.subrange(0, i as int)),
        decreases files.len() - i,
    {
        assert(files@.subrange(0, i + 1).drop_last() =~= files@.subrange(0, i as int));
        if let Some(meta) = &files[i].1 {
            if let Some(mtime) = meta.mtime {
                state.push((files[i].0.clone(), meta.len, mtime as i64));
            }
        }
        i = i + 1;
    }
    assert(files@.subrange(0, files.len() as int) =~= files@);
    stable_sort(state)
}

/// What an index is built from: the list files, and when the state of the installed
/// packages was modified, in nanoseconds from the epoch.
pub struct IndexInputs {
    pub lists: Vec<ListFile>,
    pub status_mtime: Option<i128>,
}

/// What the inputs hold.
pub open spec fn files_of(lists: Seq<ListFile>) -> Seq<(Seq<char>, u64, i64)> {
    lists.map_values(|f: ListFile| (f.0@, f.1, f.2))
}

impl View for IndexInputs {
    type V = (Seq<(Seq<char>, u64, i64)>, Option<i128>);

    open spec fn view(&self) -> (Seq<(Seq<char>, u64, i64)>, Option<i128>) {
        (files_of(self.lists@), self.status_mtime)
    }
}

impl IndexInputs {
    /// Whether these are the same inputs.
    pub fn same_as(&self, other: &IndexInputs) -> (b: bool)
        ensures
            b == (self@ == other@),
    {
        let same_mtime = match (self.status_mtime, other.status_mtime) {
            (Some(a), Some(b)) => a == b,
            (None, None) => true,
            _ => false,
        };
        if !same_mtime || self.lists.len() != other.lists.len() {
            assert(files_of(self.lists@).len() == self.lists@.len());
            assert(files_of(other.lists@).len() == other.lists@.len());
            return false;
        }
        let mut i: usize = 0;
        while i < self.lists.len()
            invariant
                i <= self.lists.len(),
                self.lists.len() == other.lists.len(),
                forall|j: int|
                    0 <= j < i ==> files_of(self.lists@)[j] == files_of(other.lists@)[j],
            decreases self.lists.len() - i,
        {
            let a = &self.lists[i];
            let b = &other.lists[i];
            if a.0 != b.0 || a.1 != b.1 || a.2 != b.2 {
                assert(files_of(self.lists@)[i as int] != files_of(other.lists@)[i as int]);
                return false;
            }
            i = i + 1;
        }
        assert(files_of(self.lists@) =~= files_of(other.lists@));
        true
    }
}

/// What the present index was built from.
pub struct IndexRecord {
    inputs: Option<IndexInputs>,
}

/// A stage of a rebuild.
#[derive(Clone, Copy, Debug, PartialEq, Eq, Structural)]
pub enum RebuildStage {
    /// Reading the package lists.
    Lists,
    /// Reading the state of the installed packages.
    Status,
    /// Building the index from nothing.
    Index,
}

/// What is said before the reason for which a stage failed.
pub open spec fn stage_text(stage: RebuildStage) -> Seq<char> {
    match stage {
        RebuildStage::Lists => "Failed to rebuild oma package database: "@,
        RebuildStage::Status => "Failed to read dpkg status: "@,
        RebuildStage::Index => "Failed to rebuild search index: "@,
    }
}

/// Why a rebuild failed.
pub fn rebuild_failed(stage: RebuildStage, why: &str) -> (message: String)
    ensures
        message@ == stage_text(stage) + why@,
{
    let said = match stage {
        RebuildStage::Lists => "Failed to rebuild oma package database: ",
        RebuildStage::Status => "Failed to read dpkg status: ",
        RebuildStage::Index => "Failed to rebuild search index: ",
    };
    prefixed(said, why)
}

/// How an index is brought up to date.
#[derive(Clone, Copy, Debug, PartialEq, Eq, Structural)]
pub enum UpdateMode {
    /// By what changed.
    Incremental,
    /// From nothing: an update that broke off may have left it half done.
    Full,
}

/// How an index is brought up to date, given whether the last update broke off.
pub fn update_mode(broke_off: bool) -> (mode: UpdateMode)
    ensures
        mode == if broke_off {
            UpdateMode::Full
        } else {
            UpdateMode::Incremental
        },
{
    if broke_off {
        UpdateMode::Full
    } else {
        UpdateMode::Incremental
    }
}

/// How a rebuild of the index ended.
pub enum RebuildOutcome {
    /// The index was built from these inputs, which were noted before it was built.
    Built(IndexInputs),
    /// It failed.
    Failed(String),
    /// It never came back.
    Lost(String),
}

/// What a refresh does next.
#[derive(Clone, Copy, Debug, PartialEq, Eq, Structural)]
pub enum RefreshStep {
    /// The index is in step.
    Done,
    /// Build it anew.
    Rebuild,
}

/// Whether a refresh may begin, asked once the lock for the index is held. As long as the
/// service cannot exit it may: it can be what ends work that was admitted.
pub fn begin_refresh(exit: &Exit) -> (r: Result<(), &'static str>)
    ensures
        r is Err <==> exit.is_ready(),
        r is Err ==> r->Err_0@ == reason_of(exit.trigger()),
{
    if exit.ready() {
        Err(exit.reason())
    } else {
        Ok(())
    }
}

impl IndexRecord {
    /// The inputs of the present index.
    pub closed spec fn recorded(self) -> Option<(Seq<(Seq<char>, u64, i64)>, Option<i128>)> {
        match self.inputs {
            Some(i) => Some(i@),
            None => None,
        }
    }

    pub fn new(inputs: Option<IndexInputs>) -> (r: Self)
        ensures
            r.recorded() == match inputs {
                Some(i) => Some(i@),
                None => None,
            },
    {
        IndexRecord { inputs }
    }

    /// Whether the index was built from what there is now.
    pub fn is_fresh(&self, current: &IndexInputs) -> (b: bool)
        ensures
            b == (self.recorded() == Some(current@)),
    {
        match &self.inputs {
            Some(i) => i.same_as(current),
            None => false,
        }
    }

    /// What a refresh does next: it rebuilds until the index is in step.
    pub fn next_step(&self, current: &IndexInputs) -> (step: RefreshStep)
        ensures
            step == if self.recorded() == Some(current@) {
                RefreshStep::Done
            } else {
                RefreshStep::Rebuild
            },
    {
        if self.is_fresh(current) {
            RefreshStep::Done
        } else {
            RefreshStep::Rebuild
        }
    }

    /// Takes note of how a rebuild ended. One that failed ends the refresh, and the record
    /// stays; after one that succeeded the change is to be announced.
    pub fn rebuilt(&mut self, outcome: RebuildOutcome) -> (r: Result<(), String>)
        ensures
            match outcome {
                RebuildOutcome::Built(inputs) => r is Ok && final(self).recorded() == Some(
                    inputs@,
                ),
                RebuildOutcome::Failed(e) => r is Err && r->Err_0 == e && final(self).recorded()
                    == old(self).recorded(),
                RebuildOutcome::Lost(e) => r is Err && r->Err_0@
                    == "Cache refresh task failed to join: "@ + e@ && final(self).recorded() == old(
                    self,
                ).recorded(),
            },
    {
        match outcome {
            RebuildOutcome::Built(inputs) => {
                self.inputs = Some(inputs);
                Ok(())
            },
            RebuildOutcome::Failed(e) => Err(e),
            RebuildOutcome::Lost(e) => Err(
                prefixed("Cache refresh task failed to join: ", e.as_str()),
            ),
        }
    }
}

/// The state of the list files does not depend on the order in which they were looked
/// at: the same files are the same inputs.
pub proof fn law_same_files_are_the_same_inputs(
    a: Seq<(String, Option<FileMeta>)>,
    b: Seq<(String, Option<FileMeta>)>,
    x: Seq<ListFile>,
    y: Seq<ListFile>,
)
    requires
        found(a).to_multiset() == found(b).to_multiset(),
        stably_sorted(found(a), x),
        stably_sorted(found(b), y),
    ensures
        files_of(x) == files_of(y),
{
    law_order_of_arrival_does_not_matter(found(a), found(b), x, y);
    assert forall|i: int| 0 <= i < x.len() implies files_of(x)[i] == files_of(y)[i] by {
        assert(!x[i].precedes(&y[i]) && !y[i].precedes(&x[i]));
        lemma_text_before_asymmetric(x[i].0@, y[i].0@);
    }
    assert(files_of(x) =~= files_of(y));
}

} // verus!
