//! Compaction of a closed archive file: the file is compressed into a sibling
//! and removed once the sibling is complete. The steps are decided here and
//! performed by the caller, who reports after each whether it succeeded.
use crate::names::{compressed_file_path, compressed_path};
use crate::text::{chars_of, string_of};
use vstd::prelude::*;

verus! {

/// How far a compaction has come. Each stage but the first and the last two
/// names the step whose result is awaited.
#[derive(Clone, Copy, Debug, PartialEq, Eq, Structural)]
pub enum CompactionStage {
    /// Nothing was asked for yet.
    Ready,
    OpeningSource,
    CreatingTarget,
    Copying,
    Finishing,
    Measuring,
    RemovingSource,
    /// The source is compressed and removed.
    Done,
    /// A step failed; the source is still in place.
    Failed,
}

/// One step of a compaction.
#[derive(Clone, Copy, Debug, PartialEq, Eq, Structural)]
pub enum CompactionAction {
    /// Open the source for reading.
    OpenSource,
    /// Create the target, or empty it where it exists.
    CreateTarget,
    /// Read the source to its end in chunks and write each through the encoder.
    Copy,
    /// Finish the encoder, so that it writes its last frame, and close both files.
    Finish,
    /// Read the sizes of both files.
    Measure,
    /// Remove the source.
    RemoveSource,
    /// There is nothing more to do.
    Stop,
}

/// The stage that follows `stage` when the step it awaited ended as `ok` says.
/// After a failure, and after the end, nothing follows.
pub open spec fn next_stage(stage: CompactionStage, ok: bool) -> CompactionStage {
    match stage {
        CompactionStage::Ready => CompactionStage::OpeningSource,
        CompactionStage::Done => CompactionStage::Done,
        CompactionStage::Failed => CompactionStage::Failed,
        _ => if !ok {
            CompactionStage::Failed
        } else {
            match stage {
                CompactionStage::OpeningSource => CompactionStage::CreatingTarget,
                CompactionStage::CreatingTarget => CompactionStage::Copying,
                CompactionStage::Copying => CompactionStage::Finishing,
                CompactionStage::Finishing => CompactionStage::Measuring,
                CompactionStage::Measuring => CompactionStage::RemovingSource,
                _ => CompactionStage::Done,
            }
        },
    }
}

/// The step that a stage asks for.
pub open spec fn action_of(stage: CompactionStage) -> CompactionAction {
    match stage {
        CompactionStage::OpeningSource => CompactionAction::OpenSource,
        CompactionStage::CreatingTarget => CompactionAction::CreateTarget,
        CompactionStage::Copying => CompactionAction::Copy,
        CompactionStage::Finishing => CompactionAction::Finish,
        CompactionStage::Measuring => CompactionAction::Measure,
        CompactionStage::RemovingSource => CompactionAction::RemoveSource,
        _ => CompactionAction::Stop,
    }
}

/// Whether every step from the opening of the source to the reading of the
/// sizes has succeeded.
pub open spec fn target_complete(stage: CompactionStage) -> bool {
    stage == CompactionStage::RemovingSource || stage == CompactionStage::Done
}

/// The compaction of one closed file.
pub struct Compaction {
    source: String,
    target: String,
    stage: CompactionStage,
}

/// A compaction as the contracts read it.
pub struct CompactionView {
    pub source: Seq<char>,
    pub target: Seq<char>,
    pub stage: CompactionStage,
}

impl View for Compaction {
    type V = CompactionView;

    closed spec fn view(&self) -> CompactionView {
        CompactionView { source: self.source@, target: self.target@, stage: self.stage }
    }
}

impl Compaction {
    /// A compaction of the file at `source` into the file of the same path
    /// with `.zst` behind it.
    pub fn new(source: String) -> (r: Self)
        ensures
            r@ == (CompactionView {
                source: source@,
                target: compressed_path(source@),
                stage: CompactionStage::Ready,
            }),
    {
        let path = chars_of(source.as_str());
        let target = compressed_file_path(path.as_slice());
        let target = string_of(target.as_slice());
        Compaction { source, target, stage: CompactionStage::Ready }
    }

    pub fn source(&self) -> (r: &str)
        ensures
            r@ == self@.source,
    {
        self.source.as_str()
    }

    pub fn target(&self) -> (r: &str)
        ensures
            r@ == self@.target,
    {
        self.target.as_str()
    }

    pub fn stage(&self) -> (r: CompactionStage)
        ensures
            r == self@.stage,
    {
        self.stage
    }

    /// Moves on by one step, given whether the step before succeeded, and
    /// returns the step to perform. The first call asks for the first step,
    /// whatever `ok` says. The source is removed only once the target is
    /// complete, and no step removes the target.
    pub fn step(&mut self, ok: bool) -> (r: CompactionAction)
        ensures
            final(self)@ == (CompactionView {
                stage: next_stage(old(self)@.stage, ok),
                ..old(self)@
            }),
            r == action_of(final(self)@.stage),
            r == CompactionAction::RemoveSource ==> target_complete(final(self)@.stage),
    {
        let stage = match self.stage {
            CompactionStage::Ready => CompactionStage::OpeningSource,
            CompactionStage::Done => CompactionStage::Done,
            CompactionStage::Failed => CompactionStage::Failed,
            awaited => if !ok {
                CompactionStage::Failed
            } else {
                match awaited {
                    CompactionStage::OpeningSource => CompactionStage::CreatingTarget,
                    CompactionStage::CreatingTarget => CompactionStage::Copying,
                    CompactionStage::Copying => CompactionStage::Finishing,
                    CompactionStage::Finishing => CompactionStage::Measuring,
                    CompactionStage::Measuring => CompactionStage::RemovingSource,
                    _ => CompactionStage::Done,
                }
            },
        };
        self.stage = stage;
        match stage {
            CompactionStage::OpeningSource => CompactionAction::OpenSource,
            CompactionStage::CreatingTarget => CompactionAction::CreateTarget,
            CompactionStage::Copying => CompactionAction::Copy,
            CompactionStage::Finishing => CompactionAction::Finish,
            CompactionStage::Measuring => CompactionAction::Measure,
            CompactionStage::RemovingSource => CompactionAction::RemoveSource,
            _ => CompactionAction::Stop,
        }
    }
}

/// The stage reached from `stage` after the steps ended as `results` says, one
/// after the other.
pub open spec fn stage_after(stage: CompactionStage, results: Seq<bool>) -> CompactionStage
    decreases results.len(),
{
    if results.len() == 0 {
        stage
    } else {
        next_stage(stage_after(stage, results.drop_last()), results.last())
    }
}

/// The removal of the source is asked for by the sixth call of `step` and by no
/// other, and only where every step before it succeeded. After any failure the
/// compaction has failed for good, with the source in place.
pub proof fn lemma_source_kept_on_failure(results: Seq<bool>)
    requires
        results.len() >= 1,
    ensures
        action_of(stage_after(CompactionStage::Ready, results)) == CompactionAction::RemoveSource
            <==> results.len() == 6 && forall|i: int| 1 <= i < 6 ==> results[i],
        (exists|i: int| 1 <= i < results.len() && i <= 6 && !results[i]) ==> stage_after(
            CompactionStage::Ready,
            results,
        ) == CompactionStage::Failed,
    decreases results.len(),
{
    let start = CompactionStage::Ready;
    if results.len() == 1 {
        assert(results.drop_last().len() == 0);
        assert(stage_after(start, results) == CompactionStage::OpeningSource);
    } else {
        let before = results.drop_last();
        lemma_source_kept_on_failure(before);
        lemma_stage_reached(before);
        assert(forall|i: int| 0 <= i < before.len() ==> before[i] == results[i]);
    }
}

/// The stage after `results.len()` calls of `step`: failed for good once a step
/// has failed, else the stage of that many steps.
pub proof fn lemma_stage_reached(results: Seq<bool>)
    requires
        results.len() >= 1,
    ensures
        ({
            let stage = stage_after(CompactionStage::Ready, results);
            let failed = exists|i: int| 1 <= i < results.len() && i <= 6 && !results[i];
            if failed {
                stage == CompactionStage::Failed
            } else if results.len() == 1 {
                stage == CompactionStage::OpeningSource
            } else if results.len() == 2 {
                stage == CompactionStage::CreatingTarget
            } else if results.len() == 3 {
                stage == CompactionStage::Copying
            } else if results.len() == 4 {
                stage == CompactionStage::Finishing
            } else if results.len() == 5 {
                stage == CompactionStage::Measuring
            } else if results.len() == 6 {
                stage == CompactionStage::RemovingSource
            } else {
                stage == CompactionStage::Done
            }
        }),
    decreases results.len(),
{
    let start = CompactionStage::Ready;
    if results.len() == 1 {
        assert(results.drop_last().len() == 0);
        assert(stage_after(start, results) == CompactionStage::OpeningSource);
    } else {
        let before = results.drop_last();
        lemma_stage_reached(before);
        assert(forall|i: int| 0 <= i < before.len() ==> before[i] == results[i]);
        let failed_before = exists|i: int| 1 <= i < before.len() && i <= 6 && !before[i];
        let failed = exists|i: int| 1 <= i < results.len() && i <= 6 && !results[i];
        if failed_before {
            let i = choose|i: int| 1 <= i < before.len() && i <= 6 && !before[i];
            assert(1 <= i < results.len() && i <= 6 && !results[i]);
        } else if failed {
            let i = choose|i: int| 1 <= i < results.len() && i <= 6 && !results[i];
            if i < before.len() {
                assert(1 <= i < before.len() && i <= 6 && !before[i]);
            }
            assert(i == results.len() - 1);
        } else {
            if results.len() <= 7 {
                assert(!(1 <= results.len() - 1 && results.len() - 1 <= 6 && !results[results.len()
                    - 1]));
            }
        }
    }
}

} // verus!
