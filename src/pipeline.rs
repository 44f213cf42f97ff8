//! The decisions of a pipeline run: what to do next for an episode, and how
//! the outcomes of the outside steps are judged.
use vstd::prelude::*;
use crate::artifacts::{ArtifactStore, Stage};
use crate::error::PipelineError;

verus! {

/// The next step of an episode's processing.
#[derive(Debug, Clone, Copy, PartialEq, Eq, Structural)]
pub enum Action {
    Download,
    Split,
    Transcribe,
    Done,
}

/// What remains for the episode `key`: nothing once it is transcribed;
/// otherwise the first of download, split and transcription not yet marked.
pub open spec fn next_action_spec(marks: Set<(Seq<char>, Stage)>, key: Seq<char>) -> Action {
    if marks.contains((key, Stage::Transcribed)) {
        Action::Done
    } else if !marks.contains((key, Stage::Downloaded)) {
        Action::Download
    } else if !marks.contains((key, Stage::Split)) {
        Action::Split
    } else {
        Action::Transcribe
    }
}

/// The stage that an action completes.
pub open spec fn completed_stage(a: Action) -> Stage
    recommends
        a != Action::Done,
{
    match a {
        Action::Download => Stage::Downloaded,
        Action::Split => Stage::Split,
        _ => Stage::Transcribed,
    }
}

/// The next step for the episode keyed `key`.
pub fn next_action(store: &ArtifactStore, key: &String) -> (r: Action)
    ensures
        r == next_action_spec(store@, key@),
{
    if store.has_stage(key, Stage::Transcribed) {
        Action::Done
    } else if !store.has_stage(key, Stage::Downloaded) {
        Action::Download
    } else if !store.has_stage(key, Stage::Split) {
        Action::Split
    } else {
        Action::Transcribe
    }
}

/// The stage to mark once `action` has fully succeeded; `None` for `Done`.
pub fn stage_completed_by(action: Action) -> (r: Option<Stage>)
    ensures
        action == Action::Done ==> r is None,
        action != Action::Done ==> r == Some(completed_stage(action)),
{
    match action {
        Action::Download => Some(Stage::Downloaded),
        Action::Split => Some(Stage::Split),
        Action::Transcribe => Some(Stage::Transcribed),
        Action::Done => None,
    }
}

/// Marking the stage of each completed action moves an episode on: the same
/// action is never asked for twice, and after transcription nothing is left.
pub proof fn lemma_marking_advances(marks: Set<(Seq<char>, Stage)>, key: Seq<char>)
    ensures
        ({
            let a = next_action_spec(marks, key);
            a != Action::Done ==> {
                let next = next_action_spec(marks.insert((key, completed_stage(a))), key);
                &&& next != a
                &&& a == Action::Transcribe ==> next == Action::Done
            }
        }),
{
}

/// Rejects an unsuccessful login, judged by its HTTP status code.
pub fn check_login(status: u16) -> (r: Result<(), PipelineError>)
    ensures
        r is Ok <==> 200 <= status <= 299,
        r is Err ==> r == Err::<(), PipelineError>(PipelineError::AuthFailure),
{
    if 200 <= status && status <= 299 {
        Ok(())
    } else {
        Err(PipelineError::AuthFailure)
    }
}

/// Rejects a series that the session is not entitled to.
pub fn check_series_access(authorized: bool) -> (r: Result<(), PipelineError>)
    ensures
        r is Ok <==> authorized,
        r is Err ==> r == Err::<(), PipelineError>(PipelineError::UnauthorizedSeries),
{
    if authorized {
        Ok(())
    } else {
        Err(PipelineError::UnauthorizedSeries)
    }
}

/// Judges an encoder run by its exit code (`None` when it was killed): only
/// code 0 is success; a killed run counts as code 1.
pub fn check_encoder_exit(code: Option<i32>) -> (r: Result<(), PipelineError>)
    ensures
        r is Ok <==> code == Some(0i32),
        code is Some && code->Some_0 != 0 ==> r == Err::<(), PipelineError>(
            PipelineError::EncodeProcessFailure(code->Some_0),
        ),
        code is None ==> r == Err::<(), PipelineError>(PipelineError::EncodeProcessFailure(1)),
{
    match code {
        Some(0) => Ok(()),
        Some(c) => Err(PipelineError::EncodeProcessFailure(c)),
        None => Err(PipelineError::EncodeProcessFailure(1)),
    }
}

/// Largest number of workers handed to the speech-recognition engine.
pub const MAX_TRANSCRIPTION_WORKERS: usize = 8;

/// Worker count for the speech-recognition engine: the available hardware
/// parallelism, at most eight.
pub fn transcription_workers(available: usize) -> (r: usize)
    ensures
        r == if available < MAX_TRANSCRIPTION_WORKERS {
            available
        } else {
            MAX_TRANSCRIPTION_WORKERS
        },
{
    if available < MAX_TRANSCRIPTION_WORKERS {
        available
    } else {
        MAX_TRANSCRIPTION_WORKERS
    }
}

} // verus!
