//! Extraction orchestrator: for one chosen track, the collision
//! handling, the external invocation and the final atomic rename are
//! driven as a step-by-step protocol. The library decides every step;
//! the caller performs the filesystem and subprocess effects and
//! reports what happened.

use vstd::prelude::*;
use vstd::string::StringExecFns;
use crate::format::container_for_format;
use crate::format::container_spec;
use crate::format::extension_for_format;
use crate::format::extension_spec;
use crate::naming::output_file_name;
use crate::naming::output_name_spec;
use crate::naming::selector_for_index;
use crate::naming::selector_spec;
use crate::naming::temp_file_name;
use crate::naming::temp_name_spec;
use crate::track::SubtitleTrack;

verus! {

/// Everything the extraction of one track needs by name: the final
/// output filename, the shared temporary filename, the stream
/// selector, and the optional container directive.
pub struct ExtractionPlan {
    pub final_name: String,
    pub temp_name: String,
    pub selector: String,
    pub container: Option<String>,
}

/// Resolve names and directives for extracting `track` from a source
/// whose file stem is `stem`.
pub fn plan_extraction(stem: &str, track: &SubtitleTrack) -> (p: ExtractionPlan)
    ensures
        p.final_name@ == output_name_spec(stem@, track@, extension_spec(track@.format)),
        p.temp_name@ == temp_name_spec(extension_spec(track@.format)),
        p.selector@ == selector_spec(track@.stream_index as nat),
        match p.container {
            Some(c) => container_spec(track@.format) == Some(c@),
            None => container_spec(track@.format) is None,
        },
{
    let ext = extension_for_format(track.format.as_str());
    let final_name = output_file_name(stem, track, ext);
    let temp_name = temp_file_name(ext);
    let selector = selector_for_index(track.stream_index);
    let container: Option<String> = match container_for_format(track.format.as_str()) {
        Some(c) => Some(String::from_str(c)),
        None => None,
    };
    ExtractionPlan { final_name, temp_name, selector, container }
}

/// How the extraction of one track ended.
#[derive(Debug, Clone, PartialEq, Eq)]
pub enum ExtractOutcome {
    /// The temporary file was renamed onto the final name.
    Produced { final_name: String },
    /// The final file existed and the operator chose to keep it.
    Skipped,
    /// A stale temporary file existed and the operator chose not to
    /// overwrite it; the named temp file is left in place.
    Conflict { temp_name: String },
    /// The external command exited with failure; its diagnostic text
    /// is kept verbatim and the temporary file is left for inspection.
    ToolFailed { diagnostic: String },
}

/// What the caller must do next.
#[derive(Debug, Clone, PartialEq, Eq)]
pub enum ExtractAction {
    /// Report whether the final output file already exists.
    CheckFinal,
    /// Ask the operator: overwrite the final file, or skip this track?
    AskFinalDecision,
    /// Report whether the shared temporary file already exists.
    CheckTemp,
    /// Ask the operator: overwrite the stale temporary file, or abort?
    AskTempDecision,
    /// Delete the stale temporary file, then report it done.
    DeleteTemp,
    /// Run the extraction command writing the temporary file.
    RunCommand,
    /// Atomically rename the temporary file onto the final name.
    Rename,
    /// The extraction is over with this outcome.
    Finish(ExtractOutcome),
}

/// What the caller reports back.
#[derive(Debug, Clone, PartialEq, Eq)]
pub enum ExtractEvent {
    FinalChecked { exists: bool },
    FinalDecision { overwrite: bool },
    TempChecked { exists: bool },
    TempDecision { overwrite: bool },
    TempDeleted,
    CommandFinished { success: bool, diagnostic: String },
    Renamed,
}

/// Where the extraction protocol stands.
#[derive(Debug, Clone, PartialEq, Eq)]
pub enum ExtractState {
    AwaitFinalCheck,
    AwaitFinalDecision,
    AwaitTempCheck,
    AwaitTempDecision,
    AwaitTempDelete,
    AwaitCommand,
    AwaitRename,
    Done(ExtractOutcome),
}

/// The transition relation of the protocol; `None` for an event the
/// state does not expect.
pub open spec fn step_model(plan: &ExtractionPlan, state: ExtractState, event: ExtractEvent)
    -> Option<(ExtractState, ExtractAction)> {
    match (state, event) {
        (ExtractState::AwaitFinalCheck, ExtractEvent::FinalChecked { exists }) => {
            if exists {
                Some((ExtractState::AwaitFinalDecision, ExtractAction::AskFinalDecision))
            } else {
                Some((ExtractState::AwaitTempCheck, ExtractAction::CheckTemp))
            }
        },
        (ExtractState::AwaitFinalDecision, ExtractEvent::FinalDecision { overwrite }) => {
            if overwrite {
                Some((ExtractState::AwaitTempCheck, ExtractAction::CheckTemp))
            } else {
                Some(
                    (
                        ExtractState::Done(ExtractOutcome::Skipped),
                        ExtractAction::Finish(ExtractOutcome::Skipped),
                    ),
                )
            }
        },
        (ExtractState::AwaitTempCheck, ExtractEvent::TempChecked { exists }) => {
            if exists {
                Some((ExtractState::AwaitTempDecision, ExtractAction::AskTempDecision))
            } else {
                Some((ExtractState::AwaitCommand, ExtractAction::RunCommand))
            }
        },
        (ExtractState::AwaitTempDecision, ExtractEvent::TempDecision { overwrite }) => {
            if overwrite {
                Some((ExtractState::AwaitTempDelete, ExtractAction::DeleteTemp))
            } else {
                let outcome = ExtractOutcome::Conflict { temp_name: plan.temp_name };
                Some((ExtractState::Done(outcome), ExtractAction::Finish(outcome)))
            }
        },
        (ExtractState::AwaitTempDelete, ExtractEvent::TempDeleted) => {
            Some((ExtractState::AwaitCommand, ExtractAction::RunCommand))
        },
        (ExtractState::AwaitCommand, ExtractEvent::CommandFinished { success, diagnostic }) => {
            if success {
                Some((ExtractState::AwaitRename, ExtractAction::Rename))
            } else {
                let outcome = ExtractOutcome::ToolFailed { diagnostic };
                Some((ExtractState::Done(outcome), ExtractAction::Finish(outcome)))
            }
        },
        (ExtractState::AwaitRename, ExtractEvent::Renamed) => {
            let outcome = ExtractOutcome::Produced { final_name: plan.final_name };
            Some((ExtractState::Done(outcome), ExtractAction::Finish(outcome)))
        },
        _ => None,
    }
}

/// Begin the extraction protocol: the first thing to learn is whether
/// the final output file already exists.
pub fn extract_begin() -> (r: (ExtractState, ExtractAction))
    ensures
        r.0 == ExtractState::AwaitFinalCheck,
        r.1 == ExtractAction::CheckFinal,
{
    (ExtractState::AwaitFinalCheck, ExtractAction::CheckFinal)
}

/// One step of the extraction protocol: from the current state and the
/// caller's report, the next state and the next action.
pub fn extract_step(plan: &ExtractionPlan, state: ExtractState, event: ExtractEvent) -> (r:
    Option<(ExtractState, ExtractAction)>)
    ensures
        r == step_model(plan, state, event),
{
    match (state, event) {
        (ExtractState::AwaitFinalCheck, ExtractEvent::FinalChecked { exists }) => {
            if exists {
                Some((ExtractState::AwaitFinalDecision, ExtractAction::AskFinalDecision))
            } else {
                Some((ExtractState::AwaitTempCheck, ExtractAction::CheckTemp))
            }
        },
        (ExtractState::AwaitFinalDecision, ExtractEvent::FinalDecision { overwrite }) => {
            if overwrite {
                Some((ExtractState::AwaitTempCheck, ExtractAction::CheckTemp))
            } else {
                Some(
                    (
                        ExtractState::Done(ExtractOutcome::Skipped),
                        ExtractAction::Finish(ExtractOutcome::Skipped),
                    ),
                )
            }
        },
        (ExtractState::AwaitTempCheck, ExtractEvent::TempChecked { exists }) => {
            if exists {
                Some((ExtractState::AwaitTempDecision, ExtractAction::AskTempDecision))
            } else {
                Some((ExtractState::AwaitCommand, ExtractAction::RunCommand))
            }
        },
        (ExtractState::AwaitTempDecision, ExtractEvent::TempDecision { overwrite }) => {
            if overwrite {
                Some((ExtractState::AwaitTempDelete, ExtractAction::DeleteTemp))
            } else {
                let for_state = ExtractOutcome::Conflict { temp_name: plan.temp_name.clone() };
                let for_action = ExtractOutcome::Conflict { temp_name: plan.temp_name.clone() };
                Some((ExtractState::Done(for_state), ExtractAction::Finish(for_action)))
            }
        },
        (ExtractState::AwaitTempDelete, ExtractEvent::TempDeleted) => {
            Some((ExtractState::AwaitCommand, ExtractAction::RunCommand))
        },
        (ExtractState::AwaitCommand, ExtractEvent::CommandFinished { success, diagnostic }) => {
            if success {
                Some((ExtractState::AwaitRename, ExtractAction::Rename))
            } else {
                let for_state = ExtractOutcome::ToolFailed { diagnostic: diagnostic.clone() };
                let for_action = ExtractOutcome::ToolFailed { diagnostic };
                Some((ExtractState::Done(for_state), ExtractAction::Finish(for_action)))
            }
        },
        (ExtractState::AwaitRename, ExtractEvent::Renamed) => {
            let for_state = ExtractOutcome::Produced { final_name: plan.final_name.clone() };
            let for_action = ExtractOutcome::Produced { final_name: plan.final_name.clone() };
            Some((ExtractState::Done(for_state), ExtractAction::Finish(for_action)))
        },
        _ => None,
    }
}

/// The argument list of the extraction invocation: input name, stream
/// selector, stream-copy directive, the container directive when the
/// format is known, and the temporary output name, in that order.
pub fn extraction_args(plan: &ExtractionPlan, input_name: &str) -> (r: Vec<String>)
    ensures
        r@.len() == (if plan.container is Some {
            9int
        } else {
            7int
        }),
        r@[0]@ == "-i"@,
        r@[1]@ == input_name@,
        r@[2]@ == "-map"@,
        r@[3]@ == plan.selector@,
        r@[4]@ == "-c"@,
        r@[5]@ == "copy"@,
        match plan.container {
            Some(c) => r@[6]@ == "-f"@ && r@[7]@ == c@ && r@[8]@ == plan.temp_name@,
            None => r@[6]@ == plan.temp_name@,
        },
{
    let mut args: Vec<String> = Vec::new();
    args.push(String::from_str("-i"));
    args.push(String::from_str(input_name));
    args.push(String::from_str("-map"));
    args.push(plan.selector.clone());
    args.push(String::from_str("-c"));
    args.push(String::from_str("copy"));
    match &plan.container {
        Some(c) => {
            args.push(String::from_str("-f"));
            args.push(c.clone());
        },
        None => {},
    }
    args.push(plan.temp_name.clone());
    args
}

/// Rank of a protocol state: every accepted step strictly increases it.
pub open spec fn rank(state: ExtractState) -> int {
    match state {
        ExtractState::AwaitFinalCheck => 0,
        ExtractState::AwaitFinalDecision => 1,
        ExtractState::AwaitTempCheck => 2,
        ExtractState::AwaitTempDecision => 3,
        ExtractState::AwaitTempDelete => 4,
        ExtractState::AwaitCommand => 5,
        ExtractState::AwaitRename => 6,
        ExtractState::Done(_) => 7,
    }
}

/// A run of the protocol: it begins where `extract_begin` does, and
/// each event takes `states[i]` to `states[i + 1]` while requesting
/// `actions[i]`.
pub open spec fn is_run(
    plan: &ExtractionPlan,
    states: Seq<ExtractState>,
    events: Seq<ExtractEvent>,
    actions: Seq<ExtractAction>,
) -> bool {
    &&& states.len() == events.len() + 1
    &&& actions.len() == events.len()
    &&& states[0] == ExtractState::AwaitFinalCheck
    &&& forall|i: int|
        0 <= i < events.len() ==> #[trigger] step_model(plan, states[i], events[i]) == Some(
            (states[i + 1], actions[i]),
        )
}

/// Each accepted step moves the protocol strictly forward, and the
/// file-changing actions land in the states that await their report.
pub proof fn lemma_step_properties(plan: &ExtractionPlan, s: ExtractState, e: ExtractEvent)
    ensures
        match step_model(plan, s, e) {
            Some(r) => rank(r.0) > rank(s) && ((r.1 is DeleteTemp) ==> r.0
                is AwaitTempDelete) && ((r.1 is RunCommand) ==> r.0 is AwaitCommand) && ((
            r.1 is Rename) ==> r.0 is AwaitRename) && !(s is Done),
            None => true,
        },
{
}

/// Along a run the rank rises by at least one per step.
pub proof fn lemma_run_rank(
    plan: &ExtractionPlan,
    states: Seq<ExtractState>,
    events: Seq<ExtractEvent>,
    actions: Seq<ExtractAction>,
    i: int,
    j: int,
)
    requires
        is_run(plan, states, events, actions),
        0 <= i <= j <= events.len(),
    ensures
        rank(states[i]) + (j - i) <= rank(states[j]),
    decreases j - i,
{
    if i < j {
        lemma_run_rank(plan, states, events, actions, i, j - 1);
        lemma_step_properties(plan, states[j - 1], events[j - 1]);
    }
}

/// Law: an extraction the operator skips at the final-file prompt ends
/// at once with the skipped outcome, and at no point of that run was
/// an action requested that deletes, writes or renames a file.
pub proof fn lemma_skip_leaves_files_untouched(
    plan: &ExtractionPlan,
    states: Seq<ExtractState>,
    events: Seq<ExtractEvent>,
    actions: Seq<ExtractAction>,
    i: int,
)
    requires
        is_run(plan, states, events, actions),
        0 <= i < events.len(),
        events[i] == (ExtractEvent::FinalDecision { overwrite: false }),
    ensures
        states[i + 1] == ExtractState::Done(ExtractOutcome::Skipped),
        i + 1 == events.len(),
        forall|j: int|
            0 <= j < actions.len() ==> !((#[trigger] actions[j]) is DeleteTemp) && !(actions[j]
                is RunCommand) && !(actions[j] is Rename),
{
    assert(step_model(plan, states[i], events[i]) == Some(
        (states[i + 1], actions[i]),
    ));
    assert(states[i] is AwaitFinalDecision);
    if i + 1 < events.len() {
        lemma_step_properties(plan, states[i + 1], events[i + 1]);
        assert(false);
    }
    assert forall|j: int|
        0 <= j < actions.len() implies !((#[trigger] actions[j]) is DeleteTemp) && !(actions[j]
        is RunCommand) && !(actions[j] is Rename) by {
        lemma_step_properties(plan, states[j], events[j]);
        if j < i {
            lemma_run_rank(plan, states, events, actions, j + 1, i);
        }
    }
}

/// Law: an extraction the operator aborts at the stale-temp prompt
/// fails with the conflict outcome naming that temp file; the run ends
/// there, the extraction command was never run, and nothing was ever
/// renamed onto the final output.
pub proof fn lemma_abort_preserves_final(
    plan: &ExtractionPlan,
    states: Seq<ExtractState>,
    events: Seq<ExtractEvent>,
    actions: Seq<ExtractAction>,
    i: int,
)
    requires
        is_run(plan, states, events, actions),
        0 <= i < events.len(),
        events[i] == (ExtractEvent::TempDecision { overwrite: false }),
    ensures
        states[i + 1] == ExtractState::Done(
            ExtractOutcome::Conflict { temp_name: plan.temp_name },
        ),
        i + 1 == events.len(),
        forall|j: int|
            0 <= j < actions.len() ==> !((#[trigger] actions[j]) is RunCommand) && !(actions[j]
                is Rename),
{
    assert(step_model(plan, states[i], events[i]) == Some(
        (states[i + 1], actions[i]),
    ));
    assert(states[i] is AwaitTempDecision);
    if i + 1 < events.len() {
        lemma_step_properties(plan, states[i + 1], events[i + 1]);
        assert(false);
    }
    assert forall|j: int|
        0 <= j < actions.len() implies !((#[trigger] actions[j]) is RunCommand) && !(actions[j]
        is Rename) by {
        lemma_step_properties(plan, states[j], events[j]);
        if j < i {
            lemma_run_rank(plan, states, events, actions, j + 1, i);
        }
    }
}

} // verus!
