use crate::config::{Obs, ObsView};
use crate::path::{parent, parent_of};
use crate::platform::{Liveness, Platform, PlatformStatus};
use crate::table::{answers, states_named, ProcessMatch};
use crate::text::{arguments, parse_args};
use vstd::prelude::*;

verus! {

/// An order to start the target.
#[derive(Clone, Debug, PartialEq, Eq)]
pub struct SpawnRequest {
    /// What to run: a path, or a bare name to be found by the host.
    pub command: String,
    /// The directory to run it in; `None` leaves the directory as it is.
    pub working_dir: Option<String>,
    /// The arguments to hand to it.
    pub args: Vec<String>,
}

/// A `SpawnRequest` with its texts as character sequences.
pub struct SpawnRequestView {
    pub command: Seq<char>,
    pub working_dir: Option<Seq<char>>,
    pub args: Seq<Seq<char>>,
}

impl View for SpawnRequest {
    type V = SpawnRequestView;

    open spec fn view(&self) -> SpawnRequestView {
        SpawnRequestView {
            command: self.command@,
            working_dir: match self.working_dir {
                Some(dir) => Some(dir@),
                None => None,
            },
            args: self.args.deep_view(),
        }
    }
}

/// What one look at the process table calls for.
#[derive(Clone, Debug, PartialEq, Eq)]
pub enum DecisionOutcome {
    /// The trigger is not running: nothing to do.
    TriggerAbsent,
    /// The trigger is running and so is the target: nothing to do.
    TargetActive,
    /// The trigger is running and the target is not: start it.
    Spawned(SpawnRequest),
}

/// A `DecisionOutcome` with its texts as character sequences.
pub enum DecisionView {
    TriggerAbsent,
    TargetActive,
    Spawned(SpawnRequestView),
}

impl View for DecisionOutcome {
    type V = DecisionView;

    open spec fn view(&self) -> DecisionView {
        match self {
            DecisionOutcome::TriggerAbsent => DecisionView::TriggerAbsent,
            DecisionOutcome::TargetActive => DecisionView::TargetActive,
            DecisionOutcome::Spawned(request) => DecisionView::Spawned(request@),
        }
    }
}

/// The target has to be started from its path, and the path names no file:
/// there is no directory to start it in.
#[derive(Clone, Copy, Debug, PartialEq, Eq)]
pub struct PathResolutionError;

/// The order that replaces a target whose instance is there but not alive:
/// the target goes by its process name, which the host can resolve since it
/// runs an instance of it. No directory, no arguments.
pub open spec fn relaunch(config: ObsView) -> SpawnRequestView {
    SpawnRequestView {
        command: config.target_process_name,
        working_dir: None,
        args: Seq::empty(),
    }
}

/// The order that starts a target of which there is no instance: the target
/// goes by its full path, in the directory that holds it, with the
/// configured arguments. There is none when the path has no parent.
pub open spec fn launch(platform: Platform, config: ObsView) -> Option<SpawnRequestView> {
    match parent(platform, config.target_process_path) {
        Some(dir) => Some(
            SpawnRequestView {
                command: config.target_process_path,
                working_dir: Some(dir),
                args: arguments(config.target_args),
            },
        ),
        None => None,
    }
}

/// The decision that the matches for the trigger and for the target call
/// for. The first rule that applies holds: without a trigger, nothing; with
/// a target, the liveness of its first match decides between leaving it and
/// replacing it; without a target, it is started from its path.
pub open spec fn decision(
    platform: Platform,
    config: ObsView,
    trigger: Seq<ProcessMatch>,
    target: Seq<ProcessMatch>,
) -> Result<DecisionView, PathResolutionError> {
    if trigger.len() == 0 {
        Ok(DecisionView::TriggerAbsent)
    } else if target.len() > 0 {
        match platform.liveness_of(target[0].status) {
            Liveness::Active => Ok(DecisionView::TargetActive),
            Liveness::Inactive => Ok(DecisionView::Spawned(relaunch(config))),
        }
    } else {
        match launch(platform, config) {
            Some(request) => Ok(DecisionView::Spawned(request)),
            None => Err(PathResolutionError),
        }
    }
}

/// Decides what one look at the process table calls for.
///
/// Without a match for the trigger the outcome is `TriggerAbsent`, whatever
/// the target does. With one, a target whose first match is active gives
/// `TargetActive`; a target whose first match is inactive is replaced, under
/// its process name; a target without a match is started from its full path,
/// in the directory that holds it, with the configured arguments. Only in the
/// last case can the decision fail: when the path has no parent.
pub fn decide(
    platform: Platform,
    config: &Obs,
    trigger: &Vec<ProcessMatch>,
    target: &Vec<ProcessMatch>,
) -> (r: Result<DecisionOutcome, PathResolutionError>)
    ensures
        match r {
            Ok(outcome) => decision(platform, config@, trigger@, target@) == Ok::<
                DecisionView,
                PathResolutionError,
            >(outcome@),
            Err(e) => decision(platform, config@, trigger@, target@) is Err,
        },
        r is Err <==> trigger.len() > 0 && target.len() == 0 && parent(
            platform,
            config@.target_process_path,
        ) is None,
        trigger.len() == 0 ==> r == Ok::<DecisionOutcome, PathResolutionError>(
            DecisionOutcome::TriggerAbsent,
        ),
        trigger.len() > 0 && target.len() > 0 && platform.liveness_of(target[0].status)
            == Liveness::Active ==> r == Ok::<DecisionOutcome, PathResolutionError>(
            DecisionOutcome::TargetActive,
        ),
        trigger.len() > 0 && target.len() > 0 && platform.liveness_of(target[0].status)
            == Liveness::Inactive ==> (r matches Ok(DecisionOutcome::Spawned(request))
            && request@.command == config@.target_process_name && request@.working_dir is None
            && request@.args.len() == 0),
        trigger.len() > 0 && target.len() == 0 && parent(platform, config@.target_process_path)
            is Some ==> (r matches Ok(DecisionOutcome::Spawned(request)) && request@.command
            == config@.target_process_path && request@.working_dir == parent(
            platform,
            config@.target_process_path,
        ) && request@.args == arguments(config@.target_args)),
{
    if trigger.len() == 0 {
        return Ok(DecisionOutcome::TriggerAbsent);
    }
    if target.len() > 0 {
        return match platform.classify(target[0].status) {
            Liveness::Active => Ok(DecisionOutcome::TargetActive),
            Liveness::Inactive => {
                let request = SpawnRequest {
                    command: config.target_process_name.clone(),
                    working_dir: None,
                    args: Vec::new(),
                };
                proof {
                    assert(request@.args =~= Seq::<Seq<char>>::empty());
                }
                Ok(DecisionOutcome::Spawned(request))
            },
        };
    }
    match parent_of(platform, config.target_process_path.as_str()) {
        Some(dir) => {
            let request = SpawnRequest {
                command: config.target_process_path.clone(),
                working_dir: Some(dir),
                args: parse_args(config.target_args.as_str()),
            };
            Ok(DecisionOutcome::Spawned(request))
        },
        None => Err(PathResolutionError),
    }
}

/// What the process table itself says of the decision, when the matches for
/// the trigger and for the target answer the queries for their names on one
/// table. A table without the trigger decides for `TriggerAbsent`. With the
/// trigger in it, a table without the target has the target started from its
/// path; a table that holds the target in active states only decides for
/// `TargetActive`; one that holds it in inactive states only has it replaced.
/// Where instances of the target differ in liveness, the one that the table
/// gives out first decides.
pub proof fn lemma_decision_follows_the_table(
    platform: Platform,
    config: ObsView,
    sys: sysinfo::System,
    trigger: Seq<ProcessMatch>,
    target: Seq<ProcessMatch>,
)
    requires
        answers(trigger, sys, config.trigger_process_name),
        answers(target, sys, config.target_process_name),
    ensures
        states_named(sys, config.trigger_process_name).is_empty() ==> decision(
            platform,
            config,
            trigger,
            target,
        ) == Ok::<DecisionView, PathResolutionError>(DecisionView::TriggerAbsent),
        !states_named(sys, config.trigger_process_name).is_empty() && states_named(
            sys,
            config.target_process_name,
        ).is_empty() ==> decision(platform, config, trigger, target) == match launch(
            platform,
            config,
        ) {
            Some(request) => Ok::<DecisionView, PathResolutionError>(
                DecisionView::Spawned(request),
            ),
            None => Err::<DecisionView, PathResolutionError>(PathResolutionError),
        },
        !states_named(sys, config.trigger_process_name).is_empty() && !states_named(
            sys,
            config.target_process_name,
        ).is_empty() && (forall|status: PlatformStatus|
            states_named(sys, config.target_process_name).contains(status)
                ==> platform.liveness_of(status) == Liveness::Active) ==> decision(
            platform,
            config,
            trigger,
            target,
        ) == Ok::<DecisionView, PathResolutionError>(DecisionView::TargetActive),
        !states_named(sys, config.trigger_process_name).is_empty() && !states_named(
            sys,
            config.target_process_name,
        ).is_empty() && (forall|status: PlatformStatus|
            states_named(sys, config.target_process_name).contains(status)
                ==> platform.liveness_of(status) == Liveness::Inactive) ==> decision(
            platform,
            config,
            trigger,
            target,
        ) == Ok::<DecisionView, PathResolutionError>(DecisionView::Spawned(relaunch(config))),
{
    let trigger_states = states_named(sys, config.trigger_process_name);
    let target_states = states_named(sys, config.target_process_name);
    if trigger.len() > 0 {
        assert(trigger_states.contains(trigger[0].status));
    }
    if target.len() > 0 {
        assert(target_states.contains(target[0].status));
    }
    if !trigger_states.is_empty() {
        let status = choose|status: PlatformStatus| trigger_states.contains(status);
        assert(trigger.len() > 0);
    }
    if !target_states.is_empty() {
        let status = choose|status: PlatformStatus| target_states.contains(status);
        assert(target.len() > 0);
    }
}

} // verus!
