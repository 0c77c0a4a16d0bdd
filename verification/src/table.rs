use crate::config::Obs;
use crate::platform::PlatformStatus;
use crate::text::{chars_of, holds_text};
use vstd::prelude::*;

verus! {

/// The process table of `sysinfo`, as its last refresh left it. Nothing
/// inside it is visible here: it is read through `process_table`.
#[verifier::external_type_specification]
#[verifier::external_body]
pub struct ExSystem(sysinfo::System);

/// What a process table holds: for each of its processes the name, paired
/// with the label that `sysinfo` gives to the run state of the process.
pub uninterp spec fn process_table(sys: sysinfo::System) -> Set<(Seq<char>, Seq<char>)>;

/// Whether `needle` occurs in `hay` as a run of consecutive characters.
pub open spec fn occurs_in(needle: Seq<char>, hay: Seq<char>) -> bool {
    exists|k: int|
        0 <= k <= hay.len() - needle.len() && #[trigger] hay.subrange(k, k + needle.len())
            == needle
}

/// `SystemExt::get_process_by_name` of `sysinfo` walks the whole table and
/// returns the processes whose name contains `name`, in no stated order.
/// Each comes out as its name (`ProcessExt::name`) and the label of its run
/// state (`ProcessStatus::to_string` on `ProcessExt::status`). The contract
/// claims that every pair returned is in the table under a name in which
/// `name` occurs, and that every such pair of the table is returned.
#[verifier::external_body]
fn processes_containing(sys: &sysinfo::System, name: &str) -> (found: Vec<(String, String)>)
    ensures
        forall|i: int|
            0 <= i < found.len() ==> occurs_in(name@, (#[trigger] found[i]).0@) && process_table(
                *sys,
            ).contains((found[i].0@, found[i].1@)),
        forall|n: Seq<char>, label: Seq<char>|
            #[trigger] process_table(*sys).contains((n, label)) && occurs_in(name@, n)
                ==> exists|i: int|
                0 <= i < found.len() && (#[trigger] found[i]).0@ == n && found[i].1@ == label,
{
    let mut found = Vec::new();
    for process in sysinfo::SystemExt::get_process_by_name(sys, name) {
        let status = sysinfo::ProcessExt::status(process);
        let its_name = sysinfo::ProcessExt::name(process);
        found.push((String::from(its_name), String::from(status.to_string())));
    }
    found
}

/// The run state that a label of the process table stands for. A label that
/// names no known state stands for `Unknown`.
#[verifier::opaque]
pub open spec fn labelled(label: Seq<char>) -> PlatformStatus {
    if label == "Idle"@ {
        PlatformStatus::Idle
    } else if label == "Runnable"@ {
        PlatformStatus::Run
    } else if label == "Sleeping"@ {
        PlatformStatus::Sleep
    } else if label == "Stopped"@ {
        PlatformStatus::Stop
    } else if label == "Zombie"@ {
        PlatformStatus::Zombie
    } else if label == "Tracing"@ {
        PlatformStatus::Tracing
    } else if label == "Dead"@ {
        PlatformStatus::Dead
    } else if label == "Wakekill"@ {
        PlatformStatus::Wakekill
    } else if label == "Waking"@ {
        PlatformStatus::Waking
    } else if label == "Parked"@ {
        PlatformStatus::Parked
    } else {
        PlatformStatus::Unknown
    }
}

/// Reads the label of a run state.
pub fn status_of_label(label: &str) -> (status: PlatformStatus)
    ensures
        status == labelled(label@),
{
    proof {
        reveal(labelled);
    }
    let label = chars_of(label);
    if holds_text(&label, "Idle") {
        PlatformStatus::Idle
    } else if holds_text(&label, "Runnable") {
        PlatformStatus::Run
    } else if holds_text(&label, "Sleeping") {
        PlatformStatus::Sleep
    } else if holds_text(&label, "Stopped") {
        PlatformStatus::Stop
    } else if holds_text(&label, "Zombie") {
        PlatformStatus::Zombie
    } else if holds_text(&label, "Tracing") {
        PlatformStatus::Tracing
    } else if holds_text(&label, "Dead") {
        PlatformStatus::Dead
    } else if holds_text(&label, "Wakekill") {
        PlatformStatus::Wakekill
    } else if holds_text(&label, "Waking") {
        PlatformStatus::Waking
    } else if holds_text(&label, "Parked") {
        PlatformStatus::Parked
    } else {
        PlatformStatus::Unknown
    }
}

/// One process found in the table under a queried name.
#[derive(Clone, Debug, PartialEq, Eq)]
pub struct ProcessMatch {
    pub name: String,
    pub status: PlatformStatus,
}

/// A `ProcessMatch` with its name as a character sequence.
pub struct ProcessMatchView {
    pub name: Seq<char>,
    pub status: PlatformStatus,
}

impl View for ProcessMatch {
    type V = ProcessMatchView;

    open spec fn view(&self) -> ProcessMatchView {
        ProcessMatchView { name: self.name@, status: self.status }
    }
}

/// The matches for `name` among `candidates`, each a name and the label of a
/// run state: the candidates that go by exactly that name, in their order.
pub open spec fn exact_matches(
    candidates: Seq<(Seq<char>, Seq<char>)>,
    name: Seq<char>,
) -> Seq<ProcessMatchView>
    decreases candidates.len(),
{
    if candidates.len() == 0 {
        Seq::empty()
    } else {
        let before = exact_matches(candidates.drop_last(), name);
        let last = candidates.last();
        if last.0 == name {
            before.push(ProcessMatchView { name: name, status: labelled(last.1) })
        } else {
            before
        }
    }
}

/// The names and labels that `candidates` hold, as character sequences.
pub open spec fn pairs(candidates: Seq<(String, String)>) -> Seq<(Seq<char>, Seq<char>)> {
    candidates.map_values(|c: (String, String)| (c.0@, c.1@))
}

/// The matches that `found` holds, with their names as character sequences.
pub open spec fn match_views(found: Seq<ProcessMatch>) -> Seq<ProcessMatchView> {
    found.map_values(|m: ProcessMatch| m@)
}

/// Picks from `candidates` the processes named exactly `name`, and reads the
/// run state of each from its label. Their order is kept.
pub fn matches_among(candidates: &Vec<(String, String)>, name: &str) -> (found: Vec<ProcessMatch>)
    ensures
        match_views(found@) == exact_matches(pairs(candidates@), name@),
{
    let mut found: Vec<ProcessMatch> = Vec::new();
    let mut i: usize = 0;
    while i < candidates.len()
        invariant
            i <= candidates.len(),
            match_views(found@) == exact_matches(pairs(candidates@).take(i as int), name@),
        decreases candidates.len() - i,
    {
        let ghost before = match_views(found@);
        proof {
            assert(pairs(candidates@).take(i + 1).drop_last() =~= pairs(candidates@).take(
                i as int,
            ));
        }
        let candidate = &candidates[i];
        if holds_text(&chars_of(candidate.0.as_str()), name) {
            let status = status_of_label(candidate.1.as_str());
            found.push(ProcessMatch { name: candidate.0.clone(), status });
            proof {
                assert(match_views(found@) =~= before.push(
                    ProcessMatchView { name: name@, status: labelled(candidate.1@) },
                ));
            }
        }
        i += 1;
    }
    proof {
        assert(pairs(candidates@).take(i as int) =~= pairs(candidates@));
    }
    found
}

/// An exact match stems from a candidate of the queried name: the result is
/// the place of one.
proof fn lemma_match_has_source(
    candidates: Seq<(Seq<char>, Seq<char>)>,
    name: Seq<char>,
    j: int,
) -> (i: int)
    requires
        0 <= j < exact_matches(candidates, name).len(),
    ensures
        0 <= i < candidates.len(),
        candidates[i].0 == name,
        exact_matches(candidates, name)[j] == (ProcessMatchView {
            name: name,
            status: labelled(candidates[i].1),
        }),
    decreases candidates.len(),
{
    let init = candidates.drop_last();
    if candidates.last().0 == name && j == exact_matches(init, name).len() {
        candidates.len() - 1
    } else {
        lemma_match_has_source(init, name, j)
    }
}

/// A candidate of the queried name has its run state among the exact
/// matches: the result is the place of such a match.
proof fn lemma_source_has_match(
    candidates: Seq<(Seq<char>, Seq<char>)>,
    name: Seq<char>,
    i: int,
) -> (j: int)
    requires
        0 <= i < candidates.len(),
        candidates[i].0 == name,
    ensures
        0 <= j < exact_matches(candidates, name).len(),
        exact_matches(candidates, name)[j].status == labelled(candidates[i].1),
    decreases candidates.len(),
{
    let init = candidates.drop_last();
    if i == candidates.len() - 1 {
        exact_matches(init, name).len() as int
    } else {
        lemma_source_has_match(init, name, i)
    }
}

/// The run states in which the table holds a process named exactly `name`.
pub open spec fn states_named(sys: sysinfo::System, name: Seq<char>) -> Set<PlatformStatus> {
    Set::new(
        |status: PlatformStatus|
            exists|label: Seq<char>|
                #[trigger] process_table(sys).contains((name, label)) && labelled(label)
                    == status,
    )
}

/// Whether `found` answers the query for `name` on `sys`: each match goes by
/// exactly that name, in a run state in which the table holds a process of
/// that name, and each such run state is met among the matches.
pub open spec fn answers(found: Seq<ProcessMatch>, sys: sysinfo::System, name: Seq<char>) -> bool {
    &&& forall|i: int|
        0 <= i < found.len() ==> (#[trigger] found[i]).name@ == name && states_named(
            sys,
            name,
        ).contains(found[i].status)
    &&& forall|status: PlatformStatus|
        states_named(sys, name).contains(status) ==> exists|i: int|
            0 <= i < found.len() && (#[trigger] found[i]).status == status
}

/// The processes that the table holds under exactly the name `name`, in the
/// order in which the table gives them out, which is not fixed.
pub fn query(sys: &sysinfo::System, name: &str) -> (found: Vec<ProcessMatch>)
    ensures
        answers(found@, *sys, name@),
        found.len() == 0 <==> states_named(*sys, name@).is_empty(),
{
    let candidates = processes_containing(sys, name);
    let found = matches_among(&candidates, name);
    proof {
        let cs = pairs(candidates@);
        let ms = exact_matches(cs, name@);
        assert(name@.subrange(0, 0 + name@.len() as int) =~= name@);
        assert(occurs_in(name@, name@));
        assert forall|i: int| 0 <= i < found.len() implies (#[trigger] found[i]).name@ == name@
            && states_named(*sys, name@).contains(found[i].status) by {
            assert(ms[i] == found[i]@);
            let k = lemma_match_has_source(cs, name@, i);
            assert(cs[k] == (candidates[k].0@, candidates[k].1@));
            assert(process_table(*sys).contains((name@, cs[k].1)));
        }
        assert forall|status: PlatformStatus|
            states_named(*sys, name@).contains(status) implies exists|i: int|
            0 <= i < found.len() && (#[trigger] found[i]).status == status by {
            let label = choose|label: Seq<char>|
                #[trigger] process_table(*sys).contains((name@, label)) && labelled(label)
                    == status;
            let k = choose|k: int|
                0 <= k < candidates.len() && (#[trigger] candidates[k]).0@ == name@
                    && candidates[k].1@ == label;
            assert(cs[k] == (candidates[k].0@, candidates[k].1@));
            let j = lemma_source_has_match(cs, name@, k);
            assert(ms[j] == found[j]@);
        }
        if found.len() == 0 {
            assert(states_named(*sys, name@) =~= Set::<PlatformStatus>::empty());
        } else {
            assert(states_named(*sys, name@).contains(found[0].status));
        }
    }
    found
}

/// What one look at the process table showed of the trigger and of the
/// target.
#[derive(Clone, Debug, PartialEq, Eq)]
pub struct Snapshot {
    /// The processes that go by the trigger's name.
    pub trigger: Vec<ProcessMatch>,
    /// The processes that go by the target's name.
    pub target: Vec<ProcessMatch>,
}

/// Looks up the trigger and the target of `config` in one and the same state
/// of the process table.
pub fn observe(sys: &sysinfo::System, config: &Obs) -> (seen: Snapshot)
    ensures
        answers(seen.trigger@, *sys, config@.trigger_process_name),
        answers(seen.target@, *sys, config@.target_process_name),
        seen.trigger.len() == 0 <==> states_named(*sys, config@.trigger_process_name).is_empty(),
        seen.target.len() == 0 <==> states_named(*sys, config@.target_process_name).is_empty(),
{
    let trigger = query(sys, config.trigger_process_name.as_str());
    let target = query(sys, config.target_process_name.as_str());
    Snapshot { trigger, target }
}

} // verus!
