use observer::config::Obs;
use observer::platform::{Liveness, Platform, PlatformStatus};
use observer::table::{matches_among, observe, query, status_of_label, ProcessMatch};
use sysinfo::{ProcessExt, RefreshKind, System, SystemExt};

fn candidate(name: &str, label: &str) -> (String, String) {
    (name.to_string(), label.to_string())
}

fn found(name: &str, status: PlatformStatus) -> ProcessMatch {
    ProcessMatch { name: name.to_string(), status }
}

fn refreshed() -> System {
    let mut sys = System::new_with_specifics(RefreshKind::new().with_processes());
    sys.refresh_processes();
    sys
}

fn own_name(sys: &System) -> String {
    let pid = sysinfo::get_current_pid().unwrap();
    sys.get_process(pid).unwrap().name().to_string()
}

#[test]
fn labels_are_read_into_states() {
    assert_eq!(status_of_label("Idle"), PlatformStatus::Idle);
    assert_eq!(status_of_label("Runnable"), PlatformStatus::Run);
    assert_eq!(status_of_label("Sleeping"), PlatformStatus::Sleep);
    assert_eq!(status_of_label("Stopped"), PlatformStatus::Stop);
    assert_eq!(status_of_label("Zombie"), PlatformStatus::Zombie);
    assert_eq!(status_of_label("Tracing"), PlatformStatus::Tracing);
    assert_eq!(status_of_label("Dead"), PlatformStatus::Dead);
    assert_eq!(status_of_label("Wakekill"), PlatformStatus::Wakekill);
    assert_eq!(status_of_label("Waking"), PlatformStatus::Waking);
    assert_eq!(status_of_label("Parked"), PlatformStatus::Parked);
    assert_eq!(status_of_label("Unknown"), PlatformStatus::Unknown);
}

#[test]
fn other_labels_are_unknown() {
    for label in ["", "runnable", "Run", "Runnable ", "Sleepin", "Zombies"] {
        assert_eq!(status_of_label(label), PlatformStatus::Unknown, "{:?}", label);
    }
}

#[test]
fn labels_of_the_table_are_read_as_their_states() {
    let pairs = [
        (sysinfo::ProcessStatus::Idle, PlatformStatus::Idle),
        (sysinfo::ProcessStatus::Run, PlatformStatus::Run),
        (sysinfo::ProcessStatus::Sleep, PlatformStatus::Sleep),
        (sysinfo::ProcessStatus::Stop, PlatformStatus::Stop),
        (sysinfo::ProcessStatus::Zombie, PlatformStatus::Zombie),
        (sysinfo::ProcessStatus::Tracing, PlatformStatus::Tracing),
        (sysinfo::ProcessStatus::Dead, PlatformStatus::Dead),
        (sysinfo::ProcessStatus::Wakekill, PlatformStatus::Wakekill),
        (sysinfo::ProcessStatus::Waking, PlatformStatus::Waking),
        (sysinfo::ProcessStatus::Parked, PlatformStatus::Parked),
        (sysinfo::ProcessStatus::Unknown(77), PlatformStatus::Unknown),
    ];
    for (theirs, ours) in pairs {
        assert_eq!(status_of_label(theirs.to_string()), ours);
    }
}

#[test]
fn only_exact_names_match() {
    let candidates = vec![
        candidate("notepad.exe", "Runnable"),
        candidate("notepad.exe.bak", "Sleeping"),
        candidate("my-notepad.exe", "Runnable"),
        candidate("Notepad.exe", "Runnable"),
        candidate("notepad.exe", "Zombie"),
    ];
    assert_eq!(
        matches_among(&candidates, "notepad.exe"),
        vec![found("notepad.exe", PlatformStatus::Run), found("notepad.exe", PlatformStatus::Zombie)]
    );
}

#[test]
fn matches_keep_the_order_of_the_candidates() {
    let candidates = vec![
        candidate("a", "Zombie"),
        candidate("b", "Runnable"),
        candidate("a", "Sleeping"),
        candidate("a", "Idle"),
    ];
    assert_eq!(
        matches_among(&candidates, "a"),
        vec![
            found("a", PlatformStatus::Zombie),
            found("a", PlatformStatus::Sleep),
            found("a", PlatformStatus::Idle)
        ]
    );
}

#[test]
fn no_candidate_no_match() {
    assert_eq!(matches_among(&vec![], "a"), vec![]);
    assert_eq!(matches_among(&vec![candidate("ab", "Runnable")], "a"), vec![]);
    assert_eq!(matches_among(&vec![candidate("a", "Runnable")], ""), vec![]);
}

#[test]
fn running_process_is_found_by_its_name() {
    let sys = refreshed();
    let me = own_name(&sys);
    let found = query(&sys, &me);
    assert!(!found.is_empty());
    for one in &found {
        assert_eq!(one.name, me);
    }
    assert!(found.iter().any(|one| Platform::Unix.classify(one.status) == Liveness::Active));
}

#[test]
fn part_of_a_name_does_not_match() {
    let sys = refreshed();
    let me = own_name(&sys);
    let mut part = me.clone();
    part.pop();
    for one in query(&sys, &part) {
        assert_eq!(one.name, part);
    }
    let longer = format!("{}-no-such-process", me);
    assert_eq!(query(&sys, &longer), vec![]);
}

#[test]
fn query_agrees_with_the_table() {
    let sys = refreshed();
    let me = own_name(&sys);
    let expected = sys.get_processes().values().filter(|process| process.name() == me).count();
    assert_eq!(query(&sys, &me).len(), expected);
}

#[test]
fn one_look_covers_trigger_and_target() {
    let sys = refreshed();
    let me = own_name(&sys);
    let config = Obs {
        trigger_process_name: me.clone(),
        target_process_path: "/no/such/dir/no-such-process-at-all".to_string(),
        target_process_name: "no-such-process-at-all".to_string(),
        target_args: String::new(),
    };
    let seen = observe(&sys, &config);
    assert!(!seen.trigger.is_empty());
    assert!(seen.trigger.iter().all(|one| one.name == me));
    assert!(seen.target.is_empty());
}
