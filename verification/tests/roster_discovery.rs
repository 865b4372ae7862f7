use skillranker::roster::discovery::{
    Checkpoints, Diagnostic, DirectoryListing, Discovery, DiscoveryLimits, DiscoveryPlan,
    EntryReading, PlannedRoot, StreamError,
};
use skillranker::context::jsonl::FileIdentity;
use skillranker::names::NameSet;
use skillranker::roster::resolution::discovery_scope::{
    prove_name, prove_with_limit, slot_matches, DirectorySlot, FileSlot, NameVerdict,
    ObservedName, RootReading,
};
use skillranker::roster::resolution::name_budget::{prove_in_time, BudgetCheck, EarlyStop};
use std::cell::Cell;

const EIO: StreamError = StreamError(5);

fn skill(relative: &str, size: u64) -> Result<EntryReading, StreamError> {
    Ok(EntryReading::Skill {
        relative: relative.to_string(),
        size,
    })
}

fn root_files(sizes: &[u64]) -> DiscoveryPlan {
    let mut plan = DiscoveryPlan::new("claude_code");
    for (index, size) in sizes.iter().enumerate() {
        plan.push_root(PlannedRoot {
            source: format!("fixture-{index}"),
            directories: vec![DirectoryListing {
                depth: 0,
                entries: vec![skill("SKILL.md", *size)],
            }],
        });
    }
    plan
}

fn limits(entries: usize, bytes: u64) -> DiscoveryLimits {
    DiscoveryLimits::new(entries, bytes, 8)
}

#[test]
fn entry_exhaustion_stops_the_whole_plan_after_one_overflow_sentinel() {
    let plan = root_files(&[1; 32]);
    let discovery = plan.discover_with(limits(1, 100));
    assert_eq!(discovery.candidates().len(), 1);
    assert_eq!(discovery.entries_examined(), 2);
    assert_eq!(discovery.diagnostics(), &[Diagnostic::EntryLimitReached]);
    assert!(discovery.is_partial());
}

#[test]
fn byte_exhaustion_cannot_resume_with_smaller_files_in_later_roots() {
    let plan = root_files(&[1, 10, 1]);
    let discovery = plan.discover_with(limits(100, 2));
    assert_eq!(discovery.candidates().len(), 1);
    assert_eq!(discovery.candidates()[0].source(), "fixture-0");
    assert_eq!(discovery.entries_examined(), 2);
    assert_eq!(discovery.bytes_examined(), 1);
    assert_eq!(discovery.diagnostics(), &[Diagnostic::ByteLimitReached]);
    assert!(discovery.is_partial());
}

#[test]
fn reaching_an_exact_bound_is_not_itself_incomplete() {
    let discovery = root_files(&[4]).discover_with(limits(1, 4));
    assert_eq!(discovery.candidates().len(), 1);
    assert_eq!(discovery.entries_examined(), 1);
    assert_eq!(discovery.bytes_examined(), 4);
    assert!(!discovery.is_partial());
    assert!(discovery.diagnostics().is_empty());
}

#[test]
fn checkpoint_errors_abort_inside_a_walk_and_preserve_the_callers_error() {
    let mut root = PlannedRoot {
        source: "fixture".to_string(),
        directories: vec![DirectoryListing {
            depth: 0,
            entries: (0..100).map(|_| Ok(EntryReading::Other)).collect(),
        }],
    };
    for index in 0..100 {
        root.directories.push(DirectoryListing {
            depth: 1,
            entries: vec![skill(&format!("skill-{index:03}/SKILL.md"), 4)],
        });
    }
    let mut plan = DiscoveryPlan::new("claude_code");
    plan.push_root(root);
    let (result, checks) =
        plan.discover_with_checkpoint(limits(1_000, 1_000), Checkpoints::refusing(40, "cancelled"));
    assert_eq!(result.unwrap_err(), "cancelled");
    assert_eq!(checks.calls(), 40, "no further checkpoint or scan after refusal");

    let (complete, successful) =
        plan.discover_with_checkpoint(limits(1_000, 1_000), Checkpoints::admitting());
    let complete = complete.unwrap();
    assert_eq!(complete.candidates().len(), 100);
    assert!(!complete.is_partial());
    assert!(successful.calls() > checks.calls());
}

#[test]
fn even_an_empty_pass_checks_admission_and_completion() {
    let plan = DiscoveryPlan::new("claude_code");
    let (result, _) =
        plan.discover_with_checkpoint(limits(1_000, 1_000), Checkpoints::refusing(1, "deadline"));
    assert_eq!(result.unwrap_err(), "deadline");
    let (result, checks) =
        plan.discover_with_checkpoint(limits(1_000, 1_000), Checkpoints::admitting());
    result.unwrap();
    let completed = checks.calls();
    assert!(completed >= 2);
    let (result, _) = plan.discover_with_checkpoint(
        limits(1_000, 1_000),
        Checkpoints::refusing(completed, "deadline"),
    );
    assert_eq!(result.unwrap_err(), "deadline");
}

#[test]
fn a_nonadvancing_failed_directory_stream_is_not_retried() {
    let mut discovery = Discovery::new();
    let source = "fixture";
    let calls = Cell::new(0);
    let mut broken = std::iter::repeat_with(|| {
        calls.set(calls.get() + 1);
        Err::<(), _>(EIO)
    });
    assert!(discovery.next_entry(broken.next(), source).is_none());
    assert_eq!(calls.get(), 1);
    assert_eq!(
        discovery.diagnostics(),
        &[Diagnostic::EntryUnreadable(source.to_string())]
    );
    assert!(discovery.is_partial());
}

#[test]
fn failed_stream_preserves_preceding_entries_and_leaves_following_entries_unread() {
    let mut discovery = Discovery::new();
    let source = "fixture";
    let mut iterator = [Ok(1), Err(EIO), Ok(2)].into_iter();
    let mut found = Vec::new();
    while let Some(entry) = discovery.next_entry(iterator.next(), source) {
        found.push(entry);
    }
    assert_eq!(found, vec![1]);
    assert_eq!(iterator.next(), Some(Ok(2)));
    assert_eq!(discovery.diagnostics().len(), 1);
}

#[test]
fn a_failed_stream_ends_only_its_own_directory() {
    let mut plan = DiscoveryPlan::new("claude_code");
    plan.push_root(PlannedRoot {
        source: "a".to_string(),
        directories: vec![
            DirectoryListing {
                depth: 0,
                entries: vec![skill("one/SKILL.md", 1), Err(EIO), skill("two/SKILL.md", 1)],
            },
            DirectoryListing {
                depth: 0,
                entries: vec![skill("three/SKILL.md", 1)],
            },
        ],
    });
    let discovery = plan.discover_with(limits(10, 10));
    let found: Vec<&str> = discovery.candidates().iter().map(|c| c.relative()).collect();
    assert_eq!(found, vec!["one/SKILL.md", "three/SKILL.md"]);
    assert_eq!(discovery.diagnostics(), &[Diagnostic::EntryUnreadable("a".to_string())]);
    assert_eq!(plan.harness(), "claude_code");
}

#[test]
fn shallower_skills_in_every_root_precede_another_roots_nested_support_files() {
    for order in [[0, 1, 2], [2, 1, 0]] {
        let mut plan = DiscoveryPlan::new("claude_code");
        for index in order {
            let mut directories = vec![
                DirectoryListing {
                    depth: 0,
                    entries: vec![Ok(EntryReading::Other)],
                },
                DirectoryListing {
                    depth: 1,
                    entries: vec![skill("alpha/SKILL.md", 4)],
                },
            ];
            if index == 0 {
                directories[1].entries.push(Ok(EntryReading::Other));
                directories.push(DirectoryListing {
                    depth: 2,
                    entries: (0..100).map(|_| Ok(EntryReading::Other)).collect(),
                });
            }
            plan.push_root(PlannedRoot {
                source: format!("root-{index}"),
                directories,
            });
        }
        let discovery = plan.discover_with(limits(7, 100));
        assert_eq!(discovery.candidates().len(), 3);
        assert_eq!(discovery.entries_examined(), 8);
        assert_eq!(discovery.diagnostics(), &[Diagnostic::EntryLimitReached]);
        let sources: Vec<_> = discovery.candidates().iter().map(|c| c.source()).collect();
        assert_eq!(sources, vec!["root-0", "root-1", "root-2"]);
        assert_eq!(
            discovery.candidates(),
            plan.discover_with(limits(7, 100)).candidates(),
            "fresh streams preserve the same bounded snapshot"
        );
    }
}

fn file(ino: u64) -> FileIdentity {
    FileIdentity { dev: 1, ino }
}

#[test]
fn absence_unseen_file_and_changed_identity_are_distinct() {
    let own = Some(file(7));
    assert!(slot_matches(DirectorySlot::Absent, None));
    assert!(slot_matches(DirectorySlot::Directory(FileSlot::Absent), None));
    let found = DirectorySlot::Directory(FileSlot::Regular(file(7)));
    assert!(!slot_matches(found, None));
    assert!(slot_matches(found, own));
    assert!(!slot_matches(DirectorySlot::Directory(FileSlot::Absent), own));
    let replaced = DirectorySlot::Directory(FileSlot::Regular(file(8)));
    assert!(!slot_matches(replaced, own));
}

#[test]
fn symlinked_directories_and_dangling_file_links_never_prove_absence() {
    assert!(!slot_matches(DirectorySlot::Link, None));
    assert!(!slot_matches(DirectorySlot::Directory(FileSlot::DanglingLink), None));
    assert!(!slot_matches(DirectorySlot::Failed, None));
    assert!(!slot_matches(DirectorySlot::Directory(FileSlot::DirectoryNotOpened), None));
    assert!(!slot_matches(DirectorySlot::Directory(FileSlot::Failed), None));
    assert!(!slot_matches(DirectorySlot::Directory(FileSlot::Other), Some(file(7))));
    assert!(slot_matches(DirectorySlot::NoDirectory, None));
}

fn names(list: &NameSet) -> Vec<String> {
    list.to_list()
}

#[test]
fn proof_limit_keeps_completed_names_and_marks_only_unproven_names() {
    let observed: Vec<ObservedName> = ["beta", "alpha"]
        .iter()
        .enumerate()
        .map(|(index, name)| ObservedName {
            name: name.to_string(),
            readings: vec![RootReading::Slot {
                slot: DirectorySlot::Directory(FileSlot::Regular(file(index as u64))),
                expected: Some(file(index as u64)),
            }],
        })
        .collect();
    let proof = prove_with_limit(&observed, &NameSet::new(), 0);
    assert_eq!(names(&proof.withheld), vec!["alpha", "beta"]);
    assert_eq!(names(&proof.limited), names(&proof.withheld));
    let proof = prove_with_limit(&observed, &NameSet::new(), 1);
    assert_eq!(names(&proof.withheld), vec!["beta"]);
    assert_eq!(names(&proof.limited), names(&proof.withheld));
    let proof = prove_with_limit(&observed, &NameSet::new(), 2);
    assert!(proof.withheld.is_empty());
    assert!(proof.limited.is_empty());
    let mut held = NameSet::new();
    held.insert("alpha");
    let proof = prove_with_limit(&observed, &held, 0);
    assert_eq!(names(&proof.withheld), vec!["beta"]);
}

#[test]
fn unreadable_roots_withhold_and_unsupported_ones_do_not_count() {
    let gone = RootReading::Slot {
        slot: DirectorySlot::Absent,
        expected: None,
    };
    assert_eq!(
        prove_name(&vec![RootReading::Unsupported, gone], 0, 1),
        NameVerdict { probes: 1, withheld: false, limited: false }
    );
    assert_eq!(
        prove_name(&vec![RootReading::Unreadable, gone], 0, 5),
        NameVerdict { probes: 1, withheld: true, limited: false }
    );
    assert_eq!(
        prove_name(&vec![gone, gone], 0, 1),
        NameVerdict { probes: 1, withheld: true, limited: true }
    );
}

#[test]
fn names_stay_in_byte_order() {
    let mut set = NameSet::new();
    assert!(set.insert("b"));
    assert!(set.insert("a"));
    assert!(set.insert("B"));
    assert!(!set.insert("a"));
    assert_eq!(set.to_list(), vec!["B", "a", "b"]);
    assert!(set.contains("b"));
    assert!(!set.contains("c"));
    assert_eq!(set.len(), 3);
    assert_eq!(set.at(0), "B");
}

#[test]
fn nothing_is_proved_once_a_check_stops() {
    let observed: Vec<ObservedName> = vec![ObservedName {
        name: "alpha".to_string(),
        readings: vec![
            RootReading::Unsupported,
            RootReading::Slot {
                slot: DirectorySlot::Absent,
                expected: None,
            },
        ],
    }];
    // One check at each end, one for the name, one for each root and one
    // after the probe.
    for made in 0..6 {
        let stopped = prove_in_time(&observed, &NameSet::new(), 9, &vec![BudgetCheck::Open; made]);
        assert_eq!(stopped.err(), Some(EarlyStop::Deadline), "{made}");
    }
    let proof = prove_in_time(&observed, &NameSet::new(), 9, &vec![BudgetCheck::Open; 6]).unwrap();
    assert!(names(&proof.withheld).is_empty());
    let mut checks = vec![BudgetCheck::Open; 6];
    checks[3] = BudgetCheck::Stopped(EarlyStop::Cancelled);
    checks[4] = BudgetCheck::Stopped(EarlyStop::Deadline);
    let cancelled = prove_in_time(&observed, &NameSet::new(), 9, &checks);
    assert_eq!(cancelled.err(), Some(EarlyStop::Cancelled));
}
