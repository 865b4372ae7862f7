//! Only names whose direct competitors are accounted for are recovered.
//!
//! Discovery diagnostics carry no paths, so they cannot prove which names a
//! skipped subtree could hide. Instead the one supported slot of each observed
//! name is probed in each root: metadata alone, no second discovery.
use crate::context::jsonl::FileIdentity;
use crate::names::{is_ascending, NameSet};
use crate::text::same_text;
use vstd::prelude::*;

verus! {

/// What `lstat` says of the file in a slot, followed where it is a link.
#[derive(Clone, Copy, Debug, PartialEq, Eq, Structural)]
pub enum FileSlot {
    /// The directory could not be opened without following links.
    DirectoryNotOpened,
    Absent,
    Failed,
    /// A link whose target could not be inspected.
    DanglingLink,
    /// A regular file, in place or at the end of a link.
    Regular(FileIdentity),
    /// Anything else, in place or at the end of a link.
    Other,
}

/// What `lstat` says of the directory of a slot.
#[derive(Clone, Copy, Debug, PartialEq, Eq, Structural)]
pub enum DirectorySlot {
    Absent,
    Failed,
    Link,
    NoDirectory,
    Directory(FileSlot),
}

/// Is a slot accounted for: absent without a snapshot, or exactly the file
/// that was read? Finding an unobserved file is no permission to offer it.
pub open spec fn is_accounted(slot: DirectorySlot, expected: Option<FileIdentity>) -> bool {
    match slot {
        DirectorySlot::Absent => expected is None,
        DirectorySlot::Failed => false,
        DirectorySlot::Link => false,
        DirectorySlot::NoDirectory => expected is None,
        DirectorySlot::Directory(file) => match file {
            FileSlot::DirectoryNotOpened => false,
            FileSlot::Absent => expected is None,
            FileSlot::Failed => false,
            FileSlot::DanglingLink => false,
            FileSlot::Regular(identity) => expected == Some(identity),
            FileSlot::Other => false,
        },
    }
}

pub fn slot_matches(slot: DirectorySlot, expected: Option<FileIdentity>) -> (r: bool)
    ensures
        r == is_accounted(slot, expected),
{
    match slot {
        DirectorySlot::Absent => expected.is_none(),
        DirectorySlot::Failed => false,
        DirectorySlot::Link => false,
        DirectorySlot::NoDirectory => expected.is_none(),
        DirectorySlot::Directory(file) => match file {
            FileSlot::DirectoryNotOpened => false,
            FileSlot::Absent => expected.is_none(),
            FileSlot::Failed => false,
            FileSlot::DanglingLink => false,
            FileSlot::Regular(identity) => match expected {
                Some(known) => known == identity,
                None => false,
            },
            FileSlot::Other => false,
        },
    }
}

/// What a root says of one name.
#[derive(Clone, Copy, Debug, PartialEq, Eq, Structural)]
pub enum RootReading {
    /// A source that gives no callable names.
    Unsupported,
    /// A root that cannot be read proves not even an absence.
    Unreadable,
    Slot { slot: DirectorySlot, expected: Option<FileIdentity> },
}

/// A name with what each root says of it, in the order of the roots.
#[derive(Clone, Debug)]
pub struct ObservedName {
    pub name: String,
    pub readings: Vec<RootReading>,
}

/// What probing a name comes to.
#[derive(Clone, Copy, Debug, PartialEq, Eq, Structural)]
pub struct NameVerdict {
    pub probes: usize,
    pub withheld: bool,
    pub limited: bool,
}

pub open spec fn verdict_of(readings: Seq<RootReading>, probes: usize, max_probes: usize) -> NameVerdict
    decreases readings.len(),
{
    if readings.len() == 0 {
        NameVerdict { probes, withheld: false, limited: false }
    } else if readings[0] is Unsupported {
        verdict_of(readings.skip(1), probes, max_probes)
    } else if probes >= max_probes {
        NameVerdict { probes, withheld: true, limited: true }
    } else {
        let spent = (probes + 1) as usize;
        match readings[0] {
            RootReading::Slot { slot, expected } => if is_accounted(slot, expected) {
                verdict_of(readings.skip(1), spent, max_probes)
            } else {
                NameVerdict { probes: spent, withheld: true, limited: false }
            },
            _ => NameVerdict { probes: spent, withheld: true, limited: false },
        }
    }
}

/// Probe a name in each root until one is not accounted for or the allowance
/// is spent.
pub fn prove_name(readings: &Vec<RootReading>, probes: usize, max_probes: usize) -> (r: NameVerdict)
    ensures
        r == verdict_of(readings@, probes, max_probes),
{
    let mut spent: usize = probes;
    let mut i: usize = 0;
    assert(readings@.skip(0) =~= readings@);
    while i < readings.len()
        invariant
            i <= readings@.len(),
            verdict_of(readings@, probes, max_probes) == verdict_of(
                readings@.skip(i as int),
                spent,
                max_probes,
            ),
        decreases readings@.len() - i,
    {
        assert(readings@.skip(i as int)[0] == readings@[i as int]);
        assert(readings@.skip(i as int).skip(1) =~= readings@.skip(i + 1));
        match readings[i] {
            RootReading::Unsupported => {},
            RootReading::Unreadable => {
                if spent >= max_probes {
                    return NameVerdict { probes: spent, withheld: true, limited: true };
                }
                return NameVerdict { probes: spent + 1, withheld: true, limited: false };
            },
            RootReading::Slot { slot, expected } => {
                if spent >= max_probes {
                    return NameVerdict { probes: spent, withheld: true, limited: true };
                }
                spent = spent + 1;
                if !slot_matches(slot, expected) {
                    return NameVerdict { probes: spent, withheld: true, limited: false };
                }
            },
        }
        i += 1;
    }
    NameVerdict { probes: spent, withheld: false, limited: false }
}

/// The readings of a name.
pub open spec fn readings_of(observed: Seq<ObservedName>, name: Seq<char>) -> Seq<RootReading>
    decreases observed.len(),
{
    if observed.len() == 0 {
        Seq::empty()
    } else if observed[0].name@ == name {
        observed[0].readings@
    } else {
        readings_of(observed.skip(1), name)
    }
}

/// The names that are withheld, and those withheld for want of allowance.
pub struct ProofView {
    pub withheld: Set<Seq<char>>,
    pub limited: Set<Seq<char>>,
    pub probes: usize,
}

/// The proof of the first `n` names.
pub open spec fn proven(
    order: Seq<Seq<char>>,
    observed: Seq<ObservedName>,
    max_probes: usize,
    n: int,
) -> ProofView
    decreases n,
{
    if n <= 0 || n > order.len() {
        ProofView { withheld: Set::empty(), limited: Set::empty(), probes: 0 }
    } else {
        let before = proven(order, observed, max_probes, n - 1);
        let verdict = verdict_of(
            readings_of(observed, order[n - 1]),
            before.probes,
            max_probes,
        );
        ProofView {
            withheld: if verdict.withheld {
                before.withheld.insert(order[n - 1])
            } else {
                before.withheld
            },
            limited: if verdict.limited {
                before.limited.insert(order[n - 1])
            } else {
                before.limited
            },
            probes: verdict.probes,
        }
    }
}

/// The names that are still to be proved.
pub open spec fn pending_names(observed: Seq<ObservedName>, withheld: Seq<Seq<char>>) -> Set<
    Seq<char>,
> {
    Set::new(
        |name: Seq<char>|
            !withheld.contains(name) && exists|i: int|
                0 <= i < observed.len() && (#[trigger] observed[i]).name@ == name,
    )
}

/// The order in which names are probed: that of their bytes, whatever order
/// they were found in.
pub open spec fn is_probe_order(
    order: Seq<Seq<char>>,
    observed: Seq<ObservedName>,
    withheld: Seq<Seq<char>>,
) -> bool {
    is_ascending(order) && order.to_set() == pending_names(observed, withheld)
}

/// What was proved of the names.
#[derive(Debug)]
pub struct NameProof {
    pub withheld: NameSet,
    pub limited: NameSet,
}

pub(crate) fn find_readings<'a>(observed: &'a Vec<ObservedName>, name: &str) -> (r: Option<&'a Vec<RootReading>>)
    ensures
        match r {
            Some(readings) => readings_of(observed@, name@) == readings@,
            None => readings_of(observed@, name@) == Seq::<RootReading>::empty(),
        },
{
    let mut i: usize = 0;
    assert(observed@.skip(0) =~= observed@);
    while i < observed.len()
        invariant
            i <= observed@.len(),
            readings_of(observed@, name@) == readings_of(observed@.skip(i as int), name@),
        decreases observed@.len() - i,
    {
        assert(observed@.skip(i as int)[0] == observed@[i as int]);
        assert(observed@.skip(i as int).skip(1) =~= observed@.skip(i + 1));
        if same_text(observed[i].name.as_str(), name) {
            return Some(&observed[i].readings);
        }
        i += 1;
    }
    None
}

/// The pending names in probe order.
pub(crate) fn probe_order(observed: &Vec<ObservedName>, withheld: &NameSet) -> (order: NameSet)
    requires
        withheld.inv(),
    ensures
        order.inv(),
        is_probe_order(order@, observed@, withheld@),
{
    let mut order: NameSet = NameSet::new();
    let mut i: usize = 0;
    assert(order@.to_set() =~= pending_names(observed@.take(0), withheld@));
    while i < observed.len()
        invariant
            i <= observed@.len(),
            withheld.inv(),
            order.inv(),
            order@.to_set() == pending_names(observed@.take(i as int), withheld@),
        decreases observed@.len() - i,
    {
        let name: &str = observed[i].name.as_str();
        proof {
            let before = observed@.take(i as int);
            let after = observed@.take(i + 1);
            let a = pending_names(before, withheld@);
            let b = pending_names(after, withheld@);
            assert forall|t: Seq<char>| b.contains(t) == (a.contains(t) || (t == name@
                && !withheld@.contains(t))) by {
                if b.contains(t) {
                    let k = choose|k: int|
                        0 <= k < after.len() && (#[trigger] after[k]).name@ == t;
                    if k < i {
                        assert(before[k].name@ == t);
                    }
                }
                if a.contains(t) {
                    let k = choose|k: int|
                        0 <= k < before.len() && (#[trigger] before[k]).name@ == t;
                    assert(after[k].name@ == t);
                }
                assert(after[i as int].name@ == name@);
            }
            if withheld@.contains(name@) {
                assert(a =~= b);
            } else {
                assert(a.insert(name@) =~= b);
            }
        }
        if !withheld.contains(name) {
            order.insert(name);
        }
        i += 1;
    }
    assert(observed@.take(i as int) =~= observed@);
    order
}

/// Prove the observed names within an allowance of probes.
pub fn prove_with_limit(
    observed: &Vec<ObservedName>,
    already_withheld: &NameSet,
    max_probes: usize,
) -> (proof_of_names: NameProof)
    requires
        already_withheld.inv(),
    ensures
        proof_of_names.withheld.inv(),
        proof_of_names.limited.inv(),
        exists|order: Seq<Seq<char>>|
            {
                &&& #[trigger] is_probe_order(order, observed@, already_withheld@)
                &&& proof_of_names.withheld@.to_set() == proven(
                    order,
                    observed@,
                    max_probes,
                    order.len() as int,
                ).withheld
                &&& proof_of_names.limited@.to_set() == proven(
                    order,
                    observed@,
                    max_probes,
                    order.len() as int,
                ).limited
            },
{
    let order: NameSet = probe_order(observed, already_withheld);
    let mut withheld: NameSet = NameSet::new();
    let mut limited: NameSet = NameSet::new();
    let mut probes: usize = 0;
    let none: Vec<RootReading> = Vec::new();
    let mut i: usize = 0;
    assert(withheld@.to_set() =~= Set::empty());
    assert(limited@.to_set() =~= Set::empty());
    while i < order.len()
        invariant
            i <= order@.len(),
            order.inv(),
            withheld.inv(),
            limited.inv(),
            none@ == Seq::<RootReading>::empty(),
            withheld@.to_set() == proven(order@, observed@, max_probes, i as int).withheld,
            limited@.to_set() == proven(order@, observed@, max_probes, i as int).limited,
            probes == proven(order@, observed@, max_probes, i as int).probes,
        decreases order@.len() - i,
    {
        let name: &str = order.at(i);
        let readings: &Vec<RootReading> = match find_readings(observed, name) {
            Some(readings) => readings,
            None => &none,
        };
        let verdict: NameVerdict = prove_name(readings, probes, max_probes);
        if verdict.withheld {
            withheld.insert(name);
        }
        if verdict.limited {
            limited.insert(name);
        }
        probes = verdict.probes;
        i += 1;
    }
    NameProof { withheld, limited }
}

/// A link, a dangling link or a file that was never read does not prove that a
/// slot is empty.
pub proof fn only_absence_proves_absence(slot: DirectorySlot)
    requires
        is_accounted(slot, None),
    ensures
        slot == DirectorySlot::Absent || slot == DirectorySlot::NoDirectory || slot
            == DirectorySlot::Directory(FileSlot::Absent),
{
}

/// The allowance is never overspent, and a name is limited only where it is
/// withheld.
pub proof fn probes_stay_within_the_allowance(
    readings: Seq<RootReading>,
    probes: usize,
    max_probes: usize,
)
    requires
        probes <= max_probes,
    ensures
        probes <= verdict_of(readings, probes, max_probes).probes <= max_probes,
        verdict_of(readings, probes, max_probes).limited ==> verdict_of(
            readings,
            probes,
            max_probes,
        ).withheld && verdict_of(readings, probes, max_probes).probes == max_probes,
    decreases readings.len(),
{
    if readings.len() > 0 {
        if readings[0] is Unsupported {
            probes_stay_within_the_allowance(readings.skip(1), probes, max_probes);
        } else if probes < max_probes {
            probes_stay_within_the_allowance(
                readings.skip(1),
                (probes + 1) as usize,
                max_probes,
            );
        }
    }
}

} // verus!
