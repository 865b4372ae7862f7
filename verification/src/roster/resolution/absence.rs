//! Which names are proved free of other definitions.
use crate::roster::resolution::discovery_scope::{
    is_accounted, proven, readings_of, verdict_of, DirectorySlot, FileSlot, ObservedName,
    RootReading,
};
use vstd::prelude::*;

verus! {

/// Does a reading show exactly what was expected of its root?
pub open spec fn shows_what_was_expected(reading: RootReading) -> bool {
    match reading {
        RootReading::Unsupported => true,
        RootReading::Unreadable => false,
        RootReading::Slot { slot, expected } => match expected {
            None => slot == DirectorySlot::Absent || slot == DirectorySlot::NoDirectory || slot
                == DirectorySlot::Directory(FileSlot::Absent),
            Some(known) => slot == DirectorySlot::Directory(FileSlot::Regular(known)),
        },
    }
}

proof fn accounted_readings(reading: RootReading)
    ensures
        reading matches RootReading::Slot { slot, expected } ==> (is_accounted(slot, expected)
            <==> shows_what_was_expected(reading)),
{
}

/// A name is withheld where some root shows anything but what was expected of
/// it; and within the allowance it is withheld only there.
pub proof fn unexpected_slots_withhold_a_name(
    readings: Seq<RootReading>,
    probes: usize,
    max_probes: usize,
)
    ensures
        !verdict_of(readings, probes, max_probes).withheld ==> forall|i: int|
            0 <= i < readings.len() ==> shows_what_was_expected(#[trigger] readings[i]),
        probes + readings.len() <= max_probes && (forall|i: int|
            0 <= i < readings.len() ==> shows_what_was_expected(#[trigger] readings[i]))
            ==> !verdict_of(readings, probes, max_probes).withheld,
        probes + readings.len() <= max_probes ==> !verdict_of(readings, probes, max_probes).limited,
    decreases readings.len(),
{
    if readings.len() > 0 {
        let rest = readings.skip(1);
        let spent = (probes + 1) as usize;
        accounted_readings(readings[0]);
        unexpected_slots_withhold_a_name(rest, probes, max_probes);
        if probes < max_probes {
            unexpected_slots_withhold_a_name(rest, spent, max_probes);
        }
        assert forall|i: int| 0 < i < readings.len() implies #[trigger] readings[i] == rest[i
            - 1] by {}
        if forall|i: int| 0 <= i < readings.len() ==> shows_what_was_expected(
            #[trigger] readings[i],
        ) {
            assert(shows_what_was_expected(readings[0]));
            assert forall|i: int| 0 <= i < rest.len() implies shows_what_was_expected(
                #[trigger] rest[i],
            ) by {
                assert(rest[i] == readings[i + 1]);
            }
        }
        if !verdict_of(readings, probes, max_probes).withheld {
            assert forall|i: int| 0 <= i < readings.len() implies shows_what_was_expected(
                #[trigger] readings[i],
            ) by {
                if i > 0 {
                    assert(shows_what_was_expected(rest[i - 1]));
                }
            }
        }
    }
}

/// Each supported root costs one probe, and one without callable names none.
pub proof fn probes_are_counted(readings: Seq<RootReading>, probes: usize, max_probes: usize)
    requires
        !verdict_of(readings, probes, max_probes).withheld,
        probes + readings.len() <= max_probes,
    ensures
        verdict_of(readings, probes, max_probes).probes == probes + readings.filter(
            |r: RootReading| !(r is Unsupported),
        ).len(),
    decreases readings.len(),
{
    let supported = |r: RootReading| !(r is Unsupported);
    if readings.len() > 0 {
        let rest = readings.skip(1);
        assert(readings =~= seq![readings[0]] + rest);
        first_is_counted(readings[0], rest);
        if readings[0] is Unsupported {
            probes_are_counted(rest, probes, max_probes);
        } else {
            probes_are_counted(rest, (probes + 1) as usize, max_probes);
        }
    } else {
        reveal(Seq::filter);
    }
}

proof fn first_is_counted(first: RootReading, rest: Seq<RootReading>)
    ensures
        (seq![first] + rest).filter(|r: RootReading| !(r is Unsupported)).len() == rest.filter(
            |r: RootReading| !(r is Unsupported),
        ).len() + (if first is Unsupported {
            0int
        } else {
            1
        }),
    decreases rest.len(),
{
    reveal(Seq::filter);
    let all = seq![first] + rest;
    if rest.len() == 0 {
        assert(all.drop_last() =~= Seq::empty());
        assert(all.drop_last().filter(|r: RootReading| !(r is Unsupported)).len() == 0);
        assert(all.last() == first);
    } else {
        assert(all.drop_last() =~= seq![first] + rest.drop_last());
        assert(all.last() == rest.last());
        first_is_counted(first, rest.drop_last());
    }
}

/// One more name is withheld by its own readings alone, and leaves the verdict
/// on the others as it was.
pub proof fn names_are_judged_one_by_one(
    order: Seq<Seq<char>>,
    observed: Seq<ObservedName>,
    max_probes: usize,
    n: int,
    k: int,
    other: Seq<char>,
)
    requires
        0 <= n < order.len(),
        0 <= k <= observed.len(),
        forall|j: int| 0 <= j < k ==> (#[trigger] observed[j]).name@ != order[n],
        k < observed.len() ==> observed[k].name@ == order[n],
    ensures
        ({
            let before = proven(order, observed, max_probes, n);
            let after = proven(order, observed, max_probes, n + 1);
            let own = if k < observed.len() {
                observed[k].readings@
            } else {
                Seq::empty()
            };
            let verdict = verdict_of(own, before.probes, max_probes);
            &&& other != order[n] ==> (after.withheld.contains(other)
                <==> before.withheld.contains(other))
            &&& after.withheld.contains(order[n]) <==> before.withheld.contains(order[n])
                || verdict.withheld
            &&& after.limited.contains(order[n]) <==> before.limited.contains(order[n])
                || verdict.limited
            &&& after.probes == verdict.probes
        }),
        proven(order, observed, max_probes, 0).withheld =~= Set::empty(),
        proven(order, observed, max_probes, 0).probes == 0,
{
    first_readings_count(observed, order[n], k);
}

proof fn first_readings_count(observed: Seq<ObservedName>, name: Seq<char>, k: int)
    requires
        0 <= k <= observed.len(),
        forall|j: int| 0 <= j < k ==> (#[trigger] observed[j]).name@ != name,
        k < observed.len() ==> observed[k].name@ == name,
    ensures
        readings_of(observed, name) == (if k < observed.len() {
            observed[k].readings@
        } else {
            Seq::empty()
        }),
    decreases k,
{
    if k > 0 {
        let rest = observed.skip(1);
        assert(observed[0].name@ != name);
        assert forall|j: int| 0 <= j < k - 1 implies (#[trigger] rest[j]).name@ != name by {
            assert(rest[j] == observed[j + 1]);
        }
        if k < observed.len() {
            assert(rest[k - 1] == observed[k]);
        }
        first_readings_count(rest, name, k - 1);
    }
}

} // verus!
