//! Proving names within an invocation's time: the work stops at the first
//! check that does not let it go on, and nothing is proved then.
use crate::names::{order_is_canonical, NameSet};
use crate::roster::resolution::discovery_scope::{
    find_readings, is_accounted, is_probe_order, probe_order, proven, readings_of, slot_matches,
    verdict_of, NameProof, NameVerdict, ObservedName, RootReading,
};
use vstd::prelude::*;

verus! {

/// Why a resolution stops early.
#[derive(Clone, Copy, Debug, PartialEq, Eq, Structural)]
pub enum EarlyStop {
    Cancelled,
    Deadline,
}

/// What one check of the clock and of the caller's cancellation says.
#[derive(Clone, Copy, Debug, PartialEq, Eq, Structural)]
pub enum BudgetCheck {
    Open,
    Stopped(EarlyStop),
}

/// What the check at a place says; one that was never made is late.
pub open spec fn stop_at(checks: Seq<BudgetCheck>, i: int) -> Option<EarlyStop> {
    if 0 <= i < checks.len() {
        match checks[i] {
            BudgetCheck::Open => None,
            BudgetCheck::Stopped(why) => Some(why),
        }
    } else {
        Some(EarlyStop::Deadline)
    }
}

/// The first stop among the first `n` checks.
pub open spec fn first_stop(checks: Seq<BudgetCheck>, n: nat) -> Option<EarlyStop>
    decreases n,
{
    if n == 0 {
        None
    } else {
        match first_stop(checks, (n - 1) as nat) {
            Some(why) => Some(why),
            None => stop_at(checks, n - 1),
        }
    }
}

proof fn stops_stay(checks: Seq<BudgetCheck>, k: nat, n: nat)
    requires
        k <= n,
        first_stop(checks, k) is Some,
    ensures
        first_stop(checks, n) == first_stop(checks, k),
    decreases n,
{
    if k < n {
        stops_stay(checks, k, (n - 1) as nat);
    }
}

/// The checks made while a name is probed: one for each root that is looked
/// at, and one more after each probe.
pub open spec fn checks_of(readings: Seq<RootReading>, probes: usize, max_probes: usize) -> nat
    decreases readings.len(),
{
    if readings.len() == 0 {
        0
    } else {
        match readings[0] {
            RootReading::Unsupported => 1 + checks_of(readings.skip(1), probes, max_probes),
            RootReading::Unreadable => 1,
            RootReading::Slot { slot, expected } => if probes >= max_probes {
                1
            } else if is_accounted(slot, expected) {
                2 + checks_of(readings.skip(1), (probes + 1) as usize, max_probes)
            } else {
                2
            },
        }
    }
}

/// The checks made for the first `n` names, one before each of them.
pub open spec fn checks_below(
    order: Seq<Seq<char>>,
    observed: Seq<ObservedName>,
    max_probes: usize,
    n: int,
) -> nat
    decreases n,
{
    if n <= 0 || n > order.len() {
        0
    } else {
        checks_below(order, observed, max_probes, n - 1) + 1 + checks_of(
            readings_of(observed, order[n - 1]),
            proven(order, observed, max_probes, n - 1).probes,
            max_probes,
        )
    }
}

/// The checks of a whole proof, with one at each end.
pub open spec fn checks_needed(
    order: Seq<Seq<char>>,
    observed: Seq<ObservedName>,
    max_probes: usize,
) -> nat {
    2 + checks_below(order, observed, max_probes, order.len() as int)
}

proof fn checks_grow(
    order: Seq<Seq<char>>,
    observed: Seq<ObservedName>,
    max_probes: usize,
    n: int,
    m: int,
)
    requires
        0 <= n <= m <= order.len(),
    ensures
        checks_below(order, observed, max_probes, n) <= checks_below(
            order,
            observed,
            max_probes,
            m,
        ),
    decreases m - n,
{
    if n < m {
        checks_grow(order, observed, max_probes, n, m - 1);
    }
}

/// Make the next check.
fn check(checks: &Vec<BudgetCheck>, made: usize) -> (r: Result<usize, EarlyStop>)
    requires
        first_stop(checks@, made as nat) is None,
    ensures
        match r {
            Ok(now) => now == made + 1 && first_stop(checks@, now as nat) is None,
            Err(why) => first_stop(checks@, (made + 1) as nat) == Some(why),
        },
{
    if made >= checks.len() {
        return Err(EarlyStop::Deadline);
    }
    match checks[made] {
        BudgetCheck::Open => Ok(made + 1),
        BudgetCheck::Stopped(why) => Err(why),
    }
}

/// Probe a name in each root, with `made` checks behind it.
fn prove_name_in_time(
    readings: &Vec<RootReading>,
    probes: usize,
    max_probes: usize,
    checks: &Vec<BudgetCheck>,
    made: usize,
) -> (r: Result<(NameVerdict, usize), EarlyStop>)
    requires
        first_stop(checks@, made as nat) is None,
    ensures
        ({
            let total = made + checks_of(readings@, probes, max_probes);
            match r {
                Ok((verdict, now)) => verdict == verdict_of(readings@, probes, max_probes) && now
                    == total && first_stop(checks@, now as nat) is None,
                Err(why) => first_stop(checks@, total as nat) == Some(why),
            }
        }),
{
    let ghost total = (made + checks_of(readings@, probes, max_probes)) as nat;
    let mut now: usize = made;
    let mut spent: usize = probes;
    let mut i: usize = 0;
    assert(readings@.skip(0) =~= readings@);
    while i < readings.len()
        invariant
            i <= readings@.len(),
            first_stop(checks@, now as nat) is None,
            total == made + checks_of(readings@, probes, max_probes),
            total == now + checks_of(readings@.skip(i as int), spent, max_probes),
            verdict_of(readings@, probes, max_probes) == verdict_of(
                readings@.skip(i as int),
                spent,
                max_probes,
            ),
        decreases readings@.len() - i,
    {
        assert(readings@.skip(i as int)[0] == readings@[i as int]);
        assert(readings@.skip(i as int).skip(1) =~= readings@.skip(i + 1));
        match check(checks, now) {
            Ok(next) => {
                now = next;
            },
            Err(why) => {
                proof {
                    stops_stay(checks@, (now + 1) as nat, total);
                }
                return Err(why);
            },
        }
        match readings[i] {
            RootReading::Unsupported => {},
            RootReading::Unreadable => {
                if spent >= max_probes {
                    return Ok((NameVerdict { probes: spent, withheld: true, limited: true }, now));
                }
                return Ok((NameVerdict { probes: spent + 1, withheld: true, limited: false }, now));
            },
            RootReading::Slot { slot, expected } => {
                if spent >= max_probes {
                    return Ok((NameVerdict { probes: spent, withheld: true, limited: true }, now));
                }
                spent = spent + 1;
                match check(checks, now) {
                    Ok(next) => {
                        now = next;
                    },
                    Err(why) => {
                        proof {
                            stops_stay(checks@, (now + 1) as nat, total);
                        }
                        return Err(why);
                    },
                }
                if !slot_matches(slot, expected) {
                    return Ok((NameVerdict { probes: spent, withheld: true, limited: false }, now));
                }
            },
        }
        i += 1;
    }
    Ok((NameVerdict { probes: spent, withheld: false, limited: false }, now))
}

/// Prove the observed names within an allowance of probes and the time that
/// the checks leave.
pub fn prove_in_time(
    observed: &Vec<ObservedName>,
    already_withheld: &NameSet,
    max_probes: usize,
    checks: &Vec<BudgetCheck>,
) -> (r: Result<NameProof, EarlyStop>)
    requires
        already_withheld.inv(),
    ensures
        forall|order: Seq<Seq<char>>| #[trigger]
            is_probe_order(order, observed@, already_withheld@) ==> {
                let stop = first_stop(checks@, checks_needed(order, observed@, max_probes));
                match r {
                    Ok(proved) => {
                        &&& stop is None
                        &&& proved.withheld.inv() && proved.limited.inv()
                        &&& proved.withheld@.to_set() == proven(
                            order,
                            observed@,
                            max_probes,
                            order.len() as int,
                        ).withheld
                        &&& proved.limited@.to_set() == proven(
                            order,
                            observed@,
                            max_probes,
                            order.len() as int,
                        ).limited
                    },
                    Err(why) => stop == Some(why),
                }
            },
        exists|order: Seq<Seq<char>>| #[trigger]
            is_probe_order(order, observed@, already_withheld@),
{
    let order: NameSet = probe_order(observed, already_withheld);
    let ghost names = order@;
    let ghost total = checks_needed(names, observed@, max_probes);
    proof {
        assert forall|other: Seq<Seq<char>>| #[trigger]
            is_probe_order(other, observed@, already_withheld@) implies other == names by {
            order_is_canonical(other, names);
        }
    }
    let mut now: usize = match check(checks, 0) {
        Ok(next) => next,
        Err(why) => {
            proof {
                stops_stay(checks@, 1, total);
            }
            return Err(why);
        },
    };
    let mut withheld: NameSet = NameSet::new();
    let mut limited: NameSet = NameSet::new();
    let mut probes: usize = 0;
    let none: Vec<RootReading> = Vec::new();
    let mut i: usize = 0;
    assert(withheld@.to_set() =~= Set::empty());
    assert(limited@.to_set() =~= Set::empty());
    while i < order.len()
        invariant
            i <= order@.len(),
            order.inv(),
            order@ == names,
            total == checks_needed(names, observed@, max_probes),
            forall|other: Seq<Seq<char>>| #[trigger]
                is_probe_order(other, observed@, already_withheld@) ==> other == names,
            is_probe_order(names, observed@, already_withheld@),
            withheld.inv(),
            limited.inv(),
            none@ == Seq::<RootReading>::empty(),
            first_stop(checks@, now as nat) is None,
            now == 1 + checks_below(names, observed@, max_probes, i as int),
            withheld@.to_set() == proven(names, observed@, max_probes, i as int).withheld,
            limited@.to_set() == proven(names, observed@, max_probes, i as int).limited,
            probes == proven(names, observed@, max_probes, i as int).probes,
        decreases order@.len() - i,
    {
        let name: &str = order.at(i);
        proof {
            checks_grow(names, observed@, max_probes, i + 1, names.len() as int);
        }
        let readings: &Vec<RootReading> = match find_readings(observed, name) {
            Some(readings) => readings,
            None => &none,
        };
        let begun: usize = match check(checks, now) {
            Ok(next) => next,
            Err(why) => {
                proof {
                    stops_stay(checks@, (now + 1) as nat, total);
                }
                return Err(why);
            },
        };
        let (verdict, next): (NameVerdict, usize) = match prove_name_in_time(
            readings,
            probes,
            max_probes,
            checks,
            begun,
        ) {
            Ok(found) => found,
            Err(why) => {
                proof {
                    stops_stay(
                        checks@,
                        (begun + checks_of(readings@, probes, max_probes)) as nat,
                        total,
                    );
                }
                return Err(why);
            },
        };
        now = next;
        if verdict.withheld {
            withheld.insert(name);
        }
        if verdict.limited {
            limited.insert(name);
        }
        probes = verdict.probes;
        i += 1;
    }
    match check(checks, now) {
        Ok(_) => Ok(NameProof { withheld, limited }),
        Err(why) => Err(why),
    }
}

} // verus!
