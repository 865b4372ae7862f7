//! Where a proof of names is stopped.
use crate::roster::resolution::name_budget::{first_stop, BudgetCheck, EarlyStop};
use vstd::prelude::*;

verus! {

/// A proof goes through exactly where every check that it makes is open.
pub proof fn open_checks_let_a_proof_through(checks: Seq<BudgetCheck>, n: nat)
    requires
        n <= checks.len(),
    ensures
        first_stop(checks, n) is None <==> forall|i: int|
            0 <= i < n ==> #[trigger] checks[i] == BudgetCheck::Open,
    decreases n,
{
    if n > 0 {
        open_checks_let_a_proof_through(checks, (n - 1) as nat);
        if first_stop(checks, n) is None {
            assert forall|i: int| 0 <= i < n implies #[trigger] checks[i] == BudgetCheck::Open by {
                assert(i < n - 1 || i == n - 1);
            }
        }
    }
}

/// The first check that is not open stops a proof, for its own reason; one that
/// is never made counts as late.
pub proof fn the_first_stop_counts(checks: Seq<BudgetCheck>, n: nat, k: int, why: EarlyStop)
    requires
        0 <= k < n,
        k <= checks.len(),
        forall|i: int| 0 <= i < k ==> #[trigger] checks[i] == BudgetCheck::Open,
        k < checks.len() ==> checks[k] == BudgetCheck::Stopped(why),
    ensures
        k < checks.len() ==> first_stop(checks, n) == Some(why),
        k == checks.len() ==> first_stop(checks, n) == Some(EarlyStop::Deadline),
    decreases n,
{
    if k < n - 1 {
        the_first_stop_counts(checks, (n - 1) as nat, k, why);
    } else {
        open_checks_let_a_proof_through(checks, k as nat);
    }
}

} // verus!
