//! What the explanation of a report says, and when.
use crate::evaluation::batch::GateStatus;
use crate::evaluation::explanation::{
    explained_assumptions, explained_interpretation, explained_quantities, gate_sentence,
    missing_labels_sentence, summed, DesignStatus, ReportFacts,
};
use crate::text::decimal;
use vstd::prelude::*;

verus! {

/// A sum is written term by term.
pub proof fn sums_are_written_term_by_term(terms: Seq<Seq<char>>, term: Seq<char>)
    ensures
        summed(Seq::empty()).len() == 0,
        terms.len() == 0 ==> summed(terms.push(term)) == term,
        terms.len() > 0 ==> summed(terms.push(term)) == summed(terms) + " + "@ + term,
{
    assert(terms.push(term).drop_last() =~= terms);
}

/// A labeled report explains its two losses, and a sampled one with a design
/// the two of the design behind them; nothing else is explained, and each value
/// is the report's own.
pub proof fn explained_values_are_the_reports_own(facts: ReportFacts)
    ensures
        ({
            let list = explained_quantities(facts);
            let losses: int = if facts.labeled {
                2
            } else {
                0
            };
            let designed = facts.sample is Some && facts.sample->0.design is Some;
            &&& list.len() == losses + (if designed {
                2int
            } else {
                0
            })
            &&& facts.labeled ==> list[0].name == "mean_loss"@ && list[0].value == facts.mean_loss
                && list[1].name == "mean_normalized_loss"@ && list[1].value
                == facts.mean_normalized_loss
            &&& facts.labeled ==> list[0].substituted == decimal(facts.total_loss as nat) + " / "@
                + decimal(facts.attempted_cases as nat)
            &&& designed ==> list[losses].value == facts.sample->0.design->0.r_hat_observed
                && list[losses + 1].value == Some(
                facts.sample->0.design->0.conservative_upper_bound,
            )
        }),
{
}

/// The interpretation of a report ends with its status. Before it, in this order,
/// it says that a fixed sample supports no inference, that labels are missing
/// where the point estimate is not guaranteed, and how many cases are missing
/// where some are: each where it holds and nowhere else.
pub proof fn interpretations_hide_nothing(facts: ReportFacts)
    ensures
        ({
            let list = explained_interpretation(facts);
            let fixed: int = if facts.sample is Some && facts.sample->0.status
                == DesignStatus::DiagnosticFixed {
                1
            } else {
                0
            };
            let unsure: int = if facts.sample is Some && facts.sample->0.design is Some
                && !facts.sample->0.design->0.point_estimate_guaranteed {
                1
            } else {
                0
            };
            let partial: int = if facts.cases_completed < facts.cases_requested {
                1
            } else {
                0
            };
            &&& list.len() == fixed + unsure + partial + 1
            &&& list.last() == gate_sentence(facts.gate_status)
            &&& unsure == 1 ==> list[fixed] == missing_labels_sentence(facts.sample->0.design->0)
            &&& partial == 1 ==> list[fixed + unsure] == decimal(
                (facts.cases_requested - facts.cases_completed) as nat,
            ) + " of "@ + decimal(facts.cases_requested as nat)
                + " cases are not estimable; the run is partial and they are excluded from loss rather than counted as successes."@
        }),
{
}

/// Only what passed is said to have passed.
pub proof fn gates_are_not_flattered(gate: GateStatus)
    ensures
        gate_sentence(gate) == "The report's quality gate passed."@ <==> gate == GateStatus::Passed,
        gate_sentence(gate) == "The report's quality gate failed."@ <==> gate == GateStatus::Failed,
{
    reveal_strlit("The report's quality gate passed.");
    reveal_strlit("The report's quality gate failed.");
    reveal_strlit("Synthetic evidence is not eligible for a quality gate.");
    reveal_strlit("This report is evidence for a promotion review, not a passed quality gate.");
    assert("The report's quality gate passed."@[26] == 'p');
    assert("The report's quality gate failed."@[26] == 'f');
    assert("The report's quality gate passed."@.len() == 33);
    assert("The report's quality gate failed."@.len() == 33);
}

/// A report of recorded decisions says that it has no labels, and a labeled one
/// does not; a sampled one says how it was drawn.
pub proof fn assumptions_match_the_evidence(facts: ReportFacts)
    ensures
        ({
            let list = explained_assumptions(facts);
            let evidence: int = if facts.labeled {
                3
            } else {
                1
            };
            &&& !facts.labeled ==> list[0]
                == "Recorded decisions are observations, not usefulness labels; replay supplies no loss."@
            &&& facts.labeled ==> list[0]
                == "Labels are independent judgments joined by case_id at their highest revision."@
            &&& facts.sample is None ==> list.len() == evidence + (if facts.labeled {
                1int
            } else {
                0
            })
            &&& facts.sample matches Some(sample) ==> list.len() == evidence + (if sample.status
                == DesignStatus::DiagnosticFixed {
                1int
            } else {
                2
            })
            &&& facts.sample matches Some(sample) ==> list[evidence]
                == "One representative per task family was selected ("@
                + sample.representative_rule@
                + " rule) and the manifest was frozen before labels were joined."@
        }),
{
}

} // verus!
