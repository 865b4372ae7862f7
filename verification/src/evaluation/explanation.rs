//! The equations, assumptions and interpretation behind a batch report.
//!
//! An explanation is computed from the report's values alone. Numbers with a
//! fraction arrive as they are printed, beside their values.
use crate::evaluation::batch::GateStatus;
use crate::score::Score;
use crate::text::{copy_text, decimal, decimal_text, join, texts};
use vstd::prelude::*;
use vstd::string::*;

verus! {

/// One reported quantity with its defining equation and substituted operands.
#[derive(Clone, Debug)]
pub struct ExplainedQuantity {
    pub name: String,
    pub equation: String,
    pub substituted: String,
    pub value: Option<Score>,
}

pub struct QuantityView {
    pub name: Seq<char>,
    pub equation: Seq<char>,
    pub substituted: Seq<char>,
    pub value: Option<Score>,
}

impl View for ExplainedQuantity {
    type V = QuantityView;

    open spec fn view(&self) -> QuantityView {
        QuantityView {
            name: self.name@,
            equation: self.equation@,
            substituted: self.substituted@,
            value: self.value,
        }
    }
}

pub open spec fn quantity_views(list: Seq<ExplainedQuantity>) -> Seq<QuantityView> {
    list.map_values(|q: ExplainedQuantity| q@)
}

/// Equations, assumptions and interpretation behind an evaluation report.
#[derive(Clone, Debug)]
pub struct ReportExplanation {
    pub quantities: Vec<ExplainedQuantity>,
    pub assumptions: Vec<String>,
    pub interpretation: Vec<String>,
}

/// How a sample of a labeled frame was drawn.
#[derive(Clone, Copy, Debug, PartialEq, Eq, Structural)]
pub enum DesignStatus {
    DiagnosticFixed,
    StratifiedProbabilitySample,
    FullCensus,
}

/// Is a design-weighted loss owed? A fixed seed supports reproduction only.
pub fn owes_design_weights(sample: Option<DesignStatus>) -> (r: bool)
    ensures
        r == (sample is Some && sample->0 != DesignStatus::DiagnosticFixed),
{
    match sample {
        Some(status) => status != DesignStatus::DiagnosticFixed,
        None => false,
    }
}

/// One stratum as the explanation prints it.
#[derive(Clone, Debug)]
pub struct StratumText {
    pub weight: String,
    pub mean_loss_observed: Option<String>,
    pub upper_bound: String,
}

/// The design-weighted part of a report.
#[derive(Clone, Debug)]
pub struct DesignFacts {
    pub strata: Vec<StratumText>,
    pub num_strata: usize,
    pub alpha: String,
    pub r_hat_observed: Option<Score>,
    pub conservative_upper_bound: Score,
    pub point_estimate_guaranteed: bool,
    pub total_missing_labels: usize,
    pub r_hat_lower: String,
    pub r_hat_upper: String,
}

/// The sampling part of a report.
#[derive(Clone, Debug)]
pub struct SampleFacts {
    pub representative_rule: String,
    pub status: DesignStatus,
    pub design: Option<DesignFacts>,
}

/// What an explanation reads of a report.
#[derive(Clone, Debug)]
pub struct ReportFacts {
    pub labeled: bool,
    pub total_loss: u32,
    pub attempted_cases: usize,
    pub mean_loss: Option<Score>,
    /// The mean loss as printed, where there is one.
    pub mean_loss_text: Option<String>,
    pub mean_normalized_loss: Option<Score>,
    pub sample: Option<SampleFacts>,
    pub cases_requested: usize,
    pub cases_completed: usize,
    pub gate_status: GateStatus,
}

/// The texts, with `" + "` between them.
pub open spec fn summed(terms: Seq<Seq<char>>) -> Seq<char>
    decreases terms.len(),
{
    if terms.len() == 0 {
        Seq::empty()
    } else if terms.len() == 1 {
        terms[0]
    } else {
        summed(terms.drop_last()) + " + "@ + terms.last()
    }
}

pub open spec fn mean_terms(strata: Seq<StratumText>) -> Seq<Seq<char>> {
    strata.map_values(
        |s: StratumText|
            s.weight@ + " * "@ + match s.mean_loss_observed {
                Some(mean) => mean@,
                None => "unobserved"@,
            },
    )
}

pub open spec fn bound_terms(strata: Seq<StratumText>) -> Seq<Seq<char>> {
    strata.map_values(|s: StratumText| s.weight@ + " * "@ + s.upper_bound@)
}

/// The terms of a weighted sum over the strata.
fn sum_terms(strata: &Vec<StratumText>, bounds: bool) -> (s: String)
    ensures
        s@ == summed(
            if bounds {
                bound_terms(strata@)
            } else {
                mean_terms(strata@)
            },
        ),
{
    let ghost terms = if bounds {
        bound_terms(strata@)
    } else {
        mean_terms(strata@)
    };
    let mut s: String = String::new();
    let mut i: usize = 0;
    assert(terms.take(0) =~= Seq::empty());
    while i < strata.len()
        invariant
            i <= strata@.len(),
            terms == (if bounds {
                bound_terms(strata@)
            } else {
                mean_terms(strata@)
            }),
            terms.len() == strata@.len(),
            s@ == summed(terms.take(i as int)),
        decreases strata@.len() - i,
    {
        let stratum: &StratumText = &strata[i];
        let value: &str = if bounds {
            stratum.upper_bound.as_str()
        } else {
            match &stratum.mean_loss_observed {
                Some(mean) => mean.as_str(),
                None => "unobserved",
            }
        };
        let term: String = join(stratum.weight.as_str(), " * ").concat(value);
        assert(term@ == terms[i as int]);
        assert(terms.take(i as int + 1).drop_last() =~= terms.take(i as int));
        assert(terms.take(i as int + 1).last() == term@);
        if i > 0 {
            s = s.concat(" + ").concat(term.as_str());
        } else {
            s = term;
        }
        i += 1;
    }
    assert(terms.take(i as int) =~= terms);
    s
}

pub open spec fn design_quantities(design: DesignFacts) -> Seq<QuantityView> {
    seq![
        QuantityView {
            name: "design_weighted_mean_loss"@,
            equation: "R_hat = sum_h W_h * ybar_h, W_h = N_h / N, over observed normalized loss"@,
            substituted: summed(mean_terms(design.strata@)),
            value: design.r_hat_observed,
        },
        QuantityView {
            name: "design_weighted_upper_bound"@,
            equation: "U = sum_h W_h * U_h, U_h = min(1, ybar_h_upper + sqrt(ln(H / alpha) / (2 * n_h))), exact for census strata"@,
            substituted: "H = "@ + decimal(design.num_strata as nat) + ", alpha = "@ + design.alpha@
                + "; "@ + summed(bound_terms(design.strata@)),
            value: Some(design.conservative_upper_bound),
        },
    ]
}

/// Append the quantities of a design-weighted loss.
pub fn push_design_quantities(quantities: &mut Vec<ExplainedQuantity>, design: &DesignFacts)
    ensures
        quantity_views(final(quantities)@) == quantity_views(old(quantities)@) + design_quantities(
            *design,
        ),
{
    let mean = ExplainedQuantity {
        name: copy_text("design_weighted_mean_loss"),
        equation: copy_text(
            "R_hat = sum_h W_h * ybar_h, W_h = N_h / N, over observed normalized loss",
        ),
        substituted: sum_terms(&design.strata, false),
        value: design.r_hat_observed,
    };
    let count: String = decimal_text(design.num_strata as u64);
    let terms: String = sum_terms(&design.strata, true);
    let bound = ExplainedQuantity {
        name: copy_text("design_weighted_upper_bound"),
        equation: copy_text(
            "U = sum_h W_h * U_h, U_h = min(1, ybar_h_upper + sqrt(ln(H / alpha) / (2 * n_h))), exact for census strata",
        ),
        substituted: join("H = ", count.as_str()).concat(", alpha = ").concat(
            design.alpha.as_str(),
        ).concat("; ").concat(terms.as_str()),
        value: Some(design.conservative_upper_bound),
    };
    let ghost before = quantity_views(quantities@);
    quantities.push(mean);
    quantities.push(bound);
    assert(quantity_views(quantities@) =~= before + design_quantities(*design));
}

pub open spec fn loss_quantities(facts: ReportFacts) -> Seq<QuantityView> {
    if facts.labeled {
        seq![
            QuantityView {
                name: "mean_loss"@,
                equation: "mean_loss = total_loss / attempted_cases"@,
                substituted: decimal(facts.total_loss as nat) + " / "@ + decimal(
                    facts.attempted_cases as nat,
                ),
                value: facts.mean_loss,
            },
            QuantityView {
                name: "mean_normalized_loss"@,
                equation: "y_i = loss_i / 2; mean_normalized_loss = mean_loss / 2"@,
                substituted: match facts.mean_loss_text {
                    Some(mean) => mean@ + " / 2"@,
                    None => "no attempted case"@,
                },
                value: facts.mean_normalized_loss,
            },
        ]
    } else {
        Seq::empty()
    }
}

pub open spec fn explained_quantities(facts: ReportFacts) -> Seq<QuantityView> {
    loss_quantities(facts) + (match facts.sample {
        Some(sample) => match sample.design {
            Some(design) => design_quantities(design),
            None => Seq::empty(),
        },
        None => Seq::empty(),
    })
}

pub open spec fn explained_assumptions(facts: ReportFacts) -> Seq<Seq<char>> {
    let evidence = if facts.labeled {
        seq![
            "Labels are independent judgments joined by case_id at their highest revision."@,
            "Loss follows evaluation_policy.v1: a correct suggestion or abstention 0, a false abstention 1, a wrong or needless suggestion or an operational failure 2."@,
            "Explicit requests are checked separately and unjudged cases carry no loss; neither enters the loss denominator."@,
        ]
    } else {
        seq![
            "Recorded decisions are observations, not usefulness labels; replay supplies no loss."@,
        ]
    };
    let sampling = match facts.sample {
        Some(sample) => {
            let frozen = seq![
                "One representative per task family was selected ("@ + sample.representative_rule@
                    + " rule) and the manifest was frozen before labels were joined."@,
            ];
            match sample.status {
                DesignStatus::DiagnosticFixed => frozen,
                DesignStatus::StratifiedProbabilitySample => frozen.push(
                    "Selection is uniform without replacement within each stratum from a recorded OS-random seed."@,
                ),
                DesignStatus::FullCensus => frozen.push(
                    "Every family in the frame was evaluated; stratum means are exact."@,
                ),
            }
        },
        None => if facts.labeled {
            seq!["The full supplied frame was evaluated; no sampling randomness is involved."@]
        } else {
            Seq::empty()
        },
    };
    evidence + sampling
}

pub open spec fn gate_sentence(gate: GateStatus) -> Seq<char> {
    match gate {
        GateStatus::Passed => "The report's quality gate passed."@,
        GateStatus::Failed => "The report's quality gate failed."@,
        GateStatus::NotApplicable => "Synthetic evidence is not eligible for a quality gate."@,
        GateStatus::NotEstablished =>
            "This report is evidence for a promotion review, not a passed quality gate."@,
    }
}

pub open spec fn missing_labels_sentence(design: DesignFacts) -> Seq<char> {
    decimal(design.total_missing_labels as nat)
        + " sampled cases lack a loss; read the design-weighted mean as the interval ["@
        + design.r_hat_lower@ + ", "@ + design.r_hat_upper@ + "], not the observed point estimate."@
}

pub open spec fn explained_interpretation(facts: ReportFacts) -> Seq<Seq<char>> {
    let fixed: Seq<Seq<char>> = if facts.sample is Some && facts.sample->0.status
        == DesignStatus::DiagnosticFixed {
        seq![
            "A supplied seed reproduces a selection; it supports no inclusion probabilities or design-based uncertainty."@,
        ]
    } else {
        Seq::empty()
    };
    let missing: Seq<Seq<char>> = if facts.sample is Some && facts.sample->0.design is Some
        && !facts.sample->0.design->0.point_estimate_guaranteed {
        seq![missing_labels_sentence(facts.sample->0.design->0)]
    } else {
        Seq::empty()
    };
    let unfinished: Seq<Seq<char>> = if facts.cases_requested > facts.cases_completed {
        seq![
            decimal((facts.cases_requested - facts.cases_completed) as nat) + " of "@ + decimal(
                facts.cases_requested as nat,
            )
                + " cases are not estimable; the run is partial and they are excluded from loss rather than counted as successes."@,
        ]
    } else {
        Seq::empty()
    };
    fixed + missing + unfinished + seq![gate_sentence(facts.gate_status)]
}

fn push_text(list: &mut Vec<String>, text: String)
    ensures
        texts(final(list)@) == texts(old(list)@).push(text@),
{
    let ghost before = texts(list@);
    list.push(text);
    assert(texts(list@) =~= before.push(text@));
}

fn explain_quantities(facts: &ReportFacts) -> (quantities: Vec<ExplainedQuantity>)
    ensures
        quantity_views(quantities@) == explained_quantities(*facts),
{
    let mut quantities: Vec<ExplainedQuantity> = Vec::new();
    if facts.labeled {
        let total: String = decimal_text(facts.total_loss as u64);
        let attempted: String = decimal_text(facts.attempted_cases as u64);
        quantities.push(
            ExplainedQuantity {
                name: copy_text("mean_loss"),
                equation: copy_text("mean_loss = total_loss / attempted_cases"),
                substituted: join(total.as_str(), " / ").concat(attempted.as_str()),
                value: facts.mean_loss,
            },
        );
        quantities.push(
            ExplainedQuantity {
                name: copy_text("mean_normalized_loss"),
                equation: copy_text("y_i = loss_i / 2; mean_normalized_loss = mean_loss / 2"),
                substituted: match &facts.mean_loss_text {
                    Some(mean) => join(mean.as_str(), " / 2"),
                    None => copy_text("no attempted case"),
                },
                value: facts.mean_normalized_loss,
            },
        );
    }
    assert(quantity_views(quantities@) =~= loss_quantities(*facts));
    match &facts.sample {
        Some(sample) => match &sample.design {
            Some(design) => {
                push_design_quantities(&mut quantities, design);
            },
            None => {},
        },
        None => {},
    }
    assert(quantity_views(quantities@) =~= explained_quantities(*facts));
    quantities
}

fn explain_assumptions(facts: &ReportFacts) -> (list: Vec<String>)
    ensures
        texts(list@) == explained_assumptions(*facts),
{
    let mut list: Vec<String> = Vec::new();
    assert(texts(list@) =~= Seq::empty());
    if facts.labeled {
        push_text(
            &mut list,
            copy_text(
                "Labels are independent judgments joined by case_id at their highest revision.",
            ),
        );
        push_text(
            &mut list,
            copy_text(
                "Loss follows evaluation_policy.v1: a correct suggestion or abstention 0, a false abstention 1, a wrong or needless suggestion or an operational failure 2.",
            ),
        );
        push_text(
            &mut list,
            copy_text(
                "Explicit requests are checked separately and unjudged cases carry no loss; neither enters the loss denominator.",
            ),
        );
    } else {
        push_text(
            &mut list,
            copy_text(
                "Recorded decisions are observations, not usefulness labels; replay supplies no loss.",
            ),
        );
    }
    match &facts.sample {
        Some(sample) => {
            push_text(
                &mut list,
                join(
                    "One representative per task family was selected (",
                    sample.representative_rule.as_str(),
                ).concat(" rule) and the manifest was frozen before labels were joined."),
            );
            match sample.status {
                DesignStatus::DiagnosticFixed => {},
                DesignStatus::StratifiedProbabilitySample => {
                    push_text(
                        &mut list,
                        copy_text(
                            "Selection is uniform without replacement within each stratum from a recorded OS-random seed.",
                        ),
                    );
                },
                DesignStatus::FullCensus => {
                    push_text(
                        &mut list,
                        copy_text(
                            "Every family in the frame was evaluated; stratum means are exact.",
                        ),
                    );
                },
            }
        },
        None => {
            if facts.labeled {
                push_text(
                    &mut list,
                    copy_text(
                        "The full supplied frame was evaluated; no sampling randomness is involved.",
                    ),
                );
            }
        },
    }
    assert(texts(list@) =~= explained_assumptions(*facts));
    list
}

fn explain_interpretation(facts: &ReportFacts) -> (list: Vec<String>)
    ensures
        texts(list@) == explained_interpretation(*facts),
{
    let mut list: Vec<String> = Vec::new();
    assert(texts(list@) =~= Seq::empty());
    match &facts.sample {
        Some(sample) => {
            if sample.status == DesignStatus::DiagnosticFixed {
                push_text(
                    &mut list,
                    copy_text(
                        "A supplied seed reproduces a selection; it supports no inclusion probabilities or design-based uncertainty.",
                    ),
                );
            }
            match &sample.design {
                Some(design) => {
                    if !design.point_estimate_guaranteed {
                        let missing: String = decimal_text(design.total_missing_labels as u64);
                        push_text(
                            &mut list,
                            join(
                                missing.as_str(),
                                " sampled cases lack a loss; read the design-weighted mean as the interval [",
                            ).concat(design.r_hat_lower.as_str()).concat(", ").concat(
                                design.r_hat_upper.as_str(),
                            ).concat("], not the observed point estimate."),
                        );
                    }
                },
                None => {},
            }
        },
        None => {},
    }
    if facts.cases_requested > facts.cases_completed {
        let unfinished: String = decimal_text(
            (facts.cases_requested - facts.cases_completed) as u64,
        );
        let requested: String = decimal_text(facts.cases_requested as u64);
        push_text(
            &mut list,
            join(unfinished.as_str(), " of ").concat(requested.as_str()).concat(
                " cases are not estimable; the run is partial and they are excluded from loss rather than counted as successes.",
            ),
        );
    }
    let gate: &str = match facts.gate_status {
        GateStatus::Passed => "The report's quality gate passed.",
        GateStatus::Failed => "The report's quality gate failed.",
        GateStatus::NotApplicable => "Synthetic evidence is not eligible for a quality gate.",
        GateStatus::NotEstablished =>
            "This report is evidence for a promotion review, not a passed quality gate.",
    };
    push_text(&mut list, copy_text(gate));
    assert(texts(list@) =~= explained_interpretation(*facts));
    list
}

/// Explain a report from its own quantities.
pub fn explain_report(facts: &ReportFacts) -> (explanation: ReportExplanation)
    ensures
        quantity_views(explanation.quantities@) == explained_quantities(*facts),
        texts(explanation.assumptions@) == explained_assumptions(*facts),
        texts(explanation.interpretation@) == explained_interpretation(*facts),
{
    ReportExplanation {
        quantities: explain_quantities(facts),
        assumptions: explain_assumptions(facts),
        interpretation: explain_interpretation(facts),
    }
}

} // verus!
