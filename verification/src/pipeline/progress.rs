//! What a ranking has established so far, stage by stage. Only stages that ran
//! leave estimates and model identities behind.
use crate::pipeline::document::Evaluated;
use crate::pipeline::publication::{dominant_phase, is_dominant, PhaseShare};
use crate::score::Score;
use crate::text::{copy_text, optional_text};
use vstd::prelude::*;

verus! {

impl Evaluated {
    /// The wide candidate set is committed to a request.
    pub fn commit_wide(
        &mut self,
        eligible: usize,
        wide: usize,
        quill: bool,
        set_id: &str,
        model: &str,
    )
        ensures
            optional_text(final(self).wide_set_id) == Some(set_id@),
            optional_text(final(self).requested_model) == Some(model@),
            *final(self) == (Evaluated {
                eligible,
                wide,
                quill,
                wide_set_id: final(self).wide_set_id,
                requested_model: final(self).requested_model,
                ..*old(self)
            }),
    {
        self.eligible = eligible;
        self.wide = wide;
        self.quill = quill;
        self.wide_set_id = Some(copy_text(set_id));
        self.requested_model = Some(copy_text(model));
    }

    /// The wide answer was evaluated.
    pub fn record_wide(
        &mut self,
        returned_model: &str,
        needs_skill: Score,
        phases: &Vec<PhaseShare>,
    )
        ensures
            optional_text(final(self).wide_returned) == Some(returned_model@),
            match final(self).phase {
                Some(name) => exists|k: int| #[trigger]
                    is_dominant(phases@, k) && phases@[k].name@ == name@,
                None => phases@.len() == 0,
            },
            *final(self) == (Evaluated {
                wide_returned: final(self).wide_returned,
                needs_skill: Some(needs_skill),
                phase: final(self).phase,
                ..*old(self)
            }),
    {
        self.wide_returned = Some(copy_text(returned_model));
        self.needs_skill = Some(needs_skill);
        self.phase = dominant_phase(phases);
    }

    /// The shortlist is committed to a request.
    pub fn commit_rerank(&mut self, shortlist: usize, set_id: &str)
        ensures
            optional_text(final(self).rerank_set_id) == Some(set_id@),
            *final(self) == (Evaluated {
                shortlist,
                rerank_set_id: final(self).rerank_set_id,
                ..*old(self)
            }),
    {
        self.shortlist = shortlist;
        self.rerank_set_id = Some(copy_text(set_id));
    }

    /// The rerank answer was evaluated.
    pub fn record_rerank(
        &mut self,
        returned_model: &str,
        choice_confidence: Score,
        none_probability: Score,
    )
        ensures
            optional_text(final(self).rerank_returned) == Some(returned_model@),
            *final(self) == (Evaluated {
                rerank_returned: final(self).rerank_returned,
                choice_confidence: Some(choice_confidence),
                none_probability: Some(none_probability),
                ..*old(self)
            }),
    {
        self.rerank_returned = Some(copy_text(returned_model));
        self.choice_confidence = Some(choice_confidence);
        self.none_probability = Some(none_probability);
    }
}

} // verus!
