//! Bounded disclosure of locally resolved session evidence. This makes prose
//! for the provider only: local exclusions and loaded facts stay as they are.
use super::{CategoryReceipt, RenderBound, RenderContextError, SourceCategory};
use crate::text::{byte_len, byte_length, texts};
use vstd::prelude::*;

verus! {

/// Maximum characters of the session state, apart from the history budget.
pub const SESSION_STATE_SCALARS: usize = 4096;

pub const SESSION_REFERENCE_SUMMARY_SCALARS: usize = 700;

pub const SESSION_REFERENCE_RECORDS: usize = 32;

/// A skill that the session has loaded.
#[derive(Clone, Debug)]
pub struct LoadedReference {
    pub name: String,
    pub summary: String,
}

/// A field after redaction.
#[derive(Clone, Debug)]
pub struct RedactedField {
    pub text: String,
    pub redactions: usize,
}

/// The bytes of the first `n` texts.
pub open spec fn text_bytes(list: Seq<Seq<char>>, n: int) -> nat
    decreases n,
{
    if n <= 0 || n > list.len() {
        0
    } else {
        text_bytes(list, n - 1) + byte_length(list[n - 1])
    }
}

/// The bytes of the first `n` references.
pub open spec fn reference_bytes(list: Seq<LoadedReference>, n: int) -> nat
    decreases n,
{
    if n <= 0 || n > list.len() {
        0
    } else {
        reference_bytes(list, n - 1) + byte_length(list[n - 1].name@) + byte_length(
            list[n - 1].summary@,
        )
    }
}

/// Does the session state stay within its input bounds?
pub open spec fn fits_input(
    loaded_state: Seq<char>,
    exclusions: Seq<Seq<char>>,
    references: Seq<LoadedReference>,
    max_records: nat,
    max_bytes: nat,
) -> bool {
    &&& references.len() + exclusions.len() <= max_records
    &&& byte_length(loaded_state) + text_bytes(exclusions, exclusions.len() as int)
        + reference_bytes(references, references.len() as int) <= max_bytes
}

proof fn text_bytes_grow(list: Seq<Seq<char>>, n: int, m: int)
    requires
        0 <= n <= m <= list.len(),
    ensures
        text_bytes(list, n) <= text_bytes(list, m),
    decreases m - n,
{
    if n < m {
        text_bytes_grow(list, n, m - 1);
    }
}

proof fn reference_bytes_grow(list: Seq<LoadedReference>, n: int, m: int)
    requires
        0 <= n <= m <= list.len(),
    ensures
        reference_bytes(list, n) <= reference_bytes(list, m),
    decreases m - n,
{
    if n < m {
        reference_bytes_grow(list, n, m - 1);
    }
}

/// Check the lengths before any body is copied, sanitized or redacted.
pub fn check_input(
    loaded_state: &str,
    exclusions: &Vec<String>,
    references: &Vec<LoadedReference>,
    max_records: usize,
    max_bytes: usize,
) -> (r: Result<(), RenderContextError>)
    ensures
        match r {
            Ok(_) => fits_input(
                loaded_state@,
                texts(exclusions@),
                references@,
                max_records as nat,
                max_bytes as nat,
            ),
            Err(error) => error == RenderContextError::UnsupportedContext(RenderBound::SessionState)
                && !fits_input(
                loaded_state@,
                texts(exclusions@),
                references@,
                max_records as nat,
                max_bytes as nat,
            ),
        },
{
    let ghost names = texts(exclusions@);
    assert(names.len() == exclusions@.len());
    if references.len() > max_records || exclusions.len() > max_records - references.len() {
        return Err(RenderContextError::UnsupportedContext(RenderBound::SessionState));
    }
    let mut total: usize = byte_len(loaded_state);
    if total > max_bytes {
        return Err(RenderContextError::UnsupportedContext(RenderBound::SessionState));
    }
    let mut i: usize = 0;
    while i < exclusions.len()
        invariant
            i <= exclusions@.len(),
            names == texts(exclusions@),
            names.len() == exclusions@.len(),
            total == byte_length(loaded_state@) + text_bytes(names, i as int),
            total <= max_bytes,
        decreases exclusions@.len() - i,
    {
        assert(names[i as int] == exclusions@[i as int]@);
        let added: usize = byte_len(exclusions[i].as_str());
        if added > max_bytes - total {
            proof {
                text_bytes_grow(names, i + 1, names.len() as int);
            }
            return Err(RenderContextError::UnsupportedContext(RenderBound::SessionState));
        }
        total += added;
        i += 1;
    }
    let ghost start = total;
    let mut k: usize = 0;
    while k < references.len()
        invariant
            k <= references@.len(),
            start == byte_length(loaded_state@) + text_bytes(names, names.len() as int),
            names == texts(exclusions@),
            total == start + reference_bytes(references@, k as int),
            total <= max_bytes,
        decreases references@.len() - k,
    {
        proof {
            reference_bytes_grow(references@, k + 1, references@.len() as int);
        }
        let name: usize = byte_len(references[k].name.as_str());
        if name > max_bytes - total {
            return Err(RenderContextError::UnsupportedContext(RenderBound::SessionState));
        }
        total += name;
        let summary: usize = byte_len(references[k].summary.as_str());
        if summary > max_bytes - total {
            return Err(RenderContextError::UnsupportedContext(RenderBound::SessionState));
        }
        total += summary;
        k += 1;
    }
    Ok(())
}

/// The characters of the first `n` texts.
pub open spec fn scalars(list: Seq<Seq<char>>, n: int) -> nat
    decreases n,
{
    if n <= 0 || n > list.len() {
        0
    } else {
        scalars(list, n - 1) + list[n - 1].len()
    }
}

proof fn scalars_push(list: Seq<Seq<char>>, text: Seq<char>, n: int)
    requires
        0 <= n <= list.len(),
    ensures
        scalars(list.push(text), n) == scalars(list, n),
    decreases n,
{
    if n > 0 {
        scalars_push(list, text, n - 1);
    }
}

/// Session evidence while it is being disclosed. The evidence state and the
/// exclusions are mandatory and stay whole; references use what remains.
#[derive(Debug)]
pub struct SessionDisclosure {
    loaded_state: String,
    exclusions: Vec<String>,
    names: Vec<String>,
    summaries: Vec<String>,
    remaining: usize,
    redactions: usize,
    truncated: usize,
}

/// Disclosed session evidence as characters.
pub struct DisclosureView {
    pub loaded_state: Seq<char>,
    pub exclusions: Seq<Seq<char>>,
    pub names: Seq<Seq<char>>,
    pub summaries: Seq<Seq<char>>,
    pub redactions: nat,
    pub truncated: nat,
}

impl DisclosureView {
    /// The characters disclosed so far.
    pub open spec fn used(self) -> nat {
        self.loaded_state.len() + scalars(self.exclusions, self.exclusions.len() as int) + scalars(
            self.names,
            self.names.len() as int,
        ) + scalars(self.summaries, self.summaries.len() as int)
    }

    pub open spec fn remaining(self) -> int {
        SESSION_STATE_SCALARS - self.used()
    }

    /// May another reference be looked at?
    pub open spec fn has_room(self) -> bool {
        self.names.len() < SESSION_REFERENCE_RECORDS && self.remaining() > 0
    }

    /// A name is disclosed whole or not at all.
    pub open spec fn takes_name(self, name: Seq<char>) -> bool {
        self.has_room() && 0 < name.len() <= self.remaining()
    }

    /// The characters that the summary of this name may have.
    pub open spec fn allowance(self, name: Seq<char>) -> int {
        let left = self.remaining() - name.len();
        if left < SESSION_REFERENCE_SUMMARY_SCALARS {
            left
        } else {
            SESSION_REFERENCE_SUMMARY_SCALARS as int
        }
    }

    /// With one more exclusion.
    pub open spec fn with_exclusion(self, text: Seq<char>, redactions: nat) -> DisclosureView {
        DisclosureView {
            exclusions: self.exclusions.push(text),
            redactions: self.redactions + redactions,
            ..self
        }
    }

    /// With one more reference, its summary cut to the excerpt where it is
    /// longer than the allowance.
    pub open spec fn with_reference(
        self,
        name: Seq<char>,
        summary: Seq<char>,
        excerpt: Seq<char>,
        redactions: nat,
    ) -> DisclosureView {
        let cut = summary.len() > self.allowance(name);
        DisclosureView {
            names: self.names.push(name),
            summaries: self.summaries.push(
                if cut {
                    excerpt
                } else {
                    summary
                },
            ),
            redactions: self.redactions + redactions,
            truncated: self.truncated + (if cut {
                1nat
            } else {
                0
            }),
            ..self
        }
    }
}

impl View for SessionDisclosure {
    type V = DisclosureView;

    closed spec fn view(&self) -> DisclosureView {
        DisclosureView {
            loaded_state: self.loaded_state@,
            exclusions: texts(self.exclusions@),
            names: texts(self.names@),
            summaries: texts(self.summaries@),
            redactions: self.redactions as nat,
            truncated: self.truncated as nat,
        }
    }
}

impl SessionDisclosure {
    /// No more is disclosed than the session allowance.
    pub closed spec fn inv(self) -> bool {
        &&& self.remaining == self@.remaining()
        &&& self@.names.len() == self@.summaries.len()
        &&& self@.names.len() <= SESSION_REFERENCE_RECORDS
        &&& self@.truncated <= self@.names.len()
    }

    /// Start with the evidence state.
    pub fn start(loaded_state: RedactedField) -> (r: Result<SessionDisclosure, RenderContextError>)
        ensures
            match r {
                Ok(d) => loaded_state.text@.len() <= SESSION_STATE_SCALARS && d.inv() && d@ == (
                DisclosureView {
                    loaded_state: loaded_state.text@,
                    exclusions: Seq::empty(),
                    names: Seq::empty(),
                    summaries: Seq::empty(),
                    redactions: loaded_state.redactions as nat,
                    truncated: 0,
                }),
                Err(error) => loaded_state.text@.len() > SESSION_STATE_SCALARS && error
                    == RenderContextError::UnsupportedContext(RenderBound::SessionConstraints),
            },
    {
        let size: usize = loaded_state.text.as_str().unicode_len();
        if size > SESSION_STATE_SCALARS {
            return Err(RenderContextError::UnsupportedContext(RenderBound::SessionConstraints));
        }
        let d = SessionDisclosure {
            loaded_state: loaded_state.text,
            exclusions: Vec::new(),
            names: Vec::new(),
            summaries: Vec::new(),
            remaining: SESSION_STATE_SCALARS - size,
            redactions: loaded_state.redactions,
            truncated: 0,
        };
        assert(d@.exclusions =~= Seq::empty());
        assert(d@.names =~= Seq::empty());
        assert(d@.summaries =~= Seq::empty());
        Ok(d)
    }

    /// Disclose an exclusion. All of them must fit.
    pub fn add_exclusion(&mut self, exclusion: RedactedField) -> (r: Result<(), RenderContextError>)
        requires
            old(self).inv(),
            old(self)@.redactions + exclusion.redactions <= usize::MAX,
        ensures
            final(self).inv(),
            match r {
                Ok(_) => exclusion.text@.len() <= old(self)@.remaining() && final(self)@ == old(
                    self,
                )@.with_exclusion(exclusion.text@, exclusion.redactions as nat),
                Err(error) => exclusion.text@.len() > old(self)@.remaining() && error
                    == RenderContextError::UnsupportedContext(RenderBound::SessionConstraints)
                    && final(self)@ == old(self)@,
            },
    {
        let ghost before = self@;
        let size: usize = exclusion.text.as_str().unicode_len();
        if size > self.remaining {
            return Err(RenderContextError::UnsupportedContext(RenderBound::SessionConstraints));
        }
        let ghost text = exclusion.text@;
        self.remaining = self.remaining - size;
        self.redactions = self.redactions + exclusion.redactions;
        self.exclusions.push(exclusion.text);
        proof {
            assert(self@.exclusions =~= before.exclusions.push(text));
            scalars_push(before.exclusions, text, before.exclusions.len() as int);
        }
        Ok(())
    }

    /// Is there room for another reference?
    pub fn has_room(&self) -> (r: bool)
        requires
            self.inv(),
        ensures
            r == self@.has_room(),
    {
        self.names.len() < SESSION_REFERENCE_RECORDS && self.remaining > 0
    }

    /// Look at the name of a reference. Where it is disclosed, the answer is
    /// the allowance of its summary.
    pub fn offer_name(&mut self, name: &RedactedField) -> (r: Option<usize>)
        requires
            old(self).inv(),
            old(self)@.redactions + name.redactions <= usize::MAX,
        ensures
            final(self).inv(),
            final(self)@ == (DisclosureView {
                redactions: old(self)@.redactions + name.redactions as nat,
                ..old(self)@
            }),
            match r {
                Some(allowance) => old(self)@.takes_name(name.text@) && allowance == old(
                    self,
                )@.allowance(name.text@),
                None => !old(self)@.takes_name(name.text@),
            },
    {
        self.redactions = self.redactions + name.redactions;
        let size: usize = name.text.as_str().unicode_len();
        if self.names.len() == SESSION_REFERENCE_RECORDS || size == 0 || size > self.remaining {
            return None;
        }
        let left: usize = self.remaining - size;
        if left < SESSION_REFERENCE_SUMMARY_SCALARS {
            Some(left)
        } else {
            Some(SESSION_REFERENCE_SUMMARY_SCALARS)
        }
    }

    /// Disclose a reference whose name was taken. The excerpt stands for a
    /// summary that is longer than the allowance.
    pub fn add_reference(&mut self, name: String, summary: RedactedField, excerpt: String)
        requires
            old(self).inv(),
            old(self)@.takes_name(name@),
            excerpt@.len() <= old(self)@.allowance(name@),
            old(self)@.redactions + summary.redactions <= usize::MAX,
        ensures
            final(self).inv(),
            final(self)@ == old(self)@.with_reference(
                name@,
                summary.text@,
                excerpt@,
                summary.redactions as nat,
            ),
    {
        let ghost before = self@;
        let ghost named = name@;
        let size: usize = name.as_str().unicode_len();
        let left: usize = self.remaining - size;
        let allowance: usize = if left < SESSION_REFERENCE_SUMMARY_SCALARS {
            left
        } else {
            SESSION_REFERENCE_SUMMARY_SCALARS
        };
        let cut: bool = summary.text.as_str().unicode_len() > allowance;
        let disclosed: String = if cut {
            excerpt
        } else {
            summary.text
        };
        let ghost shown = disclosed@;
        self.remaining = left - disclosed.as_str().unicode_len();
        self.redactions = self.redactions + summary.redactions;
        if cut {
            self.truncated = self.truncated + 1;
        }
        self.names.push(name);
        self.summaries.push(disclosed);
        proof {
            assert(self@.names =~= before.names.push(named));
            assert(self@.summaries =~= before.summaries.push(shown));
            scalars_push(before.names, named, before.names.len() as int);
            scalars_push(before.summaries, shown, before.summaries.len() as int);
        }
    }

    /// The receipt, of as many references as were offered.
    pub fn receipt(&self, offered: usize) -> (receipt: CategoryReceipt)
        requires
            self.inv(),
            self@.names.len() <= offered,
            self@.names.len() + self@.exclusions.len() <= usize::MAX,
        ensures
            receipt == (CategoryReceipt {
                category: SourceCategory::SessionState,
                included_count: (self@.names.len() + self@.exclusions.len()) as usize,
                omitted_count: (offered - self@.names.len()) as usize,
                truncated_count: self@.truncated as usize,
                redaction_count: self@.redactions as usize,
            }),
    {
        CategoryReceipt {
            category: SourceCategory::SessionState,
            included_count: self.names.len() + self.exclusions.len(),
            omitted_count: offered - self.names.len(),
            truncated_count: self.truncated,
            redaction_count: self.redactions,
        }
    }

    pub fn loaded_state(&self) -> (text: &str)
        ensures
            text@ == self@.loaded_state,
    {
        self.loaded_state.as_str()
    }

    pub fn exclusions(&self) -> (list: &Vec<String>)
        ensures
            texts(list@) == self@.exclusions,
    {
        &self.exclusions
    }

    pub fn reference_names(&self) -> (list: &Vec<String>)
        ensures
            texts(list@) == self@.names,
    {
        &self.names
    }

    pub fn reference_summaries(&self) -> (list: &Vec<String>)
        ensures
            texts(list@) == self@.summaries,
    {
        &self.summaries
    }
}

/// However long session evidence grows, what is disclosed of it stays within
/// the allowance, with each summary within its own.
pub proof fn disclosure_is_bounded(
    d: SessionDisclosure,
    name: Seq<char>,
    summary: Seq<char>,
    excerpt: Seq<char>,
    redactions: nat,
)
    requires
        d.inv(),
        d@.takes_name(name),
        excerpt.len() <= d@.allowance(name),
    ensures
        d@.used() <= SESSION_STATE_SCALARS,
        d@.with_reference(name, summary, excerpt, redactions).used() <= SESSION_STATE_SCALARS,
        d@.with_reference(name, summary, excerpt, redactions).summaries.last().len()
            <= SESSION_REFERENCE_SUMMARY_SCALARS,
{
    let shown = if summary.len() > d@.allowance(name) {
        excerpt
    } else {
        summary
    };
    scalars_push(d@.names, name, d@.names.len() as int);
    scalars_push(d@.summaries, shown, d@.summaries.len() as int);
}

} // verus!
