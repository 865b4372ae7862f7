//! Which terms a query holds: what is left out, what is kept, and in which
//! order the sources take their turns.
use crate::roster::retrieval::{
    alphanumeric, bounded, disjunction, disjunction_grows, is_compilation, rendering,
    rendering_is_bounded, smaller, term_views, without_last_word, word_removal_is_prefix,
    AnalyzedSources, ParserReading, QueryCompilation, QueryCompileError, SearchField, TermView,
};
use vstd::prelude::*;

verus! {

/// Does a term occur among these, under any spelling?
pub open spec fn occurs(terms: Seq<TermView>, normalized: Seq<char>) -> bool {
    exists|i: int| 0 <= i < terms.len() && (#[trigger] terms[i]).normalized == normalized
}

/// The terms without those that occurred before.
pub open spec fn first_occurrences(terms: Seq<TermView>) -> Seq<TermView>
    decreases terms.len(),
{
    if terms.len() == 0 {
        Seq::empty()
    } else {
        let before = first_occurrences(terms.drop_last());
        if occurs(terms.drop_last(), terms.last().normalized) {
            before
        } else {
            before.push(terms.last())
        }
    }
}

pub open spec fn normal_forms(terms: Seq<TermView>) -> Seq<Seq<char>> {
    terms.map_values(|t: TermView| t.normalized)
}

pub open spec fn spellings(terms: Seq<TermView>) -> Seq<Seq<char>> {
    terms.map_values(|t: TermView| t.source)
}

proof fn seen_terms_occurred(terms: Seq<TermView>, normalized: Seq<char>)
    ensures
        rendering(terms).seen.contains(normalized) <==> occurs(terms, normalized),
    decreases terms.len(),
{
    rendering_is_bounded(terms);
    if terms.len() > 0 {
        let rest = terms.drop_last();
        let before = rendering(rest);
        let state = rendering(terms);
        seen_terms_occurred(rest, normalized);
        if occurs(terms, normalized) {
            let i = choose|i: int|
                0 <= i < terms.len() && (#[trigger] terms[i]).normalized == normalized;
            assert(state.seen.contains(terms[i].normalized));
        }
        if state.seen.contains(normalized) {
            if before.seen.contains(normalized) {
                let i = choose|i: int|
                    0 <= i < rest.len() && (#[trigger] rest[i]).normalized == normalized;
                assert(terms[i] == rest[i]);
            } else {
                let k = state.seen.index_of(normalized);
                assert(k < before.seen.len() ==> before.seen[k] == normalized);
                assert(terms[terms.len() - 1].normalized == normalized);
            }
        }
    }
}

/// A term that occurred before changes nothing but the count of repetitions. A
/// new one is left out only where the query holds as many terms as it may, or
/// would be too long with it; otherwise the query holds it, last.
pub proof fn terms_are_left_out_only_at_a_limit(terms: Seq<TermView>, term: TermView)
    ensures
        ({
            let before = rendering(terms);
            let after = rendering(terms.push(term));
            let fits = before.expected.len() < 128 && disjunction(
                before.parts.push(term.source),
            ).len() <= 4096;
            &&& occurs(terms, term.normalized) ==> {
                &&& after.expected == before.expected
                &&& after.parts == before.parts
                &&& after.duplicates == before.duplicates + 1
                &&& after.omitted == before.omitted
            }
            &&& !occurs(terms, term.normalized) && fits ==> {
                &&& after.expected == before.expected.push(term.normalized)
                &&& after.parts == before.parts.push(term.source)
                &&& after.duplicates == before.duplicates
                &&& after.omitted == before.omitted
            }
            &&& !occurs(terms, term.normalized) && !fits ==> {
                &&& after.expected == before.expected
                &&& after.parts == before.parts
                &&& after.duplicates == before.duplicates
                &&& after.omitted == before.omitted + 1
            }
            &&& after.term_limit_reached <==> before.term_limit_reached || (!occurs(
                terms,
                term.normalized,
            ) && before.expected.len() == 128)
            &&& after.scalar_limit_reached <==> before.scalar_limit_reached || (!occurs(
                terms,
                term.normalized,
            ) && before.expected.len() < 128 && !fits)
        }),
{
    let more = terms.push(term);
    assert(more.drop_last() =~= terms);
    assert(more.last() == term);
    seen_terms_occurred(terms, term.normalized);
    rendering_is_bounded(terms);
}

/// Nothing is left out, and nothing held, of no terms.
pub proof fn no_terms_render_nothing(terms: Seq<TermView>)
    requires
        terms.len() == 0,
    ensures
        rendering(terms).expected.len() == 0,
        rendering(terms).parts.len() == 0,
        rendering(terms).omitted == 0,
        rendering(terms).duplicates == 0,
        !rendering(terms).term_limit_reached,
        !rendering(terms).scalar_limit_reached,
{
}

proof fn what_fits_is_rendered(terms: Seq<TermView>)
    requires
        first_occurrences(terms).len() <= 128,
        disjunction(spellings(first_occurrences(terms))).len() <= 4096,
    ensures
        rendering(terms).expected == normal_forms(first_occurrences(terms)),
        rendering(terms).parts == spellings(first_occurrences(terms)),
        rendering(terms).omitted == 0,
        rendering(terms).duplicates + first_occurrences(terms).len() == terms.len(),
        !rendering(terms).term_limit_reached,
        !rendering(terms).scalar_limit_reached,
    decreases terms.len(),
{
    if terms.len() == 0 {
        assert(rendering(terms).expected =~= normal_forms(first_occurrences(terms)));
        assert(rendering(terms).parts =~= spellings(first_occurrences(terms)));
    } else {
        let rest = terms.drop_last();
        let last = terms.last();
        let before = first_occurrences(rest);
        assert(terms =~= rest.push(last));
        terms_are_left_out_only_at_a_limit(rest, last);
        if !occurs(rest, last.normalized) {
            assert(first_occurrences(terms) == before.push(last));
            assert(spellings(before.push(last)) =~= spellings(before).push(last.source));
            assert(normal_forms(before.push(last)) =~= normal_forms(before).push(last.normalized));
            disjunction_grows(spellings(before), last.source);
        }
        what_fits_is_rendered(rest);
    }
}

proof fn every_term_has_a_first_occurrence(terms: Seq<TermView>, i: int)
    requires
        0 <= i < terms.len(),
    ensures
        normal_forms(first_occurrences(terms)).contains(terms[i].normalized),
    decreases terms.len(),
{
    let rest = terms.drop_last();
    let firsts = normal_forms(first_occurrences(terms));
    if occurs(rest, terms[i].normalized) {
        let j = choose|j: int|
            0 <= j < rest.len() && (#[trigger] rest[j]).normalized == terms[i].normalized;
        every_term_has_a_first_occurrence(rest, j);
        let before = normal_forms(first_occurrences(rest));
        let k = before.index_of(terms[i].normalized);
        assert(firsts[k] == before[k]);
    } else {
        assert(i < rest.len() ==> rest[i].normalized == terms[i].normalized);
        assert(i == terms.len() - 1);
        assert(firsts[firsts.len() - 1] == terms[i].normalized);
    }
}

/// Where the distinct terms fit the query's limits together, none is left out:
/// the query holds each once, as it was first spelled, in the order in which
/// they first occurred.
pub proof fn terms_that_fit_are_all_held(terms: Seq<TermView>)
    requires
        first_occurrences(terms).len() <= 128,
        disjunction(spellings(first_occurrences(terms))).len() <= 4096,
    ensures
        rendering(terms).omitted == 0,
        rendering(terms).expected == normal_forms(first_occurrences(terms)),
        rendering(terms).parts == spellings(first_occurrences(terms)),
        forall|i: int|
            0 <= i < terms.len() ==> rendering(terms).expected.contains(
                (#[trigger] terms[i]).normalized,
            ),
        rendering(terms).duplicates + first_occurrences(terms).len() == terms.len(),
{
    what_fits_is_rendered(terms);
    assert forall|i: int| 0 <= i < terms.len() implies rendering(terms).expected.contains(
        (#[trigger] terms[i]).normalized,
    ) by {
        every_term_has_a_first_occurrence(terms, i);
    }
}

/// Every term of a query is one of the source's, with that term's own spelling.
pub proof fn queries_hold_given_terms(terms: Seq<TermView>, k: int)
    requires
        0 <= k < rendering(terms).expected.len(),
    ensures
        exists|i: int|
            0 <= i < terms.len() && (#[trigger] terms[i]).normalized == rendering(terms).expected[k]
                && terms[i].source == rendering(terms).parts[k],
    decreases terms.len(),
{
    rendering_is_bounded(terms);
    let rest = terms.drop_last();
    rendering_is_bounded(rest);
    if k < rendering(rest).expected.len() {
        queries_hold_given_terms(rest, k);
        let i = choose|i: int|
            0 <= i < rest.len() && (#[trigger] rest[i]).normalized == rendering(rest).expected[k]
                && rest[i].source == rendering(rest).parts[k];
        assert(terms[i] == rest[i]);
    } else {
        assert(terms[terms.len() - 1].normalized == rendering(terms).expected[k]);
    }
}

proof fn rounds_begin_alike(sources: AnalyzedSources, few: nat, many: nat)
    requires
        few <= many,
    ensures
        sources.interleaved(few).len() <= sources.interleaved(many).len(),
        forall|i: int|
            0 <= i < sources.interleaved(few).len() ==> #[trigger] sources.interleaved(many)[i]
                == sources.interleaved(few)[i],
    decreases many,
{
    if few < many {
        rounds_begin_alike(sources, few, (many - 1) as nat);
    }
}

/// The sources take turns: every term of every source comes, those of one
/// source in their order, and the turn of each round follows whatever the
/// rounds before it took. The request's term leads a round, and the errors'
/// ends it.
pub proof fn sources_take_turns(sources: AnalyzedSources, round: nat)
    ensures
        ({
            let request = term_views(sources.latest_request@);
            let task = term_views(sources.active_task@);
            let errors = term_views(sources.recent_errors@);
            let all = sources.interleaved(sources.rounds());
            let start = smaller(round, request.len()) + smaller(round, task.len()) + smaller(
                round,
                errors.len(),
            );
            let second = start + (if round < request.len() {
                1int
            } else {
                0
            });
            let third = second + (if round < task.len() {
                1int
            } else {
                0
            });
            &&& all.len() == request.len() + task.len() + errors.len()
            &&& round < request.len() ==> start < all.len() && all[start as int]
                == request[round as int]
            &&& round < task.len() ==> second < all.len() && all[second] == task[round as int]
            &&& round < errors.len() ==> third < all.len() && all[third] == errors[round as int]
        }),
{
    sources.rounds_are_bounded(sources.rounds());
    if round < sources.rounds() {
        sources.rounds_are_bounded(round);
        sources.rounds_are_bounded(round + 1);
        rounds_begin_alike(sources, round + 1, sources.rounds());
        assert(sources.interleaved(round + 1).len() <= sources.interleaved(sources.rounds()).len());
    }
}

/// A compiled query whose distinct terms fit the limits holds them all, and its
/// diagnostics say so.
pub proof fn compiled_queries_hold_what_fits(
    r: Result<QueryCompilation, QueryCompileError>,
    sources: AnalyzedSources,
    reading: ParserReading,
)
    requires
        is_compilation(
            r,
            sources,
            rendering(sources.interleaved(sources.rounds())),
            reading,
        ),
        sources.token_count() > 0,
        r is Ok,
        ({
            let firsts = first_occurrences(sources.interleaved(sources.rounds()));
            firsts.len() <= 128 && disjunction(spellings(firsts)).len() <= 4096
        }),
    ensures
        ({
            let firsts = first_occurrences(sources.interleaved(sources.rounds()));
            let compilation = r->Ok_0;
            &&& compilation.query is Some
            &&& compilation.query->0.text() == disjunction(spellings(firsts))
            &&& compilation.diagnostics.omitted_terms == 0
            &&& compilation.diagnostics.emitted_terms == firsts.len()
            &&& compilation.diagnostics.duplicate_terms + firsts.len() == sources.token_count()
            &&& compilation.diagnostics.analyzed_tokens == sources.token_count()
            &&& !compilation.diagnostics.term_limit_reached
            &&& !compilation.diagnostics.scalar_limit_reached
            &&& compilation.diagnostics.query_scalars == compilation.query->0.text().len()
        }),
{
    let terms = sources.interleaved(sources.rounds());
    terms_that_fit_are_all_held(terms);
    what_fits_is_rendered(terms);
    sources_take_turns(sources, 0);
    assert(terms.len() == sources.token_count());
    assert(rendering(terms).expected.contains(terms[0].normalized));
}

/// A compiled query was read as a disjunction that searches each of its terms
/// in the content and in the title, and searches nothing else.
pub proof fn compiled_queries_keep_their_meaning(
    r: Result<QueryCompilation, QueryCompileError>,
    sources: AnalyzedSources,
    reading: ParserReading,
)
    requires
        is_compilation(
            r,
            sources,
            rendering(sources.interleaved(sources.rounds())),
            reading,
        ),
        r is Ok,
        r->Ok_0.query is Some,
    ensures
        ({
            let expected = rendering(sources.interleaved(sources.rounds())).expected;
            &&& reading is Parsed
            &&& reading->diagnostic_count == 0
            &&& !reading->was_truncated
            &&& forall|i: int|
                0 <= i < expected.len() ==> reading->query.leaves().contains(
                    (#[trigger] expected[i], SearchField::Content),
                ) && reading->query.leaves().contains((expected[i], SearchField::Title))
            &&& forall|i: int|
                0 <= i < reading->query.leaves().len() ==> expected.contains(
                    (#[trigger] reading->query.leaves()[i]).0,
                )
        }),
{
}

proof fn only_letters_are_dropped(text: Seq<char>)
    ensures
        forall|i: int|
            without_last_word(text).len() <= i < text.len() ==> alphanumeric(#[trigger] text[i]),
    decreases text.len(),
{
    if text.len() > 0 && alphanumeric(text.last()) {
        only_letters_are_dropped(text.drop_last());
        assert forall|i: int| without_last_word(text).len() <= i < text.len() implies alphanumeric(
            #[trigger] text[i],
        ) by {
            assert(i < text.len() - 1 ==> text.drop_last()[i] == text[i]);
        }
    }
}

/// A source that is cut loses no more than the word that the limit falls into:
/// up to the limit, whatever is dropped is letters and numbers, and where the
/// limit falls between words nothing up to it is dropped.
pub proof fn cuts_drop_no_more_than_a_word(source: Seq<char>)
    requires
        source.len() > 4096,
    ensures
        bounded(source).len() <= 4096,
        !alphanumeric(source[4096]) ==> bounded(source).len() == 4096,
        forall|i: int|
            bounded(source).len() <= i < 4096 ==> alphanumeric(#[trigger] source[i]),
{
    let cut = source.take(4096);
    only_letters_are_dropped(cut);
    word_removal_is_prefix(cut);
    assert forall|i: int| bounded(source).len() <= i < 4096 implies alphanumeric(
        #[trigger] source[i],
    ) by {
        assert(cut[i] == source[i]);
    }
}

} // verus!
