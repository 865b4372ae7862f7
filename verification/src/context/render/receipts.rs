//! What a disclosure receipt adds up to, and what a session discloses.
use crate::context::render::session::{
    fits_input, reference_bytes, scalars, text_bytes, DisclosureView, LoadedReference,
};
use crate::context::render::{
    accounts, messages_in, omission, omitted_below, tools_in, without_request, CategoryCounts,
    CategoryReceipt, DisclosureReceipt, SourceCategory,
};
use crate::context::{EventKind, EventView, NormalizedContext, Role};
use crate::text::byte_length;
use vstd::prelude::*;

verus! {

/// Every event counts at most once: what a user, an assistant or a system says
/// as a message, what a tool says, calls or answers as a tool event.
pub proof fn events_count_once(events: Seq<EventView>, e: EventView)
    ensures
        messages_in(Seq::empty()) == 0,
        tools_in(Seq::empty()) == 0,
        messages_in(events.push(e)) == messages_in(events) + (if e.kind == EventKind::Message
            && e.role != Role::Tool {
            1nat
        } else {
            0
        }),
        tools_in(events.push(e)) == tools_in(events) + (if e.kind == EventKind::ToolInvocation
            || e.kind == EventKind::ToolResult || (e.kind == EventKind::Message && e.role
            == Role::Tool) {
            1nat
        } else {
            0
        }),
{
    reveal(Seq::filter);
    assert(events.push(e).drop_last() =~= events);
}

/// What is shown and what is omitted make up the whole, wherever no more is
/// shown than there is.
pub proof fn omissions_make_up_the_whole(context: NormalizedContext, shown: Seq<EventView>)
    requires
        messages_in(shown) <= messages_in(without_request(context)) <= usize::MAX,
        tools_in(shown) <= tools_in(without_request(context)) <= usize::MAX,
    ensures
        omission(context, shown).messages + messages_in(shown) == messages_in(
            without_request(context),
        ),
        omission(context, shown).tools + tools_in(shown) == tools_in(without_request(context)),
{
}

/// The omissions of a receipt's categories together.
pub open spec fn omitted_together(categories: Seq<CategoryReceipt>) -> nat
    decreases categories.len(),
{
    if categories.len() == 0 {
        0
    } else {
        omitted_together(categories.drop_last()) + categories.last().omitted_count as nat
    }
}

proof fn omissions_below(
    after: Seq<CategoryReceipt>,
    before: Seq<CategoryReceipt>,
    omitted: CategoryCounts,
    n: int,
)
    requires
        after.len() == before.len(),
        0 <= n <= after.len(),
        omitted_below(before, omitted, before.len() as int) <= usize::MAX,
        forall|i: int|
            0 <= i < before.len() ==> (#[trigger] after[i]).omitted_count == (
            before[i].omitted_count + crate::context::render::extra_omissions(
                before[i].category,
                omitted,
            )) as usize,
    ensures
        omitted_together(after.take(n)) == omitted_below(before, omitted, n),
    decreases n,
{
    if n > 0 {
        omissions_below(after, before, omitted, n - 1);
        below_grows(before, omitted, n, before.len() as int);
        assert(after.take(n).drop_last() =~= after.take(n - 1));
        assert(after.take(n).last() == after[n - 1]);
    } else {
        assert(after.take(0).len() == 0);
    }
}

proof fn below_grows(before: Seq<CategoryReceipt>, omitted: CategoryCounts, n: int, m: int)
    requires
        0 <= n <= m <= before.len(),
    ensures
        omitted_below(before, omitted, n) <= omitted_below(before, omitted, m),
    decreases m - n,
{
    if n < m {
        below_grows(before, omitted, n, m - 1);
    }
}

/// The total of a receipt is the sum of what its categories omit. Omitted
/// messages count in the message history, omitted tool events in the tool
/// events, and every other number of a category stays as it was.
pub proof fn receipts_add_up(
    receipt: DisclosureReceipt,
    before: DisclosureReceipt,
    omitted: CategoryCounts,
)
    requires
        accounts(receipt, before, omitted),
        omitted_below(before.categories@, omitted, before.categories@.len() as int) <= usize::MAX,
    ensures
        receipt.total_omitted == omitted_together(receipt.categories@),
        receipt.categories@.len() == before.categories@.len(),
        forall|i: int|
            #![trigger receipt.categories@[i]]
            0 <= i < before.categories@.len() ==> {
                let then = before.categories@[i];
                let now = receipt.categories@[i];
                &&& now.category == then.category
                &&& now.included_count == then.included_count
                &&& now.truncated_count == then.truncated_count
                &&& now.redaction_count == then.redaction_count
                &&& now.omitted_count == then.omitted_count + (if now.category
                    == SourceCategory::MessageHistory {
                    omitted.messages as int
                } else if now.category == SourceCategory::ToolEvents {
                    omitted.tools as int
                } else {
                    0
                })
            },
{
    let all = receipt.categories@;
    omissions_below(all, before.categories@, omitted, all.len() as int);
    assert(all.take(all.len() as int) =~= all);
    assert forall|i: int|
        #![trigger receipt.categories@[i]]
        0 <= i < before.categories@.len() implies receipt.categories@[i].omitted_count
        == before.categories@[i].omitted_count + crate::context::render::extra_omissions(
        before.categories@[i].category,
        omitted,
    ) by {
        below_grows(before.categories@, omitted, i + 1, before.categories@.len() as int);
    }
}

proof fn bytes_extend(list: Seq<Seq<char>>, text: Seq<char>, n: int)
    requires
        0 <= n <= list.len(),
    ensures
        text_bytes(list.push(text), n) == text_bytes(list, n),
        scalars(list.push(text), n) == scalars(list, n),
    decreases n,
{
    if n > 0 {
        bytes_extend(list, text, n - 1);
        assert(list.push(text)[n - 1] == list[n - 1]);
    }
}

proof fn reference_bytes_extend(list: Seq<LoadedReference>, reference: LoadedReference, n: int)
    requires
        0 <= n <= list.len(),
    ensures
        reference_bytes(list.push(reference), n) == reference_bytes(list, n),
    decreases n,
{
    if n > 0 {
        reference_bytes_extend(list, reference, n - 1);
        assert(list.push(reference)[n - 1] == list[n - 1]);
    }
}

/// Every text of a session's input counts: without exclusions and references
/// the loaded state alone must fit, and one more exclusion fits exactly where
/// it fits what is left of the bounds without it.
pub proof fn every_exclusion_counts(
    loaded_state: Seq<char>,
    exclusions: Seq<Seq<char>>,
    references: Seq<LoadedReference>,
    text: Seq<char>,
    max_records: nat,
    max_bytes: nat,
)
    ensures
        fits_input(loaded_state, Seq::empty(), Seq::empty(), max_records, max_bytes) <==>
            byte_length(loaded_state) <= max_bytes,
        max_records > 0 && byte_length(text) <= max_bytes ==> (fits_input(
            loaded_state,
            exclusions.push(text),
            references,
            max_records,
            max_bytes,
        ) <==> fits_input(
            loaded_state,
            exclusions,
            references,
            (max_records - 1) as nat,
            (max_bytes - byte_length(text)) as nat,
        )),
        max_records == 0 || byte_length(text) > max_bytes ==> !fits_input(
            loaded_state,
            exclusions.push(text),
            references,
            max_records,
            max_bytes,
        ),
{
    bytes_extend(exclusions, text, exclusions.len() as int);
    assert(exclusions.push(text)[exclusions.len() as int] == text);
}

/// One more reference fits exactly where its name and its summary fit what is
/// left of the bounds without it.
pub proof fn every_reference_counts(
    loaded_state: Seq<char>,
    exclusions: Seq<Seq<char>>,
    references: Seq<LoadedReference>,
    reference: LoadedReference,
    max_records: nat,
    max_bytes: nat,
)
    ensures
        ({
            let size = byte_length(reference.name@) + byte_length(reference.summary@);
            let more = fits_input(
                loaded_state,
                exclusions,
                references.push(reference),
                max_records,
                max_bytes,
            );
            &&& max_records > 0 && size <= max_bytes ==> (more <==> fits_input(
                loaded_state,
                exclusions,
                references,
                (max_records - 1) as nat,
                (max_bytes - size) as nat,
            ))
            &&& max_records == 0 || size > max_bytes ==> !more
        }),
{
    reference_bytes_extend(references, reference, references.len() as int);
    assert(references.push(reference)[references.len() as int] == reference);
}

/// A disclosure uses up what it shows: an exclusion its own length, a reference
/// the length of its name and of what is shown of its summary.
pub proof fn disclosures_use_what_they_show(
    d: DisclosureView,
    name: Seq<char>,
    summary: Seq<char>,
    excerpt: Seq<char>,
    redactions: nat,
)
    ensures
        d.with_exclusion(name, redactions).used() == d.used() + name.len(),
        d.with_exclusion(name, redactions).exclusions == d.exclusions.push(name),
        d.with_exclusion(name, redactions).redactions == d.redactions + redactions,
        ({
            let more = d.with_reference(name, summary, excerpt, redactions);
            let whole = summary.len() <= 700 && d.used() + name.len() + summary.len() <= 4096;
            &&& more.names == d.names.push(name)
            &&& more.redactions == d.redactions + redactions
            &&& whole ==> more.summaries == d.summaries.push(summary) && more.truncated
                == d.truncated && more.used() == d.used() + name.len() + summary.len()
            &&& !whole ==> more.summaries == d.summaries.push(excerpt) && more.truncated
                == d.truncated + 1 && more.used() == d.used() + name.len() + excerpt.len()
        }),
{
    bytes_extend(d.exclusions, name, d.exclusions.len() as int);
    bytes_extend(d.names, name, d.names.len() as int);
    bytes_extend(d.summaries, summary, d.summaries.len() as int);
    bytes_extend(d.summaries, excerpt, d.summaries.len() as int);
    assert(d.exclusions.push(name)[d.exclusions.len() as int] == name);
    assert(d.names.push(name)[d.names.len() as int] == name);
    assert(d.summaries.push(summary)[d.summaries.len() as int] == summary);
    assert(d.summaries.push(excerpt)[d.summaries.len() as int] == excerpt);
}

} // verus!
