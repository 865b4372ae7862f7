//! What the choice among a roster's skills keeps to: which names are required,
//! which skills may be suggested, and which gaps are warned of.
use crate::context::{EventView, Role};
use crate::identity::is_identifier;
use crate::names::is_ascending;
use crate::pipeline::candidates::{
    advisory, excluded_ids, excludes, has_history_spec, is_shortlist, label_of, last_request,
    unverified_below, unverified_bindings, verified_bindings, with_directives, with_name,
    with_names, AnchorDirective, BindingPlace, SkillBinding, SkillRecord, Visibility,
};
use crate::pipeline::document::{
    all_warnings, caveat, code_warnings, gap_codes, in_order, occurrences, WarningView,
};
use vstd::prelude::*;

verus! {

/// Only a visibility that was verified, and not merely under the provisional
/// contract, is labelled as verified.
pub proof fn labels_need_evidence(visibility: Visibility, provisional: Seq<char>)
    ensures
        label_of(visibility, provisional) == "verified"@ <==> (
        visibility matches Visibility::Verified { contract_version } && contract_version@
            != provisional),
        label_of(visibility, provisional) == "verified"@ || label_of(visibility, provisional)
            == "unverified"@,
{
    reveal_strlit("verified");
    reveal_strlit("unverified");
    assert("verified"@.len() != "unverified"@.len());
}

/// Is this binding without evidence?
pub open spec fn lacks_evidence(binding: SkillBinding, provisional: Seq<char>) -> bool {
    match binding.visibility {
        Visibility::Verified { contract_version } => contract_version@ == provisional,
        Visibility::Unverified => true,
    }
}

proof fn bindings_are_counted(skill: SkillRecord, provisional: Seq<char>, n: int)
    requires
        0 <= n <= skill.bindings@.len(),
    ensures
        unverified_bindings(skill, provisional, n) == skill.bindings@.take(n).filter(
            |b: SkillBinding| lacks_evidence(b, provisional),
        ).len(),
    decreases n,
{
    reveal(Seq::filter);
    if n > 0 {
        bindings_are_counted(skill, provisional, n - 1);
        assert(skill.bindings@.take(n).drop_last() =~= skill.bindings@.take(n - 1));
    } else {
        assert(skill.bindings@.take(0).len() == 0);
    }
}

proof fn counts_extend(roster: Seq<SkillRecord>, skill: SkillRecord, provisional: Seq<char>, n: int)
    requires
        0 <= n <= roster.len(),
    ensures
        unverified_below(roster.push(skill), provisional, n) == unverified_below(
            roster,
            provisional,
            n,
        ),
    decreases n,
{
    if n > 0 {
        counts_extend(roster, skill, provisional, n - 1);
        assert(roster.push(skill)[n - 1] == roster[n - 1]);
    }
}

/// Every binding without evidence counts once: one more skill raises the count
/// by the bindings of its own that lack evidence, and an empty roster has none.
pub proof fn unverified_bindings_are_counted(
    roster: Seq<SkillRecord>,
    skill: SkillRecord,
    provisional: Seq<char>,
)
    ensures
        unverified_below(Seq::empty(), provisional, 0) == 0,
        unverified_below(roster.push(skill), provisional, roster.len() as int + 1) == unverified_below(
            roster,
            provisional,
            roster.len() as int,
        ) + skill.bindings@.filter(|b: SkillBinding| lacks_evidence(b, provisional)).len(),
{
    let n = skill.bindings@.len() as int;
    counts_extend(roster, skill, provisional, roster.len() as int);
    bindings_are_counted(skill, provisional, n);
    assert(skill.bindings@.take(n) =~= skill.bindings@);
    assert(roster.push(skill)[roster.len() as int] == skill);
}

/// The request of a transcript is what its user said last, however much came
/// after it; a transcript without a user has none.
pub proof fn requests_are_what_the_user_said_last(events: Seq<EventView>, at: int)
    requires
        -1 <= at < events.len(),
        at >= 0 ==> events[at].role == Role::User,
        forall|i: int| at < i < events.len() ==> (#[trigger] events[i]).role != Role::User,
    ensures
        at >= 0 ==> last_request(events) == events[at].text,
        at < 0 ==> last_request(events).len() == 0,
    decreases events.len(),
{
    if events.len() > 0 && at < events.len() - 1 {
        assert(events.last().role != Role::User);
        requests_are_what_the_user_said_last(events.drop_last(), at);
    }
}

proof fn names_are_added(list: Seq<Seq<char>>, names: Seq<Seq<char>>)
    ensures
        list.len() <= with_names(list, names).len(),
        with_names(list, names).take(list.len() as int) == list,
        forall|name: Seq<char>| #[trigger]
            with_names(list, names).contains(name) <==> list.contains(name) || names.contains(name),
        list.no_duplicates() ==> with_names(list, names).no_duplicates(),
    decreases names.len(),
{
    let all = with_names(list, names);
    if names.len() == 0 {
        assert(all.take(list.len() as int) =~= list);
    } else {
        let rest = names.drop_last();
        let before = with_names(list, rest);
        names_are_added(list, rest);
        one_name_is_added(before, names.last());
        assert(all.take(list.len() as int) =~= before.take(list.len() as int));
        assert forall|name: Seq<char>| #[trigger] all.contains(name) <==> list.contains(name)
            || names.contains(name) by {
            assert(before.contains(name) <==> list.contains(name) || rest.contains(name));
            if names.contains(name) {
                let i = names.index_of(name);
                assert(i < rest.len() ==> rest[i] == name);
            }
            if rest.contains(name) {
                assert(names[rest.index_of(name)] == name);
            }
            assert(names[names.len() - 1] == names.last());
        }
    }
}

proof fn one_name_is_added(list: Seq<Seq<char>>, name: Seq<char>)
    ensures
        list.len() <= with_name(list, name).len(),
        with_name(list, name).take(list.len() as int) == list,
        forall|other: Seq<char>| #[trigger]
            with_name(list, name).contains(other) <==> list.contains(other) || other == name,
        list.no_duplicates() ==> with_name(list, name).no_duplicates(),
{
    let all = with_name(list, name);
    assert(all.take(list.len() as int) =~= list);
    assert forall|other: Seq<char>| #[trigger] all.contains(other) <==> list.contains(other)
        || other == name by {
        if list.contains(other) {
            assert(all[list.index_of(other)] == other);
        }
        if all.contains(other) {
            let i = all.index_of(other);
            assert(i < list.len() ==> list[i] == other);
        }
        if !list.contains(name) {
            assert(all[list.len() as int] == name);
        }
    }
}

/// Does a directive require this name?
pub open spec fn is_directed(directives: Seq<AnchorDirective>, name: Seq<char>) -> bool {
    exists|i: int|
        0 <= i < directives.len() && (#[trigger] directives[i]).requires
            && directives[i].target@ == name && is_identifier(name)
}

proof fn directed_names_are_added(list: Seq<Seq<char>>, directives: Seq<AnchorDirective>)
    ensures
        list.len() <= with_directives(list, directives).len(),
        with_directives(list, directives).take(list.len() as int) == list,
        forall|name: Seq<char>| #[trigger]
            with_directives(list, directives).contains(name) <==> list.contains(name)
                || is_directed(directives, name),
        list.no_duplicates() ==> with_directives(list, directives).no_duplicates(),
    decreases directives.len(),
{
    let all = with_directives(list, directives);
    if directives.len() == 0 {
        assert(all.take(list.len() as int) =~= list);
    } else {
        let rest = directives.drop_last();
        let last = directives.last();
        let before = with_directives(list, rest);
        directed_names_are_added(list, rest);
        one_name_is_added(before, last.target@);
        assert(all.take(list.len() as int) =~= before.take(list.len() as int));
        assert forall|name: Seq<char>| #[trigger] all.contains(name) <==> list.contains(name)
            || is_directed(directives, name) by {
            assert(before.contains(name) <==> list.contains(name) || is_directed(rest, name));
            if is_directed(directives, name) {
                let i = choose|i: int|
                    0 <= i < directives.len() && (#[trigger] directives[i]).requires
                        && directives[i].target@ == name && is_identifier(name);
                assert(i < rest.len() ==> rest[i] == directives[i]);
            }
            if is_directed(rest, name) {
                let i = choose|i: int|
                    0 <= i < rest.len() && (#[trigger] rest[i]).requires && rest[i].target@ == name
                        && is_identifier(name);
                assert(directives[i] == rest[i]);
            }
            assert(directives[directives.len() - 1] == last);
        }
    }
}

/// What is required explicitly is what the caller requires, first and as it
/// stands, what the context refers to, and what a directive requires under a
/// valid identifier: every such name, no other, and none added twice.
pub proof fn required_names_are_collected(
    required: Seq<Seq<char>>,
    references: Seq<Seq<char>>,
    directives: Seq<AnchorDirective>,
)
    ensures
        ({
            let all = with_directives(with_names(required, references), directives);
            &&& required.len() <= all.len()
            &&& all.take(required.len() as int) == required
            &&& forall|name: Seq<char>| #[trigger]
                all.contains(name) <==> required.contains(name) || references.contains(name)
                    || is_directed(directives, name)
            &&& required.no_duplicates() ==> all.no_duplicates()
        }),
{
    let named = with_names(required, references);
    let all = with_directives(named, directives);
    names_are_added(required, references);
    directed_names_are_added(named, directives);
    assert(all.take(required.len() as int) =~= all.take(named.len() as int).take(
        required.len() as int,
    ));
}

/// A name excludes every skill that is called by it, under the skill's identity
/// and those of all its bindings; and what is excluded has a name that says so.
pub proof fn exclusions_follow_the_names(
    names: Seq<Seq<char>>,
    roster: Seq<SkillRecord>,
    n: int,
    k: int,
)
    requires
        0 <= n < names.len(),
        0 <= k < roster.len(),
    ensures
        is_identifier(names[n]) ==> excluded_ids(names, roster).contains(names[n]),
        roster[k].display_name@ == names[n] ==> excluded_ids(names, roster).contains(roster[k].id@),
        forall|b: int, c: int|
            0 <= b < roster[k].bindings@.len() && 0 <= c < roster[k].bindings@.len() && (
            #[trigger] roster[k].bindings@[b]).invocation@ == names[n] ==> excluded_ids(
                names,
                roster,
            ).contains((#[trigger] roster[k].bindings@[c]).id@) && excluded_ids(
                names,
                roster,
            ).contains(roster[k].id@),
        roster[k].display_name@ == names[n] ==> forall|c: int|
            0 <= c < roster[k].bindings@.len() ==> excluded_ids(names, roster).contains(
                (#[trigger] roster[k].bindings@[c]).id@,
            ),
{
    let set = excluded_ids(names, roster);
    if is_identifier(names[n]) {
        assert(excludes(names[n], roster, names[n]));
    }
    let skill = roster[k];
    if skill.display_name@ == names[n] {
        assert(excludes(names[n], roster, skill.id@));
        assert forall|c: int| 0 <= c < skill.bindings@.len() implies set.contains(
            (#[trigger] skill.bindings@[c]).id@,
        ) by {
            assert(excludes(names[n], roster, skill.bindings@[c].id@));
        }
    }
    assert forall|b: int, c: int|
        0 <= b < skill.bindings@.len() && 0 <= c < skill.bindings@.len() && (
        #[trigger] skill.bindings@[b]).invocation@ == names[n] implies set.contains(
        (#[trigger] skill.bindings@[c]).id@,
    ) && set.contains(skill.id@) by {
        assert(excludes(names[n], roster, skill.bindings@[c].id@));
        assert(excludes(names[n], roster, skill.id@));
    }
}

/// Nothing is excluded without names.
pub proof fn nothing_is_excluded_without_names(roster: Seq<SkillRecord>)
    ensures
        excluded_ids(Seq::empty(), roster) =~= Set::empty(),
{
}

/// Is this the place of a verified binding?
pub open spec fn is_verified_place(roster: Seq<SkillRecord>, place: BindingPlace) -> bool {
    &&& place.skill < roster.len()
    &&& place.binding < roster[place.skill as int].bindings@.len()
    &&& roster[place.skill as int].bindings@[place.binding as int].visibility is Verified
}

pub open spec fn comes_before(a: BindingPlace, b: BindingPlace) -> bool {
    a.skill < b.skill || (a.skill == b.skill && a.binding < b.binding)
}

proof fn verified_places_of_a_skill(skill: SkillRecord, k: usize, n: int)
    requires
        0 <= n <= skill.bindings@.len() <= usize::MAX,
    ensures
        forall|p: BindingPlace| #[trigger]
            verified_bindings(skill, k, n).contains(p) <==> p.skill == k && p.binding < n
                && skill.bindings@[p.binding as int].visibility is Verified,
        forall|i: int, j: int|
            0 <= i < j < verified_bindings(skill, k, n).len() ==> comes_before(
                #[trigger] verified_bindings(skill, k, n)[i],
                #[trigger] verified_bindings(skill, k, n)[j],
            ),
    decreases n,
{
    if n > 0 {
        verified_places_of_a_skill(skill, k, n - 1);
        let before = verified_bindings(skill, k, n - 1);
        let list = verified_bindings(skill, k, n);
        let own = BindingPlace { skill: k, binding: (n - 1) as usize };
        assert forall|p: BindingPlace| #[trigger] list.contains(p) <==> p.skill == k && p.binding
            < n && skill.bindings@[p.binding as int].visibility is Verified by {
            assert(before.contains(p) <==> p.skill == k && p.binding < n - 1
                && skill.bindings@[p.binding as int].visibility is Verified);
            if before.contains(p) {
                assert(list[before.index_of(p)] == p);
            }
            if list.contains(p) {
                let i = list.index_of(p);
                assert(i < before.len() ==> before[i] == p);
            }
            if skill.bindings@[n - 1].visibility is Verified {
                assert(list[before.len() as int] == own);
            }
        }
        assert forall|i: int, j: int| 0 <= i < j < list.len() implies comes_before(
            #[trigger] list[i],
            #[trigger] list[j],
        ) by {
            assert(i < before.len() ==> before.contains(before[i]));
        }
    }
}

proof fn verified_places(roster: Seq<SkillRecord>, n: int)
    requires
        0 <= n <= roster.len() <= usize::MAX,
        forall|k: int| 0 <= k < roster.len() ==> (#[trigger] roster[k]).bindings@.len() <= usize::MAX,
    ensures
        forall|p: BindingPlace| #[trigger]
            advisory(roster, n).contains(p) <==> p.skill < n && is_verified_place(roster, p),
        forall|i: int, j: int|
            0 <= i < j < advisory(roster, n).len() ==> comes_before(
                #[trigger] advisory(roster, n)[i],
                #[trigger] advisory(roster, n)[j],
            ),
    decreases n,
{
    if n > 0 {
        let skill = roster[n - 1];
        let k = (n - 1) as usize;
        verified_places(roster, n - 1);
        verified_places_of_a_skill(skill, k, skill.bindings@.len() as int);
        let before = advisory(roster, n - 1);
        let own = verified_bindings(skill, k, skill.bindings@.len() as int);
        let list = advisory(roster, n);
        assert(list == before + own);
        assert forall|p: BindingPlace| #[trigger] list.contains(p) <==> p.skill < n
            && is_verified_place(roster, p) by {
            assert(before.contains(p) <==> p.skill < n - 1 && is_verified_place(roster, p));
            assert(own.contains(p) <==> p.skill == k && is_verified_place(roster, p));
            if before.contains(p) {
                assert(list[before.index_of(p)] == p);
            }
            if own.contains(p) {
                assert(list[before.len() + own.index_of(p)] == p);
            }
            if list.contains(p) {
                let i = list.index_of(p);
                if i < before.len() {
                    assert(before[i] == p);
                } else {
                    assert(own[i - before.len()] == p);
                }
            }
        }
        assert forall|i: int, j: int| 0 <= i < j < list.len() implies comes_before(
            #[trigger] list[i],
            #[trigger] list[j],
        ) by {
            if i < before.len() {
                assert(before.contains(before[i]));
            }
            if j >= before.len() {
                assert(own.contains(own[j - before.len()]));
            }
        }
    }
}

/// The bindings that may be suggested are exactly the verified ones, each once,
/// in the order of the roster.
pub proof fn only_verified_bindings_are_advised(roster: Seq<SkillRecord>)
    requires
        roster.len() <= usize::MAX,
        forall|k: int| 0 <= k < roster.len() ==> (#[trigger] roster[k]).bindings@.len() <= usize::MAX,
    ensures
        forall|p: BindingPlace| #[trigger]
            advisory(roster, roster.len() as int).contains(p) <==> is_verified_place(roster, p),
        forall|i: int, j: int|
            0 <= i < j < advisory(roster, roster.len() as int).len() ==> comes_before(
                #[trigger] advisory(roster, roster.len() as int)[i],
                #[trigger] advisory(roster, roster.len() as int)[j],
            ),
{
    verified_places(roster, roster.len() as int);
}

/// The codes that are this one.
pub open spec fn alike(codes: Seq<Seq<char>>, code: Seq<char>) -> Seq<Seq<char>> {
    codes.filter(|c: Seq<char>| c == code)
}

proof fn occurrences_are_counted(codes: Seq<Seq<char>>, code: Seq<char>)
    ensures
        occurrences(codes, code) == alike(codes, code).len(),
    decreases codes.len(),
{
    reveal(Seq::filter);
    if codes.len() > 0 {
        occurrences_are_counted(codes.drop_last(), code);
    }
}

/// The codes have an order: the warnings name each code once.
pub open spec fn are_ordered(codes: Seq<Seq<char>>) -> bool {
    exists|order: Seq<Seq<char>>|
        #[trigger] is_ascending(order) && order.to_set() == codes.to_set()
}

/// Every code is warned of once, with how often it occurred, and no other code
/// is warned of.
pub proof fn codes_are_warned_of_once(codes: Seq<Seq<char>>, message: Seq<char>)
    requires
        are_ordered(codes),
    ensures
        forall|code: Seq<char>| #[trigger]
            codes.contains(code) ==> code_warnings(codes, message).contains(
                WarningView {
                    kind: code,
                    count: alike(codes, code).len(),
                    message,
                },
            ),
        forall|i: int|
            0 <= i < code_warnings(codes, message).len() ==> codes.contains(
                (#[trigger] code_warnings(codes, message)[i]).kind,
            ),
        is_ascending(code_warnings(codes, message).map_values(|w: WarningView| w.kind)),
{
    let order = in_order(codes);
    let list = code_warnings(codes, message);
    assert(is_ascending(order) && order.to_set() == codes.to_set());
    assert(list.map_values(|w: WarningView| w.kind) =~= order);
    assert forall|code: Seq<char>| #[trigger] codes.contains(code) implies list.contains(
        WarningView { kind: code, count: alike(codes, code).len(), message },
    ) by {
        assert(codes.to_set().contains(code));
        assert(order.to_set().contains(code));
        occurrences_are_counted(codes, code);
        let i = choose|i: int| 0 <= i < order.len() && order[i] == code;
        let own = WarningView { kind: code, count: occurrences(codes, code), message };
        assert(list[i] == own);
        assert(own.count == alike(codes, code).len());
    }
    assert forall|i: int| 0 <= i < list.len() implies codes.contains((#[trigger] list[i]).kind) by {
        assert(order.to_set().contains(order[i]));
        assert(codes.to_set().contains(order[i]));
    }
}

/// The caveat on unverified names comes first, and only where there are such
/// names; a root that is merely missing is no gap.
pub proof fn caveats_come_first(
    provisional: nat,
    caution: Seq<char>,
    records: Seq<Seq<char>>,
    sources: Seq<Seq<char>>,
)
    ensures
        ({
            let all = all_warnings(provisional, caution, records, sources);
            let rest = code_warnings(
                records,
                "Skill records were excluded while resolving the roster"@,
            ) + code_warnings(gap_codes(sources), "A skill source was not fully observed"@);
            &&& provisional > 0 ==> all.len() == rest.len() + 1 && all[0].kind
                == "unverified-visibility"@ && all[0].count == provisional && all[0].message
                == caution && all.skip(1) == rest
            &&& provisional == 0 ==> all == rest
        }),
        forall|code: Seq<char>| #[trigger]
            gap_codes(sources).contains(code) <==> sources.contains(code) && code
                != "root-missing"@,
{
    let all = all_warnings(provisional, caution, records, sources);
    let rest = code_warnings(records, "Skill records were excluded while resolving the roster"@)
        + code_warnings(gap_codes(sources), "A skill source was not fully observed"@);
    if provisional > 0 {
        assert(all.skip(1) =~= rest);
    } else {
        assert(all =~= rest);
    }
    let keep = |code: Seq<char>| code != "root-missing"@;
    assert forall|code: Seq<char>| #[trigger] gap_codes(sources).contains(code) <==>
        sources.contains(code) && code != "root-missing"@ by {
        let gaps = sources.filter(keep);
        assert(gaps == gap_codes(sources));
        if gaps.contains(code) {
            sources.lemma_filter_contains_rev(keep, code);
            let i = choose|i: int| 0 <= i < gaps.len() && gaps[i] == code;
            sources.lemma_filter_pred(keep, i);
        }
        if sources.contains(code) && keep(code) {
            let i = choose|i: int| 0 <= i < sources.len() && sources[i] == code;
            sources.lemma_filter_contains(keep, i);
        }
    }
}

/// A previewed shortlist is one where it is not too long, names each skill once
/// and only wide candidates; any such list is one.
pub proof fn shortlists_name_candidates_once(
    ids: Seq<Seq<char>>,
    candidates: Seq<Seq<char>>,
    limit: nat,
    id: Seq<char>,
)
    requires
        is_shortlist(ids, candidates, limit),
    ensures
        ids.len() <= limit,
        is_shortlist(ids.push(id), candidates, limit) <==> ids.len() < limit && !ids.contains(id)
            && candidates.contains(id),
        is_shortlist(Seq::empty(), candidates, limit),
{
    let more = ids.push(id);
    if is_shortlist(more, candidates, limit) {
        assert(more[ids.len() as int] == id);
        if ids.contains(id) {
            assert(more[ids.index_of(id)] == more[ids.len() as int]);
        }
    }
    if ids.len() < limit && !ids.contains(id) && candidates.contains(id) {
        assert forall|i: int, j: int|
            0 <= i < more.len() && 0 <= j < more.len() && i != j implies more[i] != more[j] by {
            if i == ids.len() {
                assert(ids.contains(ids[j]));
            }
            if j == ids.len() {
                assert(ids.contains(ids[i]));
            }
        }
        assert forall|i: int| 0 <= i < more.len() implies candidates.contains(
            #[trigger] more[i],
        ) by {
            assert(i < ids.len() ==> more[i] == ids[i]);
        }
    }
}

/// There is a history wherever some event is not the request itself.
pub proof fn histories_hold_other_events(
    events: Seq<EventView>,
    current: Option<Seq<char>>,
    e: EventView,
)
    ensures
        !has_history_spec(Seq::empty(), current),
        has_history_spec(events.push(e), current) <==> has_history_spec(events, current)
            || e.event_id is None || e.event_id != current,
{
    let more = events.push(e);
    if has_history_spec(events, current) {
        let i = choose|i: int|
            0 <= i < events.len() && ((#[trigger] events[i]).event_id is None || events[i].event_id
                != current);
        assert(more[i] == events[i]);
    }
    assert(more[events.len() as int] == e);
    if has_history_spec(more, current) {
        let i = choose|i: int|
            0 <= i < more.len() && ((#[trigger] more[i]).event_id is None || more[i].event_id
                != current);
        assert(i < events.len() ==> more[i] == events[i]);
    }
}

} // verus!
