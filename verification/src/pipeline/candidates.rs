//! Which skills a ranking considers.
use crate::context::{
    event_views, CurrentRequest, EventView, NormalizedContext, NormalizedEvent, Role,
};
use crate::identity::{is_identifier, valid_identifier};
use crate::names::NameSet;
use crate::text::{
    contains_text, copy_text, copy_texts, optional_text, same_optional, same_text, texts,
};
use vstd::bytes::*;
use vstd::prelude::*;
use vstd::utf8::*;

verus! {

/// How far a binding's visibility is established.
#[derive(Clone, Debug)]
pub enum Visibility {
    Verified { contract_version: String },
    Unverified,
}

/// Only a contract backed by evidence verifies: the provisional one, by which
/// skills are resolved under documented precedence, does not.
pub open spec fn is_evidenced(visibility: Visibility, provisional: Seq<char>) -> bool {
    match visibility {
        Visibility::Verified { contract_version } => contract_version@ != provisional,
        Visibility::Unverified => false,
    }
}

pub open spec fn label_of(visibility: Visibility, provisional: Seq<char>) -> Seq<char> {
    if is_evidenced(visibility, provisional) {
        "verified"@
    } else {
        "unverified"@
    }
}

/// How a result's visibility is labelled, under this provisional contract.
pub fn visibility_label(visibility: &Visibility, provisional: &str) -> (label: &'static str)
    ensures
        label@ == label_of(*visibility, provisional@),
{
    match visibility {
        Visibility::Verified { contract_version } => if same_text(
            contract_version.as_str(),
            provisional,
        ) {
            "unverified"
        } else {
            "verified"
        },
        Visibility::Unverified => "unverified",
    }
}

/// The bindings of a skill among its first `n` that are not verified.
pub open spec fn unverified_bindings(skill: SkillRecord, provisional: Seq<char>, n: int) -> nat
    decreases n,
{
    if n <= 0 || n > skill.bindings@.len() {
        0
    } else {
        unverified_bindings(skill, provisional, n - 1) + (if is_evidenced(
            skill.bindings@[n - 1].visibility,
            provisional,
        ) {
            0nat
        } else {
            1
        })
    }
}

/// The bindings of the first `n` skills that are not verified.
pub open spec fn unverified_below(roster: Seq<SkillRecord>, provisional: Seq<char>, n: int) -> nat
    decreases n,
{
    if n <= 0 || n > roster.len() {
        0
    } else {
        unverified_below(roster, provisional, n - 1) + unverified_bindings(
            roster[n - 1],
            provisional,
            roster[n - 1].bindings@.len() as int,
        )
    }
}

/// Count the bindings that are not verified.
pub fn count_unverified(roster: &Vec<SkillRecord>, provisional: &str) -> (count: u128)
    ensures
        count == unverified_below(roster@, provisional@, roster@.len() as int),
{
    let mut count: u128 = 0;
    let mut k: usize = 0;
    while k < roster.len()
        invariant
            k <= roster@.len(),
            count <= k * u64::MAX,
            count == unverified_below(roster@, provisional@, k as int),
        decreases roster@.len() - k,
    {
        let skill: &SkillRecord = &roster[k];
        let ghost start = count;
        let mut i: usize = 0;
        while i < skill.bindings.len()
            invariant
                i <= skill.bindings@.len(),
                start <= (usize::MAX - 1) * u64::MAX,
                count <= start + i,
                count == start + unverified_bindings(*skill, provisional@, i as int),
            decreases skill.bindings@.len() - i,
        {
            let evidenced: bool = match &skill.bindings[i].visibility {
                Visibility::Verified { contract_version } => !same_text(
                    contract_version.as_str(),
                    provisional,
                ),
                Visibility::Unverified => false,
            };
            if !evidenced {
                count += 1;
            }
            i += 1;
        }
        k += 1;
    }
    count
}

/// A callable name of a skill.
#[derive(Clone, Debug)]
pub struct SkillBinding {
    pub id: String,
    pub invocation: String,
    pub visibility: Visibility,
}

/// A skill of the roster.
#[derive(Clone, Debug)]
pub struct SkillRecord {
    pub id: String,
    pub display_name: String,
    /// The file or the harness name that it is loaded from.
    pub location: String,
    pub content_hash: String,
    pub visibility: Visibility,
    pub bindings: Vec<SkillBinding>,
}

/// The request of a transcript: the text of the last user event.
pub open spec fn last_request(events: Seq<EventView>) -> Seq<char>
    decreases events.len(),
{
    if events.len() == 0 {
        Seq::empty()
    } else if events.last().role == Role::User {
        events.last().text
    } else {
        last_request(events.drop_last())
    }
}

/// The context of a native transcript.
pub fn transcript_context(events: Vec<NormalizedEvent>, workspace: &str) -> (c: NormalizedContext)
    ensures
        c.schema_version == 1,
        c.harness@ == "claude_code"@,
        c.producer_id is None,
        optional_text(c.workspace_root) == Some(workspace@),
        optional_text(c.session_id) == Some("session-0"@),
        c.agent_id is None,
        c.branch_id is None,
        c.context_epoch is None,
        optional_text(c.current_request.event_id) == Some("req-0"@),
        c.current_request.text@ == last_request(event_views(events@)),
        !c.current_request.attachments_omitted,
        !c.current_request.essential_attachment_missing,
        c.events == events,
        c.explicit_skill_references@.len() == 0,
        c.supplied_loads@.len() == 0,
{
    let ghost log = event_views(events@);
    let mut text: String = String::new();
    let mut i: usize = events.len();
    proof {
        reveal_strlit("");
        assert(log.take(i as int) =~= log);
        assert(text@ =~= Seq::empty());
    }
    while i > 0
        invariant_except_break
            text@ == Seq::<char>::empty(),
            last_request(log) == last_request(log.take(i as int)),
        invariant
            i <= events@.len(),
            log == event_views(events@),
        ensures
            text@ == last_request(log),
        decreases i,
    {
        assert(log.take(i as int).last() == events@[i - 1]@);
        assert(log.take(i as int).drop_last() =~= log.take(i - 1));
        if events[i - 1].role == Role::User {
            text = copy_text(events[i - 1].text.as_str());
            break;
        }
        i -= 1;
    }
    NormalizedContext {
        schema_version: 1,
        harness: copy_text("claude_code"),
        producer_id: None,
        workspace_root: Some(copy_text(workspace)),
        session_id: Some(copy_text("session-0")),
        agent_id: None,
        branch_id: None,
        context_epoch: None,
        current_request: CurrentRequest {
            event_id: Some(copy_text("req-0")),
            text,
            attachments_omitted: false,
            essential_attachment_missing: false,
        },
        events,
        explicit_skill_references: Vec::new(),
        supplied_loads: Vec::new(),
    }
}

/// Is there an event besides the request itself?
pub open spec fn has_history_spec(events: Seq<EventView>, current: Option<Seq<char>>) -> bool {
    exists|i: int|
        0 <= i < events.len() && ((#[trigger] events[i]).event_id is None || events[i].event_id
            != current)
}

pub fn has_history(context: &NormalizedContext) -> (r: bool)
    ensures
        r == has_history_spec(
            event_views(context.events@),
            optional_text(context.current_request.event_id),
        ),
{
    let ghost log = event_views(context.events@);
    let mut i: usize = 0;
    while i < context.events.len()
        invariant
            i <= context.events@.len(),
            log == event_views(context.events@),
            forall|j: int|
                0 <= j < i ==> !((#[trigger] log[j]).event_id is None || log[j].event_id
                    != optional_text(context.current_request.event_id)),
        decreases context.events@.len() - i,
    {
        assert(log[i as int] == context.events@[i as int]@);
        if context.events[i].event_id.is_none() || !same_optional(
            &context.events[i].event_id,
            &context.current_request.event_id,
        ) {
            return true;
        }
        i += 1;
    }
    false
}

/// A directive of the request's anchor.
#[derive(Clone, Debug)]
pub struct AnchorDirective {
    pub requires: bool,
    pub target: String,
}

/// A list with one more name, unless it holds it.
pub open spec fn with_name(list: Seq<Seq<char>>, name: Seq<char>) -> Seq<Seq<char>> {
    if list.contains(name) {
        list
    } else {
        list.push(name)
    }
}

pub open spec fn with_names(list: Seq<Seq<char>>, names: Seq<Seq<char>>) -> Seq<Seq<char>>
    decreases names.len(),
{
    if names.len() == 0 {
        list
    } else {
        with_name(with_names(list, names.drop_last()), names.last())
    }
}

/// Only a requirement of a usable name counts.
pub open spec fn with_directives(
    list: Seq<Seq<char>>,
    directives: Seq<AnchorDirective>,
) -> Seq<Seq<char>>
    decreases directives.len(),
{
    if directives.len() == 0 {
        list
    } else {
        let before = with_directives(list, directives.drop_last());
        let last = directives.last();
        if last.requires && is_identifier(last.target@) {
            with_name(before, last.target@)
        } else {
            before
        }
    }
}

fn add_name(list: &mut Vec<String>, name: &str)
    ensures
        texts(final(list)@) == with_name(texts(old(list)@), name@),
{
    if !contains_text(list, name) {
        let ghost before = texts(list@);
        list.push(copy_text(name));
        assert(texts(list@) =~= before.push(name@));
    }
}

/// The skills that are required outright: by flag, by the context and by the
/// request's own words, in that order.
pub fn explicit_directives(
    required: &Vec<String>,
    references: &Vec<String>,
    directives: &Vec<AnchorDirective>,
) -> (list: Vec<String>)
    ensures
        texts(list@) == with_directives(
            with_names(texts(required@), texts(references@)),
            directives@,
        ),
{
    let mut list: Vec<String> = copy_texts(required);
    let ghost names = texts(references@);
    let mut i: usize = 0;
    while i < references.len()
        invariant
            i <= references@.len(),
            names == texts(references@),
            texts(list@) == with_names(texts(required@), names.take(i as int)),
        decreases references@.len() - i,
    {
        assert(names.take(i + 1).drop_last() =~= names.take(i as int));
        assert(names.take(i + 1).last() == references@[i as int]@);
        add_name(&mut list, references[i].as_str());
        i += 1;
    }
    assert(names.take(i as int) =~= names);
    let ghost start = texts(list@);
    let mut k: usize = 0;
    while k < directives.len()
        invariant
            k <= directives@.len(),
            texts(list@) == with_directives(start, directives@.take(k as int)),
        decreases directives@.len() - k,
    {
        assert(directives@.take(k + 1).drop_last() =~= directives@.take(k as int));
        if directives[k].requires && valid_identifier(directives[k].target.as_str()) {
            add_name(&mut list, directives[k].target.as_str());
        }
        k += 1;
    }
    assert(directives@.take(k as int) =~= directives@);
    list
}

/// Is a skill known by this name: displayed or callable?
pub open spec fn is_called(skill: SkillRecord, name: Seq<char>) -> bool {
    skill.display_name@ == name || exists|i: int|
        0 <= i < skill.bindings@.len() && (#[trigger] skill.bindings@[i]).invocation@ == name
}

/// Is this the identity of a skill or of one of its bindings?
pub open spec fn is_identity_of(skill: SkillRecord, id: Seq<char>) -> bool {
    skill.id@ == id || exists|i: int|
        0 <= i < skill.bindings@.len() && (#[trigger] skill.bindings@[i]).id@ == id
}

/// A name excludes the identity that it is, and every identity of the skills
/// that are known by it.
pub open spec fn excludes(name: Seq<char>, roster: Seq<SkillRecord>, id: Seq<char>) -> bool {
    (id == name && is_identifier(name)) || exists|k: int|
        0 <= k < roster.len() && is_called(#[trigger] roster[k], name) && is_identity_of(
            roster[k],
            id,
        )
}

/// The identities that a list of names excludes.
pub open spec fn excluded_ids(names: Seq<Seq<char>>, roster: Seq<SkillRecord>) -> Set<Seq<char>> {
    Set::new(
        |id: Seq<char>|
            exists|n: int| 0 <= n < names.len() && #[trigger] excludes(names[n], roster, id),
    )
}

fn called(skill: &SkillRecord, name: &str) -> (r: bool)
    ensures
        r == is_called(*skill, name@),
{
    if same_text(skill.display_name.as_str(), name) {
        return true;
    }
    let mut i: usize = 0;
    while i < skill.bindings.len()
        invariant
            i <= skill.bindings@.len(),
            skill.display_name@ != name@,
            forall|j: int| 0 <= j < i ==> (#[trigger] skill.bindings@[j]).invocation@ != name@,
        decreases skill.bindings@.len() - i,
    {
        if same_text(skill.bindings[i].invocation.as_str(), name) {
            return true;
        }
        i += 1;
    }
    false
}

/// Add every identity of a skill.
fn add_identities(set: &mut NameSet, skill: &SkillRecord)
    requires
        old(set).inv(),
    ensures
        final(set).inv(),
        forall|id: Seq<char>| #[trigger]
            final(set)@.to_set().contains(id) == (old(set)@.to_set().contains(id)
                || is_identity_of(*skill, id)),
{
    let ghost start = set@.to_set();
    set.insert(skill.id.as_str());
    let mut i: usize = 0;
    while i < skill.bindings.len()
        invariant
            i <= skill.bindings@.len(),
            set.inv(),
            forall|id: Seq<char>| #[trigger]
                set@.to_set().contains(id) == (start.contains(id) || skill.id@ == id || exists|
                    j: int,
                | 0 <= j < i && (#[trigger] skill.bindings@[j]).id@ == id),
        decreases skill.bindings@.len() - i,
    {
        let ghost before = set@.to_set();
        set.insert(skill.bindings[i].id.as_str());
        proof {
            assert forall|id: Seq<char>| #[trigger]
                set@.to_set().contains(id) == (start.contains(id) || skill.id@ == id || exists|
                    j: int,
                | 0 <= j < i + 1 && (#[trigger] skill.bindings@[j]).id@ == id) by {
                assert(set@.to_set().contains(id) == (before.contains(id) || id
                    == skill.bindings@[i as int].id@));
                if before.contains(id) && !start.contains(id) && skill.id@ != id {
                    let j = choose|j: int|
                        0 <= j < i && (#[trigger] skill.bindings@[j]).id@ == id;
                    assert(skill.bindings@[j].id@ == id);
                }
                if id == skill.bindings@[i as int].id@ {
                    assert(skill.bindings@[i as int].id@ == id);
                }
            }
        }
        i += 1;
    }
}

/// Add what one name excludes.
fn add_excluded(set: &mut NameSet, name: &str, roster: &Vec<SkillRecord>)
    requires
        old(set).inv(),
    ensures
        final(set).inv(),
        forall|id: Seq<char>| #[trigger]
            final(set)@.to_set().contains(id) == (old(set)@.to_set().contains(id) || excludes(
                name@,
                roster@,
                id,
            )),
{
    let ghost start = set@.to_set();
    if valid_identifier(name) {
        set.insert(name);
    }
    let mut k: usize = 0;
    while k < roster.len()
        invariant
            k <= roster@.len(),
            set.inv(),
            forall|id: Seq<char>| #[trigger]
                set@.to_set().contains(id) == (start.contains(id) || excludes(
                    name@,
                    roster@.take(k as int),
                    id,
                )),
        decreases roster@.len() - k,
    {
        let ghost before = set@.to_set();
        if called(&roster[k], name) {
            add_identities(set, &roster[k]);
        }
        proof {
            assert forall|id: Seq<char>| #[trigger]
                set@.to_set().contains(id) == (start.contains(id) || excludes(
                    name@,
                    roster@.take(k + 1),
                    id,
                )) by {
                one_more_skill(name@, roster@, k as int, id);
                assert(before.contains(id) == (start.contains(id) || excludes(
                    name@,
                    roster@.take(k as int),
                    id,
                )));
            }
        }
        k += 1;
    }
    assert(roster@.take(k as int) =~= roster@);
}

proof fn one_more_skill(name: Seq<char>, roster: Seq<SkillRecord>, k: int, id: Seq<char>)
    requires
        0 <= k < roster.len(),
    ensures
        excludes(name, roster.take(k + 1), id) == (excludes(name, roster.take(k), id) || (is_called(
            roster[k],
            name,
        ) && is_identity_of(roster[k], id))),
{
    let a = roster.take(k);
    let b = roster.take(k + 1);
    assert forall|j: int| 0 <= j < k implies a[j] == b[j] by {}
    assert(b[k] == roster[k]);
    if exists|j: int| 0 <= j < a.len() && is_called(#[trigger] a[j], name) && is_identity_of(
        a[j],
        id,
    ) {
        let j = choose|j: int|
            0 <= j < a.len() && is_called(#[trigger] a[j], name) && is_identity_of(a[j], id);
        assert(is_called(b[j], name) && is_identity_of(b[j], id));
    }
    if exists|j: int| 0 <= j < b.len() && is_called(#[trigger] b[j], name) && is_identity_of(
        b[j],
        id,
    ) {
        let j = choose|j: int|
            0 <= j < b.len() && is_called(#[trigger] b[j], name) && is_identity_of(b[j], id);
        if j < k {
            assert(is_called(a[j], name) && is_identity_of(a[j], id));
        }
    }
}

/// The identities that the configured exclusions hold back.
pub fn excluded_skills(names: &Vec<String>, roster: &Vec<SkillRecord>) -> (set: NameSet)
    ensures
        set.inv(),
        set@.to_set() == excluded_ids(texts(names@), roster@),
{
    let ghost list = texts(names@);
    let mut set: NameSet = NameSet::new();
    let mut i: usize = 0;
    while i < names.len()
        invariant
            i <= names@.len(),
            list == texts(names@),
            set.inv(),
            forall|id: Seq<char>| #[trigger]
                set@.to_set().contains(id) == exists|n: int|
                    0 <= n < i && #[trigger] excludes(list[n], roster@, id),
        decreases names@.len() - i,
    {
        let ghost before = set@.to_set();
        assert(list[i as int] == names@[i as int]@);
        add_excluded(&mut set, names[i].as_str(), roster);
        proof {
            assert forall|id: Seq<char>| #[trigger]
                set@.to_set().contains(id) == exists|n: int|
                    0 <= n < i + 1 && #[trigger] excludes(list[n], roster@, id) by {
                assert(set@.to_set().contains(id) == (before.contains(id) || excludes(
                    list[i as int],
                    roster@,
                    id,
                )));
                if before.contains(id) {
                    let n = choose|n: int|
                        0 <= n < i && #[trigger] excludes(list[n], roster@, id);
                    assert(excludes(list[n], roster@, id));
                }
            }
        }
        i += 1;
    }
    proof {
        assert forall|id: Seq<char>| #[trigger]
            set@.to_set().contains(id) == excluded_ids(list, roster@).contains(id) by {}
        assert(set@.to_set() =~= excluded_ids(list, roster@));
    }
    set
}

/// A binding of the roster by its places.
#[derive(Clone, Copy, Debug, PartialEq, Eq, Structural)]
pub struct BindingPlace {
    pub skill: usize,
    pub binding: usize,
}

/// The verified bindings of one skill among its first `n`.
pub open spec fn verified_bindings(skill: SkillRecord, k: usize, n: int) -> Seq<BindingPlace>
    decreases n,
{
    if n <= 0 || n > skill.bindings@.len() {
        Seq::empty()
    } else {
        let before = verified_bindings(skill, k, n - 1);
        if skill.bindings@[n - 1].visibility is Verified {
            before.push(BindingPlace { skill: k, binding: (n - 1) as usize })
        } else {
            before
        }
    }
}

/// The verified bindings of the first `n` skills, in order.
pub open spec fn advisory(roster: Seq<SkillRecord>, n: int) -> Seq<BindingPlace>
    decreases n,
{
    if n <= 0 || n > roster.len() {
        Seq::empty()
    } else {
        advisory(roster, n - 1) + verified_bindings(
            roster[n - 1],
            (n - 1) as usize,
            roster[n - 1].bindings@.len() as int,
        )
    }
}

/// The bindings that may be suggested.
pub fn advisory_bindings(roster: &Vec<SkillRecord>) -> (list: Vec<BindingPlace>)
    ensures
        list@ == advisory(roster@, roster@.len() as int),
{
    let mut list: Vec<BindingPlace> = Vec::new();
    let mut k: usize = 0;
    while k < roster.len()
        invariant
            k <= roster@.len(),
            list@ == advisory(roster@, k as int),
        decreases roster@.len() - k,
    {
        let skill: &SkillRecord = &roster[k];
        let ghost start = list@;
        let mut i: usize = 0;
        assert(start + verified_bindings(*skill, k, 0) =~= start);
        while i < skill.bindings.len()
            invariant
                i <= skill.bindings@.len(),
                list@ == start + verified_bindings(*skill, k, i as int),
            decreases skill.bindings@.len() - i,
        {
            let verified: bool = match skill.bindings[i].visibility {
                Visibility::Verified { .. } => true,
                Visibility::Unverified => false,
            };
            if verified {
                list.push(BindingPlace { skill: k, binding: i });
                assert(list@ =~= start + verified_bindings(*skill, k, i + 1));
            }
            i += 1;
        }
        k += 1;
    }
    list
}

/// Are the previewed shortlist identities distinct wide candidates within the
/// limit?
pub open spec fn is_shortlist(
    ids: Seq<Seq<char>>,
    candidates: Seq<Seq<char>>,
    limit: nat,
) -> bool {
    &&& ids.len() <= limit
    &&& ids.no_duplicates()
    &&& forall|i: int| 0 <= i < ids.len() ==> candidates.contains(#[trigger] ids[i])
}

pub fn valid_shortlist(ids: &Vec<String>, candidates: &Vec<String>, limit: usize) -> (r: bool)
    ensures
        r == is_shortlist(texts(ids@), texts(candidates@), limit as nat),
{
    let ghost list = texts(ids@);
    if ids.len() > limit {
        return false;
    }
    let mut seen: NameSet = NameSet::new();
    let mut i: usize = 0;
    while i < ids.len()
        invariant
            i <= ids@.len() <= limit,
            list == texts(ids@),
            list.len() == ids@.len(),
            seen.inv(),
            forall|t: Seq<char>| #[trigger]
                seen@.to_set().contains(t) == exists|j: int| 0 <= j < i && #[trigger] list[j] == t,
            forall|a: int, b: int| 0 <= a < b < i ==> list[a] != list[b],
            forall|j: int| 0 <= j < i ==> texts(candidates@).contains(#[trigger] list[j]),
        decreases ids@.len() - i,
    {
        assert(list[i as int] == ids@[i as int]@);
        let ghost before = seen@.to_set();
        if !contains_text(candidates, ids[i].as_str()) {
            return false;
        }
        let added: bool = seen.insert(ids[i].as_str());
        assert(added == !before.contains(list[i as int]));
        if !added {
            proof {
                let j = choose|j: int| 0 <= j < i && #[trigger] list[j] == list[i as int];
                assert(list[j] == list[i as int]);
            }
            return false;
        }
        proof {
            assert forall|a: int, b: int| 0 <= a < b < i + 1 implies list[a] != list[b] by {
                if b == i && list[a] == list[b] {
                    assert(before.contains(list[i as int]));
                }
            }
            assert forall|t: Seq<char>| #[trigger]
                seen@.to_set().contains(t) == exists|j: int|
                    0 <= j < i + 1 && #[trigger] list[j] == t by {
                assert(seen@.to_set().contains(t) == (before.contains(t) || t == list[i as int]));
                if before.contains(t) {
                    let j = choose|j: int| 0 <= j < i && #[trigger] list[j] == t;
                    assert(list[j] == t);
                }
            }
        }
        i += 1;
    }
    assert(list.no_duplicates());
    true
}

} // verus!
