//! What a tool call asks for, by what its arguments say.
use crate::chars::{lower, lower_char};
use crate::context::tool::association::{
    registered, state_of, statuses_registered, statuses_taken, table_taken, taken, PendingCall,
    TakenCall,
};
use crate::context::tool::dispatch::{
    dispatched, registered_at, resolved, DispatchView, RegisteredSkill, SkillMatchView,
};
use crate::context::ToolStatus;
use crate::json::JsonView;
use vstd::prelude::*;

verus! {

/// Is this a tool that loads a skill?
pub open spec fn loads(tool: Seq<char>) -> bool {
    tool == "skill"@ || tool == "load_skill"@ || tool == "run_skill"@
}

/// Is this a tool that reads a file?
pub open spec fn reads(tool: Seq<char>) -> bool {
    tool == "read_file"@ || tool == "view_file"@ || tool == "cat"@ || tool == "read"@
}

/// Does a member give this name, or nothing at all?
pub open spec fn gives_or_nothing(arguments: JsonView, key: Seq<char>, name: Seq<char>) -> bool {
    arguments.get(key) is None || arguments.get(key) == Some(JsonView::Text(name))
}

/// Do the members under three keys give this one name?
pub open spec fn gives_name(
    arguments: JsonView,
    a: Seq<char>,
    b: Seq<char>,
    c: Seq<char>,
    name: Seq<char>,
) -> bool {
    &&& arguments is Object
    &&& name.len() > 0
    &&& gives_or_nothing(arguments, a, name)
    &&& gives_or_nothing(arguments, b, name)
    &&& gives_or_nothing(arguments, c, name)
    &&& !(arguments.get(a) is None && arguments.get(b) is None && arguments.get(c) is None)
}

proof fn plain_tools_are_lower(tool: Seq<char>)
    requires
        loads(tool) || reads(tool),
    ensures
        lower(tool) == tool,
{
    reveal_strlit("skill");
    reveal_strlit("load_skill");
    reveal_strlit("run_skill");
    reveal_strlit("read_file");
    reveal_strlit("view_file");
    reveal_strlit("cat");
    reveal_strlit("read");
    assert(forall|i: int| 0 <= i < tool.len() ==> !('A' <= #[trigger] tool[i] <= 'Z'));
    assert(lower(tool) =~= tool);
}

/// A loader loads the one skill that its arguments name, under whichever of its
/// keys they do; it is told apart whether the call has arguments of its own.
pub proof fn loaders_load_the_named_skill(tool: Seq<char>, arguments: JsonView, name: Seq<char>)
    requires
        loads(tool),
        gives_name(arguments, "skill"@, "skill_name"@, "name"@, name),
    ensures
        dispatched(tool, Some(arguments)) is Load,
        dispatched(tool, Some(arguments))->Load_0 == name,
        arguments.get("args"@) is None || arguments.get("args"@) == Some(JsonView::Null)
            || arguments.get("args"@) == Some(JsonView::Text(Seq::empty())) <==> !dispatched(
            tool,
            Some(arguments),
        )->Load_1,
{
    plain_tools_are_lower(tool);
}

/// A reader reads the one file that its arguments name.
pub proof fn readers_read_the_named_file(tool: Seq<char>, arguments: JsonView, name: Seq<char>)
    requires
        reads(tool),
        gives_name(arguments, "path"@, "file_path"@, "target"@, name),
    ensures
        dispatched(tool, Some(arguments)) == DispatchView::Read(name),
{
    plain_tools_are_lower(tool);
    reserved_tools_differ(tool);
}

/// A reserved tool whose arguments name nothing, an empty or another kind of
/// value, or two different names, is refused: there is no name that they give.
pub proof fn unclear_calls_are_refused(tool: Seq<char>, arguments: Option<JsonView>)
    requires
        loads(tool) || reads(tool),
        arguments is Some && loads(tool) ==> forall|name: Seq<char>|
            !#[trigger] gives_name(arguments->0, "skill"@, "skill_name"@, "name"@, name),
        arguments is Some && reads(tool) ==> forall|name: Seq<char>|
            !#[trigger] gives_name(arguments->0, "path"@, "file_path"@, "target"@, name),
    ensures
        dispatched(tool, arguments) == DispatchView::Refused,
{
    plain_tools_are_lower(tool);
    match dispatched(tool, arguments) {
        DispatchView::Load(name, _) => {
            let given = arguments->0;
            named_by_a_text(given, "skill"@, name);
            named_by_a_text(given, "skill_name"@, name);
            named_by_a_text(given, "name"@, name);
            assert(gives_name(given, "skill"@, "skill_name"@, "name"@, name));
            if !loads(tool) {
                reserved_tools_differ(tool);
            }
        },
        DispatchView::Read(name) => {
            let given = arguments->0;
            assert(gives_name(given, "path"@, "file_path"@, "target"@, name));
            if !reads(tool) {
                reserved_tools_differ(tool);
            }
        },
        _ => {},
    }
}

proof fn named_by_a_text(arguments: JsonView, key: Seq<char>, name: Seq<char>)
    ensures
        arguments.text_at(key) == Some(name) ==> arguments.get(key) == Some(JsonView::Text(name)),
{
}

proof fn reserved_tools_differ(tool: Seq<char>)
    ensures
        !(loads(tool) && reads(tool)),
{
    reveal_strlit("skill");
    reveal_strlit("load_skill");
    reveal_strlit("run_skill");
    reveal_strlit("read_file");
    reveal_strlit("view_file");
    reveal_strlit("cat");
    reveal_strlit("read");
    assert(tool == "read_file"@ ==> tool.len() == 9 && tool[1] == 'e');
    assert(tool == "view_file"@ ==> tool.len() == 9 && tool[0] == 'v');
    assert(tool == "cat"@ ==> tool.len() == 3);
    assert(tool == "read"@ ==> tool.len() == 4);
    assert(tool == "skill"@ ==> tool.len() == 5);
    assert(tool == "load_skill"@ ==> tool.len() == 10);
    assert(tool == "run_skill"@ ==> tool.len() == 9 && tool[0] == 'r' && tool[1] == 'u');
}

/// The letter case of a tool's name makes no difference to what it asks for.
pub proof fn tools_are_known_in_any_case(
    tool: Seq<char>,
    other: Seq<char>,
    arguments: Option<JsonView>,
)
    requires
        tool.len() == other.len(),
        forall|i: int|
            0 <= i < tool.len() ==> #[trigger] tool[i] == other[i] || ('A' <= tool[i] <= 'Z'
                && other[i] as u32 == tool[i] as u32 + 32),
    ensures
        dispatched(tool, arguments) == dispatched(other, arguments),
{
    assert forall|i: int| 0 <= i < tool.len() implies lower_char(#[trigger] tool[i]) == lower_char(
        other[i],
    ) by {}
    assert(lower(tool) =~= lower(other));
}

/// Any other tool is taken for a registered skill's own, whatever it is given.
pub proof fn other_tools_stand_for_themselves(
    tool: Seq<char>,
    arguments: Option<JsonView>,
    skills: Seq<RegisteredSkill>,
    at_path: Option<SkillMatchView>,
    k: int,
)
    requires
        !loads(lower(tool)),
        !reads(lower(tool)),
        0 <= k <= skills.len(),
        forall|j: int| 0 <= j < k ==> (#[trigger] skills[j]).name@ != tool,
        k < skills.len() ==> skills[k].name@ == tool,
    ensures
        resolved(dispatched(tool, arguments), tool, skills, at_path) == (if k < skills.len() {
            Some(skills[k].skill@)
        } else {
            None
        }),
{
    first_registration_counts(skills, tool, k);
}

proof fn first_registration_counts(skills: Seq<RegisteredSkill>, name: Seq<char>, k: int)
    requires
        0 <= k <= skills.len(),
        forall|j: int| 0 <= j < k ==> (#[trigger] skills[j]).name@ != name,
        k < skills.len() ==> skills[k].name@ == name,
    ensures
        registered_at(skills, name) == (if k < skills.len() {
            Some(skills[k].skill@)
        } else {
            None
        }),
    decreases k,
{
    if k > 0 {
        let rest = skills.skip(1);
        assert(skills[0].name@ != name);
        assert forall|j: int| 0 <= j < k - 1 implies (#[trigger] rest[j]).name@ != name by {
            assert(rest[j] == skills[j + 1]);
        }
        if k < skills.len() {
            assert(rest[k - 1] == skills[k]);
        }
        first_registration_counts(rest, name, k - 1);
    }
}

/// A loaded skill is the first that is registered under its name. Without
/// arguments of its own it is what was registered; with them its content is not
/// known beforehand.
pub proof fn loads_give_the_registered_skill(
    name: Seq<char>,
    has_arguments: bool,
    tool: Seq<char>,
    skills: Seq<RegisteredSkill>,
    at_path: Option<SkillMatchView>,
    k: int,
)
    requires
        0 <= k <= skills.len(),
        forall|j: int| 0 <= j < k ==> (#[trigger] skills[j]).name@ != name,
        k < skills.len() ==> skills[k].name@ == name,
    ensures
        ({
            let found = resolved(DispatchView::Load(name, has_arguments), tool, skills, at_path);
            &&& found is Some <==> k < skills.len()
            &&& k < skills.len() ==> {
                &&& found->0.skill_id == skills[k].skill@.skill_id
                &&& !has_arguments ==> found->0 == skills[k].skill@
                &&& has_arguments ==> found->0.has_dynamic_arguments
                    && found->0.rendered_content is None
            }
        }),
{
    first_registration_counts(skills, name, k);
}

/// A call that is alone under its key waits for its result, and the result that
/// comes under the key is its own; a result without a call belongs to none.
pub proof fn results_find_their_call(
    table: Map<Seq<Seq<char>>, PendingCall>,
    key: Seq<Seq<char>>,
    other: Seq<Seq<char>>,
    index: usize,
    sequential: bool,
    statuses: Seq<ToolStatus>,
)
    requires
        !table.contains_key(key),
    ensures
        ({
            let called = table.insert(
                key,
                registered(state_of(table, key), index, sequential, false),
            );
            &&& taken(state_of(called, key)) == (TakenCall {
                invocation: Some(index),
                ambiguous: false,
            })
            &&& statuses_registered(state_of(table, key), index, sequential, statuses) == statuses
            &&& statuses_taken(state_of(called, key), statuses) == statuses
            &&& other != key ==> state_of(called, other) == state_of(table, other)
            &&& other != key ==> state_of(table_taken(called, key), other) == state_of(table, other)
        }),
        taken(state_of(table, key)) == (TakenCall { invocation: None, ambiguous: false }),
        table_taken(table, key) == table,
{
}

/// A call whose result came with it, or came already, makes way for the next one
/// of a sequential tool, and the next one's result is the next one's own.
pub proof fn sequential_calls_follow_each_other(
    table: Map<Seq<Seq<char>>, PendingCall>,
    key: Seq<Seq<char>>,
    first: usize,
    second: usize,
    statuses: Seq<ToolStatus>,
)
    requires
        state_of(table, key) == Some(PendingCall::Completed(first)),
    ensures
        taken(Some(registered(state_of(table, key), second, true, false))) == (TakenCall {
            invocation: Some(second),
            ambiguous: false,
        }),
        registered(state_of(table, key), second, true, true) == PendingCall::Completed(second),
        statuses_registered(state_of(table, key), second, true, statuses) == statuses,
{
}

} // verus!
