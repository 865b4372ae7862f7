//! Load evidence is resolved without letting registered skill names replace
//! the meaning of the harness's own loader and file-read tools. No path is
//! opened here, and ambiguous argument text is never a successful load.
use crate::chars::{is_text, lower, lowered};
use crate::json::{decode_json, decoded, parsed_json, Json, JsonView};
use crate::text::{chars_of, copy_optional, copy_text, optional_text, same_text};
use vstd::prelude::*;

verus! {

/// A skill that a tool call loads.
#[derive(Clone, Debug)]
pub struct SkillMatch {
    pub skill_id: String,
    pub has_dynamic_arguments: bool,
    pub rendered_content: Option<String>,
}

/// A skill match as characters.
pub struct SkillMatchView {
    pub skill_id: Seq<char>,
    pub has_dynamic_arguments: bool,
    pub rendered_content: Option<Seq<char>>,
}

impl View for SkillMatch {
    type V = SkillMatchView;

    open spec fn view(&self) -> SkillMatchView {
        SkillMatchView {
            skill_id: self.skill_id@,
            has_dynamic_arguments: self.has_dynamic_arguments,
            rendered_content: optional_text(self.rendered_content),
        }
    }
}

/// A skill that can be called by name.
#[derive(Clone, Debug)]
pub struct RegisteredSkill {
    pub name: String,
    pub skill: SkillMatch,
}

/// What a tool call asks for.
#[derive(Clone, Debug)]
pub enum Dispatch {
    /// A reserved tool without usable arguments: no load.
    Refused,
    /// Load the named skill, with arguments of its own or without.
    Load { target: String, has_arguments: bool },
    /// Read the file at this path.
    Read { target: String },
    /// A tool of a registered skill, if it is one.
    Direct,
}

/// A dispatch as characters.
pub enum DispatchView {
    Refused,
    Load(Seq<char>, bool),
    Read(Seq<char>),
    Direct,
}

impl View for Dispatch {
    type V = DispatchView;

    open spec fn view(&self) -> DispatchView {
        match self {
            Dispatch::Refused => DispatchView::Refused,
            Dispatch::Load { target, has_arguments } => DispatchView::Load(target@, *has_arguments),
            Dispatch::Read { target } => DispatchView::Read(target@),
            Dispatch::Direct => DispatchView::Direct,
        }
    }
}

/// The tools that load a skill, in any letter case.
pub open spec fn is_loader(tool: Seq<char>) -> bool {
    lower(tool) == "skill"@ || lower(tool) == "load_skill"@ || lower(tool) == "run_skill"@
}

/// The tools that read a file, in any letter case.
pub open spec fn is_reader(tool: Seq<char>) -> bool {
    lower(tool) == "read_file"@ || lower(tool) == "view_file"@ || lower(tool) == "cat"@ || lower(
        tool,
    ) == "read"@
}

/// A name that a call may give under one of its keys: absent, or a text that
/// is not empty.
pub open spec fn is_name_or_absent(arguments: JsonView, key: Seq<char>) -> bool {
    match arguments.get(key) {
        None => true,
        Some(value) => value.text() is Some && value.text()->0.len() > 0,
    }
}

/// The one text that an object gives under three keys: each of them that is
/// there holds it.
pub open spec fn one_target(
    arguments: JsonView,
    a: Seq<char>,
    b: Seq<char>,
    c: Seq<char>,
) -> Option<Seq<char>> {
    let x = arguments.text_at(a);
    let y = arguments.text_at(b);
    let z = arguments.text_at(c);
    if !is_name_or_absent(arguments, a) || !is_name_or_absent(arguments, b) || !is_name_or_absent(
        arguments,
        c,
    ) {
        None
    } else if x is Some && y is Some && x != y || x is Some && z is Some && x != z || y is Some
        && z is Some && y != z {
        None
    } else if x is Some {
        x
    } else if y is Some {
        y
    } else {
        z
    }
}

/// Is the call given arguments of its own?
pub open spec fn gives_arguments(arguments: JsonView) -> bool {
    match arguments.get("args"@) {
        None => false,
        Some(value) => !(value is Null) && value.text() != Some(Seq::<char>::empty()),
    }
}

/// What a tool call asks for, given its decoded arguments.
pub open spec fn dispatched(tool: Seq<char>, arguments: Option<JsonView>) -> DispatchView {
    if is_loader(tool) {
        if arguments is Some && arguments->0 is Object {
            match one_target(arguments->0, "skill"@, "skill_name"@, "name"@) {
                Some(target) => DispatchView::Load(target, gives_arguments(arguments->0)),
                None => DispatchView::Refused,
            }
        } else {
            DispatchView::Refused
        }
    } else if is_reader(tool) {
        if arguments is Some && arguments->0 is Object {
            match one_target(arguments->0, "path"@, "file_path"@, "target"@) {
                Some(target) => DispatchView::Read(target),
                None => DispatchView::Refused,
            }
        } else {
            DispatchView::Refused
        }
    } else {
        DispatchView::Direct
    }
}

/// The name under a key: absent, unusable or a text.
enum KeyReading<'a> {
    Absent,
    Unusable,
    Name(&'a str),
}

fn read_key<'a>(arguments: &'a Json, key: &str) -> (r: KeyReading<'a>)
    ensures
        match r {
            KeyReading::Absent => arguments@.get(key@) is None,
            KeyReading::Unusable => !is_name_or_absent(arguments@, key@),
            KeyReading::Name(name) => is_name_or_absent(arguments@, key@) && arguments@.text_at(
                key@,
            ) == Some(name@),
        },
{
    match arguments.get(key) {
        None => KeyReading::Absent,
        Some(value) => match value.as_str() {
            Some(name) => if name.unicode_len() > 0 {
                KeyReading::Name(name)
            } else {
                KeyReading::Unusable
            },
            None => KeyReading::Unusable,
        },
    }
}

/// The target so far and the name under the next key.
fn merge_target<'a>(target: Option<&'a str>, reading: KeyReading<'a>) -> (r: Result<
    Option<&'a str>,
    (),
>)
    ensures
        match reading {
            KeyReading::Unusable => r is Err,
            KeyReading::Absent => r == Ok::<Option<&'a str>, ()>(target),
            KeyReading::Name(name) => match target {
                None => r == Ok::<Option<&'a str>, ()>(Some(name)),
                Some(previous) => if previous@ == name@ {
                    r == Ok::<Option<&'a str>, ()>(Some(name))
                } else {
                    r is Err
                },
            },
        },
{
    match reading {
        KeyReading::Unusable => Err(()),
        KeyReading::Absent => Ok(target),
        KeyReading::Name(name) => match target {
            None => Ok(Some(name)),
            Some(previous) => if same_text(previous, name) {
                Ok(Some(name))
            } else {
                Err(())
            },
        },
    }
}

/// The one text that an object gives under three keys.
fn unique_target<'a>(arguments: &'a Json, a: &str, b: &str, c: &str) -> (r: Option<&'a str>)
    ensures
        match r {
            Some(target) => one_target(arguments@, a@, b@, c@) == Some(target@),
            None => one_target(arguments@, a@, b@, c@) is None,
        },
{
    let first: Option<&'a str> = match merge_target(None, read_key(arguments, a)) {
        Ok(target) => target,
        Err(_) => {
            return None;
        },
    };
    let second: Option<&'a str> = match merge_target(first, read_key(arguments, b)) {
        Ok(target) => target,
        Err(_) => {
            return None;
        },
    };
    match merge_target(second, read_key(arguments, c)) {
        Ok(target) => target,
        Err(_) => None,
    }
}

fn has_arguments(arguments: &Json) -> (r: bool)
    ensures
        r == gives_arguments(arguments@),
{
    match arguments.get("args") {
        None => false,
        Some(value) => {
            if value.is_null() {
                return false;
            }
            match value.as_str() {
                Some(text) => {
                    assert(text@.len() == 0 ==> text@ =~= Seq::empty());
                    text.unicode_len() > 0
                },
                None => true,
            }
        },
    }
}

/// Decide what a tool call asks for. Reserved tools come before registered
/// names, and never fall back to one.
pub fn dispatch_arguments(tool_name: &str, arguments: Option<&Json>) -> (r: Dispatch)
    ensures
        r@ == dispatched(
            tool_name@,
            if arguments is Some {
                Some(arguments->0@)
            } else {
                None
            },
        ),
{
    let name: Vec<char> = chars_of(tool_name);
    let lower_name: Vec<char> = lowered(name.as_slice());
    let tool: &[char] = lower_name.as_slice();
    let loader: bool = is_text(tool, "skill") || is_text(tool, "load_skill") || is_text(
        tool,
        "run_skill",
    );
    let reader: bool = is_text(tool, "read_file") || is_text(tool, "view_file") || is_text(
        tool,
        "cat",
    ) || is_text(tool, "read");
    if !loader && !reader {
        return Dispatch::Direct;
    }
    let object: &Json = match arguments {
        Some(value) => if value.is_object() {
            value
        } else {
            return Dispatch::Refused;
        },
        None => {
            return Dispatch::Refused;
        },
    };
    if loader {
        match unique_target(object, "skill", "skill_name", "name") {
            Some(target) => Dispatch::Load {
                target: copy_text(target),
                has_arguments: has_arguments(object),
            },
            None => Dispatch::Refused,
        }
    } else {
        match unique_target(object, "path", "file_path", "target") {
            Some(target) => Dispatch::Read { target: copy_text(target) },
            None => Dispatch::Refused,
        }
    }
}

/// The decoded arguments of a call, where they are a document within the
/// bound.
pub open spec fn call_arguments(raw: Option<Seq<char>>, max_bytes: nat) -> Option<JsonView> {
    match raw {
        None => None,
        Some(text) => {
            let bytes = vstd::utf8::encode_utf8(text);
            match decoded(bytes, max_bytes, parsed_json(bytes)) {
                Ok(value) => Some(value),
                Err(_) => None,
            }
        },
    }
}

/// Decide what a tool call with raw arguments asks for.
pub fn dispatch_tool(tool_name: &str, arguments_json: Option<&str>, max_bytes: usize) -> (r: Dispatch)
    ensures
        r@ == dispatched(
            tool_name@,
            call_arguments(
                if arguments_json is Some {
                    Some(arguments_json->0@)
                } else {
                    None
                },
                max_bytes as nat,
            ),
        ),
{
    match arguments_json {
        None => dispatch_arguments(tool_name, None),
        Some(raw) => match decode_json(raw.as_bytes(), max_bytes) {
            Ok(value) => dispatch_arguments(tool_name, Some(&value)),
            Err(_) => dispatch_arguments(tool_name, None),
        },
    }
}

/// The first registered skill with a name.
pub open spec fn registered_at(skills: Seq<RegisteredSkill>, name: Seq<char>) -> Option<
    SkillMatchView,
>
    decreases skills.len(),
{
    if skills.len() == 0 {
        None
    } else if skills[0].name@ == name {
        Some(skills[0].skill@)
    } else {
        registered_at(skills.skip(1), name)
    }
}

fn find_registered(skills: &Vec<RegisteredSkill>, name: &str) -> (r: Option<SkillMatch>)
    ensures
        match r {
            Some(skill) => registered_at(skills@, name@) == Some(skill@),
            None => registered_at(skills@, name@) is None,
        },
{
    let mut i: usize = 0;
    assert(skills@.skip(0) =~= skills@);
    while i < skills.len()
        invariant
            i <= skills@.len(),
            registered_at(skills@, name@) == registered_at(skills@.skip(i as int), name@),
        decreases skills@.len() - i,
    {
        assert(skills@.skip(i as int)[0] == skills@[i as int]);
        assert(skills@.skip(i as int).skip(1) =~= skills@.skip(i + 1));
        if same_text(skills[i].name.as_str(), name) {
            let skill: &SkillMatch = &skills[i].skill;
            return Some(
                SkillMatch {
                    skill_id: copy_text(skill.skill_id.as_str()),
                    has_dynamic_arguments: skill.has_dynamic_arguments,
                    rendered_content: copy_optional(&skill.rendered_content),
                },
            );
        }
        i += 1;
    }
    None
}

/// A skill called with arguments of its own: what was rendered without them
/// does not hold.
pub open spec fn with_arguments(skill: SkillMatchView) -> SkillMatchView {
    SkillMatchView { has_dynamic_arguments: true, rendered_content: None, ..skill }
}

/// The skill that a call loads. `at_path` is the skill at the path of a read.
pub open spec fn resolved(
    dispatch: DispatchView,
    tool: Seq<char>,
    skills: Seq<RegisteredSkill>,
    at_path: Option<SkillMatchView>,
) -> Option<SkillMatchView> {
    match dispatch {
        DispatchView::Refused => None,
        DispatchView::Load(target, has_arguments) => match registered_at(skills, target) {
            None => None,
            Some(skill) => if has_arguments {
                Some(with_arguments(skill))
            } else {
                Some(skill)
            },
        },
        DispatchView::Read(_) => at_path,
        DispatchView::Direct => registered_at(skills, tool),
    }
}

/// Resolve the skill that a dispatched call loads.
pub fn resolve_tool(
    dispatch: &Dispatch,
    tool_name: &str,
    skills: &Vec<RegisteredSkill>,
    at_path: Option<SkillMatch>,
) -> (r: Option<SkillMatch>)
    ensures
        ({
            let expected = resolved(
                dispatch@,
                tool_name@,
                skills@,
                if at_path is Some {
                    Some(at_path->0@)
                } else {
                    None
                },
            );
            match r {
                Some(skill) => expected == Some(skill@),
                None => expected is None,
            }
        }),
{
    match dispatch {
        Dispatch::Refused => None,
        Dispatch::Load { target, has_arguments } => match find_registered(
            skills,
            target.as_str(),
        ) {
            None => None,
            Some(skill) => if *has_arguments {
                Some(
                    SkillMatch {
                        skill_id: skill.skill_id,
                        has_dynamic_arguments: true,
                        rendered_content: None,
                    },
                )
            } else {
                Some(skill)
            },
        },
        Dispatch::Read { .. } => at_path,
        Dispatch::Direct => find_registered(skills, tool_name),
    }
}

/// A registered name cannot take over a reserved tool: whatever is registered
/// under the tool's own name, a loader call gives the skill that its arguments
/// name, and a read never gives a registered name.
pub proof fn reserved_tools_keep_their_meaning(
    tool: Seq<char>,
    arguments: Option<JsonView>,
    skills: Seq<RegisteredSkill>,
    at_path: Option<SkillMatchView>,
)
    requires
        is_loader(tool) || is_reader(tool),
    ensures
        !(dispatched(tool, arguments) is Direct),
        dispatched(tool, arguments) is Refused ==> resolved(
            dispatched(tool, arguments),
            tool,
            skills,
            at_path,
        ) is None,
        dispatched(tool, arguments) is Read ==> resolved(
            dispatched(tool, arguments),
            tool,
            skills,
            at_path,
        ) == at_path,
        is_loader(tool) && dispatched(tool, arguments) is Load ==> arguments is Some && one_target(
            arguments->0,
            "skill"@,
            "skill_name"@,
            "name"@,
        ) is Some,
{
}

} // verus!
