//! How a command line is understood.
use crate::cli::command::{
    cli_value_view, named_command, route_of, user_root_of, FlagReading, Route, Subcommand,
    ValueKind,
};
use crate::cli::request::{rank_refusal, RankFlags, RankRequest, Surroundings};
use crate::cli::settings::RawView;
use crate::pipeline::failure::Exit;
use crate::pipeline::flow::Ending;
use crate::pipeline::reports::{closing_of, ClosingView};
use crate::text::optional_text;
use vstd::prelude::*;

verus! {

/// A command line that begins with a flag ranks: the command is put in before
/// it, and every argument stays, in its order. Any other stays as it is.
pub proof fn flags_rank_by_default(args: Seq<Seq<char>>)
    ensures
        args.len() <= 1 ==> named_command(args) == args,
        args.len() > 1 && args[1].len() > 0 && args[1][0] == '-' && args[1] != "--help"@ && args[1]
            != "-h"@ && args[1] != "--version"@ && args[1] != "-V"@ ==> {
            let named = named_command(args);
            &&& named.len() == args.len() + 1
            &&& named[0] == args[0]
            &&& named[1] == "rank"@
            &&& forall|i: int| 1 <= i < args.len() ==> #[trigger] args[i] == named[i + 1]
        },
        args.len() > 1 && (args[1].len() == 0 || args[1][0] != '-') ==> named_command(args) == args,
        args.len() > 1 && (args[1] == "--help"@ || args[1] == "-h"@ || args[1] == "--version"@
            || args[1] == "-V"@) ==> named_command(args) == args,
{
}

/// A command is run where it is asked for and nothing else is: help asked of a
/// command is its help, and a top-level flag beside one is misplaced. Without a
/// command, help comes before the version, and nothing at all ranks.
pub proof fn commands_are_run_alone(
    help: bool,
    version: bool,
    command: Option<Subcommand>,
    command_help: bool,
)
    ensures
        ({
            let route = route_of(help, version, command, command_help);
            &&& route matches Route::Command(which) ==> command == Some(which) && !help && !version
                && !command_help
            &&& command is Some && !help && !version && !command_help ==> route == Route::Command(
                command->0,
            )
            &&& route is Misplaced <==> command is Some && (help || version)
            &&& route is BareRank <==> command is None && !help && !version
            &&& route is Version <==> command is None && !help && version
            &&& route is Help <==> (command is None && help) || (command is Some && !help
                && !version && command_help)
        }),
{
}

/// The user's configuration lies where it is said to lie, or below the home;
/// only an absolute place will do, and an empty variable is none.
pub proof fn user_configuration_has_a_place(config_home: Seq<char>, home: Seq<char>)
    ensures
        config_home.len() > 0 && config_home[0] == '/' ==> user_root_of(
            Some(config_home),
            Some(home),
        ) == Ok::<Option<Seq<char>>, Seq<char>>(Some(config_home)),
        config_home.len() > 0 && config_home[0] != '/' ==> user_root_of(
            Some(config_home),
            Some(home),
        ) is Err,
        user_root_of(Some(Seq::empty()), Some(home)) == user_root_of(None, Some(home)),
        home.len() > 0 && home[0] == '/' && home.last() != '/' ==> user_root_of(None, Some(home))
            == Ok::<Option<Seq<char>>, Seq<char>>(Some(home + "/.config"@)),
        home.len() > 0 && home[0] != '/' ==> user_root_of(None, Some(home)) is Err,
        user_root_of(None, None) == Ok::<Option<Seq<char>>, Seq<char>>(None),
        user_root_of(None, Some(Seq::empty())) == Ok::<Option<Seq<char>>, Seq<char>>(None),
{
    reveal_strlit("/");
    reveal_strlit(".config");
    reveal_strlit("/.config");
    assert("/"@ + ".config"@ =~= "/.config"@);
    assert(home + "/"@ + ".config"@ =~= home + ("/"@ + ".config"@));
}

/// A flag that is given is read by its kind: a count as an integer, a threshold
/// as a number, a text as it stands; one that cannot be read so is refused, and
/// one that is not given says nothing.
pub proof fn flags_are_read_by_their_kind(name: Seq<char>, kind: ValueKind, flag: FlagReading)
    requires
        name != "shadow"@,
        name != "no-tools"@,
    ensures
        ({
            let value = cli_value_view(name, kind, flag);
            &&& !(flag is Given) ==> value == Ok::<Option<RawView>, Seq<char>>(None)
            &&& flag matches FlagReading::Given { text, integer, float } ==> {
                &&& kind is Text ==> value == Ok::<Option<RawView>, Seq<char>>(
                    Some(RawView::Text(text@)),
                )
                &&& kind is Count ==> (value is Ok <==> integer is Some)
                &&& kind is Count && integer is Some ==> value == Ok::<Option<RawView>, Seq<char>>(
                    Some(RawView::Integer(integer->0)),
                )
                &&& kind is Unit ==> (value is Ok <==> float is Some)
                &&& kind is Unit && float is Some ==> value == Ok::<Option<RawView>, Seq<char>>(
                    Some(RawView::Float(float->0)),
                )
            }
        }),
{
}

/// An ending that abstains is told with its reason, one that is unavailable with
/// its kind, and no other ending is told here.
pub proof fn closings_match_their_ending(
    ending: Ending,
    kind: Seq<char>,
    reason: Seq<char>,
    targets: Seq<Seq<char>>,
)
    ensures
        ({
            let closing = closing_of(ending, kind, reason, targets);
            &&& closing is Abstains <==> ending == Ending::AdmissionAbstains || ending
                == Ending::RerankAbstains || ending == Ending::NoShortlistMatch || ending
                == Ending::LowNeed
            &&& closing is Unavailable <==> ending == Ending::EmptyRoster || ending
                == Ending::AdmissionUnavailable || ending == Ending::RerankUnavailable || ending
                == Ending::Unresolved
            &&& ending == Ending::AdmissionAbstains || ending == Ending::RerankAbstains ==> closing
                == ClosingView::Abstains(reason)
            &&& ending == Ending::AdmissionUnavailable || ending == Ending::RerankUnavailable
                ==> closing->kind == kind
        }),
{
}

/// A ranking is refused where it is late, at odds with itself, badly configured
/// or badly named, and only there.
pub proof fn rankings_are_refused_for_cause(
    flags: RankFlags,
    conflict: Option<Seq<char>>,
    seen: Surroundings,
    at_entry: bool,
    when_ready: bool,
)
    ensures
        rank_refusal(flags, conflict, seen, at_entry, when_ready) is None ==> {
            &&& at_entry && when_ready
            &&& conflict is None
            &&& !flags.save_case
            &&& seen.workspace is Some
            &&& flags.harness is Some ==> flags.harness->0.valid
            &&& flags.why_not is Some ==> flags.why_not->0.valid
        },
        !at_entry ==> rank_refusal(flags, conflict, seen, at_entry, when_ready)->0.exit
            == Exit::Code(6),
        at_entry && conflict is Some ==> {
            let refusal = rank_refusal(flags, conflict, seen, at_entry, when_ready);
            refusal is Some && refusal->0.exit == Exit::Code(2) && refusal->0.message == conflict->0
        },
{
}

/// A request asks for what its flags say: the skills that they require, the
/// roster that they name, a preview where they want one, and the output that
/// they choose; without a choice a terminal gets a table and a pipe gets JSON.
pub proof fn requests_ask_for_what_was_said(
    request: RankRequest,
    flags: RankFlags,
    seen: Surroundings,
)
    requires
        request.is_of(flags, seen),
    ensures
        request.args.dry_run == flags.dry_run,
        request.args.explain == flags.explain,
        request.args.output_json != request.args.output_table,
        flags.json ==> request.args.output_json,
        !flags.json && flags.table ==> request.args.output_table,
        !flags.json && !flags.table ==> (request.args.output_table <==> seen.terminal),
        optional_text(request.args.roster_file) == optional_text(flags.roster),
        request.args.require_skills@.len() == flags.require_skills@.len(),
        forall|i: int|
            0 <= i < flags.require_skills@.len() ==> (#[trigger] request.args.require_skills@[i])@
                == flags.require_skills@[i].text@,
        seen.input_terminal ==> !request.source_options.stdin_supplied,
        optional_text(request.source_options.context) == optional_text(flags.context),
        optional_text(request.source_options.transcript) == optional_text(flags.transcript),
{
    let names = crate::text::texts(request.args.require_skills@);
    assert(names.len() == flags.require_skills@.len());
    assert forall|i: int| 0 <= i < flags.require_skills@.len() implies (
    #[trigger] request.args.require_skills@[i])@ == flags.require_skills@[i].text@ by {
        assert(names[i] == request.args.require_skills@[i]@);
    }
}

} // verus!
