//! The requests that commands make, from their flags and their surroundings.
use crate::cli::command::{
    cli_value, cli_value_view, environment_settings, invalid, invalid_view, is_stdin_supplied,
    json_output, setting_places, user_config_root, user_root_of, FlagReading, PageError, ValueKind,
};
use crate::cli::command::{holds_bits, page_failure, MODE_FIFO, MODE_REGULAR, MODE_SOCKET};
use crate::cli::settings::{setting_views, RawView, Setting};
use crate::pipeline::failure::{
    failing, failing_with, failure, failure_with, FailureView, PipelineFailure,
};
use crate::pipeline::publication::RankArgs;
use crate::runtime::{clock_time, EntryClock};
use crate::text::{chars_of, copy_optional, copy_text, optional_text, texts};
use vstd::prelude::*;

verus! {

/// May a local inspection go on at this time?
pub open spec fn is_timely(clock: EntryClock, elapsed_ms: u128) -> bool {
    clock_time(elapsed_ms) < clock.limits().latest_work_ms()
}

pub open spec fn late_view() -> FailureView {
    failing(6, "timeout"@, "Local inspection deadline exceeded"@)
}

/// Refuse to go on after the last moment for work.
pub fn timely(clock: &EntryClock, elapsed_ms: u128) -> (r: Result<(), PipelineFailure>)
    ensures
        match r {
            Ok(_) => is_timely(*clock, elapsed_ms),
            Err(f) => !is_timely(*clock, elapsed_ms) && f@ == late_view(),
        },
{
    match clock.admit_new_work(elapsed_ms) {
        Ok(_) => Ok(()),
        Err(_) => Err(failure(6, "timeout", "Local inspection deadline exceeded")),
    }
}

/// A setting that a flag may give.
#[derive(Clone, Debug)]
pub struct SettingFlag {
    pub path: String,
    /// The flag without its dashes.
    pub name: String,
    pub kind: ValueKind,
    pub reading: FlagReading,
}

/// The settings that the flags give, or what is wrong with the first flag that
/// cannot be read.
pub open spec fn flag_values(flags: Seq<SettingFlag>) -> Result<
    Seq<(Seq<char>, RawView)>,
    Seq<char>,
>
    decreases flags.len(),
{
    if flags.len() == 0 {
        Ok(Seq::empty())
    } else {
        let last = flags.last();
        match flag_values(flags.drop_last()) {
            Err(message) => Err(message),
            Ok(before) => match cli_value_view(last.name@, last.kind, last.reading) {
                Err(message) => Err(message),
                Ok(None) => Ok(before),
                Ok(Some(value)) => Ok(before.push((last.path@, value))),
            },
        }
    }
}

proof fn first_error_stays(flags: Seq<SettingFlag>, n: int)
    requires
        0 <= n <= flags.len(),
        flag_values(flags.take(n)) is Err,
    ensures
        flag_values(flags) == flag_values(flags.take(n)),
    decreases flags.len() - n,
{
    if n == flags.len() {
        assert(flags.take(n) =~= flags);
    } else {
        assert(flags.take(n + 1).drop_last() =~= flags.take(n));
        first_error_stays(flags, n + 1);
    }
}

/// The settings that the flags give.
pub fn cli_settings(flags: &Vec<SettingFlag>) -> (r: Result<Vec<Setting>, PipelineFailure>)
    ensures
        match flag_values(flags@) {
            Ok(values) => r is Ok && setting_views(r->Ok_0@) == values,
            Err(message) => r is Err && r->Err_0@ == invalid_view(message),
        },
{
    let mut settings: Vec<Setting> = Vec::new();
    let mut i: usize = 0;
    assert(setting_views(settings@) =~= Seq::empty());
    assert(flags@.take(0) =~= Seq::empty());
    while i < flags.len()
        invariant
            i <= flags@.len(),
            flag_values(flags@.take(i as int)) == Ok::<Seq<(Seq<char>, RawView)>, Seq<char>>(
                setting_views(settings@),
            ),
        decreases flags@.len() - i,
    {
        assert(flags@.take(i + 1).drop_last() =~= flags@.take(i as int));
        assert(flags@.take(i + 1).last() == flags@[i as int]);
        let flag: &SettingFlag = &flags[i];
        let ghost before = setting_views(settings@);
        match cli_value(flag.name.as_str(), flag.kind, &flag.reading) {
            Ok(Some(value)) => {
                let setting = Setting { path: copy_text(flag.path.as_str()), value };
                settings.push(setting);
                assert(setting_views(settings@) =~= before.push((flag.path@, value@)));
            },
            Ok(None) => {},
            Err(f) => {
                proof {
                    first_error_stays(flags@, i + 1);
                }
                return Err(f);
            },
        }
        i += 1;
    }
    assert(flags@.take(i as int) =~= flags@);
    Ok(settings)
}

/// What the process finds around it.
#[derive(Clone, Debug)]
pub struct Surroundings {
    /// Is the output a terminal?
    pub terminal: bool,
    pub input_terminal: bool,
    pub input_mode: Option<u32>,
    /// The names of the environment's variables.
    pub variables: Vec<String>,
    /// How many settings a layer can hold.
    pub layer_entries: usize,
    /// The current directory, where there is one.
    pub workspace: Option<String>,
    pub config_home: Option<String>,
    pub home: Option<String>,
}

impl Surroundings {
    pub open spec fn places(self) -> Seq<usize> {
        setting_places(texts(self.variables@), self.variables@.len() as int)
    }

    pub open spec fn user_root(self) -> Result<Option<Seq<char>>, Seq<char>> {
        user_root_of(optional_text(self.config_home), optional_text(self.home))
    }
}

/// The settings of the flags and of the environment.
pub struct Sources {
    pub cli: Vec<Setting>,
    /// The variables that may hold settings, by place.
    pub environment: Vec<usize>,
}

pub open spec fn sources_refusal(flags: Seq<SettingFlag>, seen: Surroundings) -> Option<FailureView> {
    match flag_values(flags) {
        Err(message) => Some(invalid_view(message)),
        Ok(_) => if seen.places().len() > seen.layer_entries {
            Some(invalid_view("Too many environment settings"@))
        } else {
            None
        },
    }
}

impl Sources {
    pub open spec fn are(self, flags: Seq<SettingFlag>, seen: Surroundings) -> bool {
        &&& flag_values(flags) == Ok::<Seq<(Seq<char>, RawView)>, Seq<char>>(
            setting_views(self.cli@),
        )
        &&& self.environment@ == seen.places()
    }
}

fn gather(flags: &Vec<SettingFlag>, seen: &Surroundings) -> (r: Result<Sources, PipelineFailure>)
    ensures
        match r {
            Ok(sources) => sources_refusal(flags@, *seen) is None && sources.are(flags@, *seen),
            Err(f) => sources_refusal(flags@, *seen) == Some(f@),
        },
{
    let cli: Vec<Setting> = match cli_settings(flags) {
        Ok(list) => list,
        Err(f) => {
            return Err(f);
        },
    };
    match environment_settings(&seen.variables, seen.layer_entries) {
        Ok(environment) => Ok(Sources { cli, environment }),
        Err(f) => Err(f),
    }
}

pub open spec fn places_refusal(seen: Surroundings) -> Option<FailureView> {
    if seen.workspace is None {
        Some(invalid_view("Workspace is unavailable"@))
    } else {
        match seen.user_root() {
            Ok(_) => None,
            Err(message) => Some(invalid_view(message)),
        }
    }
}

fn optional_ref(text: &Option<String>) -> (r: Option<&str>)
    ensures
        crate::cli::command::optional_str(r) == optional_text(*text),
{
    match text {
        Some(s) => Some(s.as_str()),
        None => None,
    }
}

fn locate(seen: &Surroundings) -> (r: Result<(String, Option<String>), PipelineFailure>)
    ensures
        match r {
            Ok(found) => places_refusal(*seen) is None && seen.workspace is Some && found.0@
                == seen.workspace->0@ && seen.user_root() == Ok::<Option<Seq<char>>, Seq<char>>(
                optional_text(found.1),
            ),
            Err(f) => places_refusal(*seen) == Some(f@),
        },
{
    let workspace: String = match &seen.workspace {
        Some(path) => copy_text(path.as_str()),
        None => {
            return Err(invalid("Workspace is unavailable"));
        },
    };
    match user_config_root(optional_ref(&seen.config_home), optional_ref(&seen.home)) {
        Ok(root) => Ok((workspace, root)),
        Err(f) => Err(f),
    }
}

/// An identifier from the command line, and whether it may be one.
#[derive(Clone, Debug)]
pub struct Named {
    pub text: String,
    pub valid: bool,
}

/// The flags of a ranking.
#[derive(Clone, Debug)]
pub struct RankFlags {
    pub json: bool,
    pub table: bool,
    pub dry_run: bool,
    pub save_case: bool,
    pub explain: bool,
    pub context: Option<String>,
    pub transcript: Option<String>,
    pub harness: Option<Named>,
    pub session: Option<String>,
    pub roster: Option<String>,
    pub require_skills: Vec<Named>,
    pub why_not: Option<Named>,
    pub settings: Vec<SettingFlag>,
}

impl RankFlags {
    pub open spec fn is_bare(self) -> bool {
        &&& !self.json && !self.table && !self.dry_run && !self.save_case && !self.explain
        &&& self.context is None && self.transcript is None && self.harness is None
        &&& self.session is None && self.roster is None && self.why_not is None
        &&& self.require_skills@.len() == 0 && self.settings@.len() == 0
    }

    /// The flags of a program that is called with no argument.
    pub fn bare() -> (flags: RankFlags)
        ensures
            flags.is_bare(),
    {
        RankFlags {
            json: false,
            table: false,
            dry_run: false,
            save_case: false,
            explain: false,
            context: None,
            transcript: None,
            harness: None,
            session: None,
            roster: None,
            require_skills: Vec::new(),
            why_not: None,
            settings: Vec::new(),
        }
    }
}

/// Where a ranking takes its session from.
#[derive(Clone, Debug)]
pub struct SourceOptions {
    pub stdin_supplied: bool,
    pub hook: bool,
    pub context: Option<String>,
    pub transcript: Option<String>,
    pub harness: Option<String>,
    pub cass_session: Option<String>,
    pub latest: bool,
}

/// A ranking that may start.
pub struct RankRequest {
    pub args: RankArgs,
    pub sources: Sources,
    pub source_options: SourceOptions,
}

pub open spec fn named_texts(list: Seq<Named>) -> Seq<Seq<char>> {
    list.map_values(|n: Named| n.text@)
}

pub open spec fn named_text(name: Option<Named>) -> Option<Seq<char>> {
    match name {
        Some(n) => Some(n.text@),
        None => None,
    }
}

pub open spec fn is_refused(name: Option<Named>) -> bool {
    name is Some && !name->0.valid
}

/// The first name that is no identifier.
pub open spec fn first_invalid(list: Seq<Named>) -> Option<Seq<char>>
    decreases list.len(),
{
    if list.len() == 0 {
        None
    } else if !list[0].valid {
        Some(list[0].text@)
    } else {
        first_invalid(list.drop_first())
    }
}

pub open spec fn save_case_message() -> Seq<char> {
    "--save-case (case capture) is planned for P5 and is not available in this build"@
}

/// Why a ranking is refused before it starts: the first of these that holds.
pub open spec fn rank_refusal(
    flags: RankFlags,
    conflict: Option<Seq<char>>,
    seen: Surroundings,
    timely_at_entry: bool,
    timely_when_ready: bool,
) -> Option<FailureView> {
    if !timely_at_entry {
        Some(late_view())
    } else if conflict is Some {
        Some(failing(2, "invalid-usage"@, conflict->0))
    } else if flags.save_case {
        Some(failing(2, "invalid-usage"@, save_case_message()))
    } else if sources_refusal(flags.settings@, seen) is Some {
        sources_refusal(flags.settings@, seen)
    } else if places_refusal(seen) is Some {
        places_refusal(seen)
    } else if is_refused(flags.harness) {
        Some(invalid_view("Invalid harness ID"@))
    } else if first_invalid(flags.require_skills@) is Some {
        Some(
            failing_with(
                5,
                "unresolved-explicit"@,
                "Invalid skill ID: "@,
                first_invalid(flags.require_skills@)->0,
            ),
        )
    } else if is_refused(flags.why_not) {
        Some(
            failing_with(
                2,
                "invalid-usage"@,
                "Invalid skill ID for --why-not: "@,
                flags.why_not->0.text@,
            ),
        )
    } else if !timely_when_ready {
        Some(late_view())
    } else {
        None
    }
}

/// Is something supplied on the input?
pub open spec fn input_supplied(seen: Surroundings) -> bool {
    !seen.input_terminal && match seen.input_mode {
        Some(m) => holds_bits(m, MODE_FIFO) || holds_bits(m, MODE_SOCKET) || holds_bits(
            m,
            MODE_REGULAR,
        ),
        None => false,
    }
}

pub open spec fn nonempty(text: Option<Seq<char>>) -> Option<Seq<char>> {
    match text {
        Some(t) => if t.len() > 0 {
            Some(t)
        } else {
            None
        },
        None => None,
    }
}

impl RankRequest {
    /// The request that these flags make here.
    pub open spec fn is_of(self, flags: RankFlags, seen: Surroundings) -> bool {
        &&& self.sources.are(flags.settings@, seen)
        &&& seen.workspace is Some && self.args.workspace@ == seen.workspace->0@
        &&& seen.user_root() == Ok::<Option<Seq<char>>, Seq<char>>(
            optional_text(self.args.user_config_root),
        )
        &&& optional_text(self.args.home) == nonempty(optional_text(seen.home))
        &&& self.args.cache_dir is None
        &&& texts(self.args.require_skills@) == named_texts(flags.require_skills@)
        &&& self.args.shortlist_ids@.len() == 0
        &&& optional_text(self.args.roster_file) == optional_text(flags.roster)
        &&& self.args.explain == flags.explain
        &&& optional_text(self.args.why_not) == named_text(flags.why_not)
        &&& self.args.output_json == (flags.json || (!flags.table && !seen.terminal))
        &&& self.args.output_table == !self.args.output_json
        &&& self.args.dry_run == flags.dry_run
        &&& self.source_options.stdin_supplied == input_supplied(seen)
        &&& !self.source_options.hook
        &&& optional_text(self.source_options.context) == optional_text(flags.context)
        &&& optional_text(self.source_options.transcript) == optional_text(flags.transcript)
        &&& optional_text(self.source_options.harness) == named_text(flags.harness)
        &&& optional_text(self.source_options.cass_session) == optional_text(flags.session)
        &&& !self.source_options.latest
    }
}

fn accept_skills(list: &Vec<Named>) -> (r: Result<Vec<String>, PipelineFailure>)
    ensures
        match r {
            Ok(names) => first_invalid(list@) is None && texts(names@) == named_texts(list@),
            Err(f) => first_invalid(list@) is Some && f@ == failing_with(
                5,
                "unresolved-explicit"@,
                "Invalid skill ID: "@,
                first_invalid(list@)->0,
            ),
        },
{
    let mut names: Vec<String> = Vec::new();
    let mut i: usize = 0;
    assert(list@.skip(0) =~= list@);
    while i < list.len()
        invariant
            i <= list@.len(),
            names@.len() == i,
            forall|j: int| 0 <= j < i ==> (#[trigger] names@[j])@ == list@[j].text@,
            first_invalid(list@) == first_invalid(list@.skip(i as int)),
        decreases list@.len() - i,
    {
        assert(list@.skip(i as int)[0] == list@[i as int]);
        assert(list@.skip(i as int).drop_first() =~= list@.skip(i + 1));
        if !list[i].valid {
            return Err(
                failure_with(5, "unresolved-explicit", "Invalid skill ID: ", list[i].text.as_str()),
            );
        }
        names.push(copy_text(list[i].text.as_str()));
        i += 1;
    }
    assert(texts(names@) =~= named_texts(list@));
    Ok(names)
}

fn copy_name(name: &Option<Named>) -> (text: Option<String>)
    ensures
        optional_text(text) == named_text(*name),
{
    match name {
        Some(n) => Some(copy_text(n.text.as_str())),
        None => None,
    }
}

fn refused(name: &Option<Named>) -> (r: bool)
    ensures
        r == is_refused(*name),
{
    match name {
        Some(n) => !n.valid,
        None => false,
    }
}

fn copy_nonempty(text: &Option<String>) -> (copy: Option<String>)
    ensures
        optional_text(copy) == nonempty(optional_text(*text)),
{
    match text {
        Some(t) => if t.as_str().unicode_len() > 0 {
            Some(copy_text(t.as_str()))
        } else {
            None
        },
        None => None,
    }
}

/// The request of a ranking, given the first conflict among its effects. The
/// clock is read on entry and when the request is ready.
pub fn rank_command(
    clock: &EntryClock,
    flags: &RankFlags,
    conflict: &Option<String>,
    seen: &Surroundings,
    entered_ms: u128,
    ready_ms: u128,
) -> (r: Result<RankRequest, PipelineFailure>)
    ensures
        ({
            let refusal = rank_refusal(
                *flags,
                optional_text(*conflict),
                *seen,
                is_timely(*clock, entered_ms),
                is_timely(*clock, ready_ms),
            );
            match r {
                Ok(request) => refusal is None && request.is_of(*flags, *seen),
                Err(f) => refusal == Some(f@),
            }
        }),
{
    match timely(clock, entered_ms) {
        Ok(_) => {},
        Err(f) => {
            return Err(f);
        },
    }
    let json: bool = json_output(flags.json, flags.table, seen.terminal);
    match conflict {
        Some(message) => {
            return Err(failure(2, "invalid-usage", message.as_str()));
        },
        None => {},
    }
    if flags.save_case {
        return Err(
            failure(
                2,
                "invalid-usage",
                "--save-case (case capture) is planned for P5 and is not available in this build",
            ),
        );
    }
    let sources: Sources = match gather(&flags.settings, seen) {
        Ok(sources) => sources,
        Err(f) => {
            return Err(f);
        },
    };
    let (workspace, user_root) = match locate(seen) {
        Ok(found) => found,
        Err(f) => {
            return Err(f);
        },
    };
    let supplied: bool = is_stdin_supplied(seen.input_terminal, seen.input_mode);
    if refused(&flags.harness) {
        return Err(invalid("Invalid harness ID"));
    }
    let source_options = SourceOptions {
        stdin_supplied: supplied,
        hook: false,
        context: copy_optional(&flags.context),
        transcript: copy_optional(&flags.transcript),
        harness: copy_name(&flags.harness),
        cass_session: copy_optional(&flags.session),
        latest: false,
    };
    let require_skills: Vec<String> = match accept_skills(&flags.require_skills) {
        Ok(names) => names,
        Err(f) => {
            return Err(f);
        },
    };
    match &flags.why_not {
        Some(name) => {
            if !name.valid {
                return Err(
                    failure_with(
                        2,
                        "invalid-usage",
                        "Invalid skill ID for --why-not: ",
                        name.text.as_str(),
                    ),
                );
            }
        },
        None => {},
    }
    let args = RankArgs {
        workspace,
        user_config_root: user_root,
        home: copy_nonempty(&seen.home),
        cache_dir: None,
        require_skills,
        shortlist_ids: Vec::new(),
        roster_file: copy_optional(&flags.roster),
        explain: flags.explain,
        why_not: copy_name(&flags.why_not),
        output_json: json,
        output_table: !json,
        dry_run: flags.dry_run,
    };
    match timely(clock, ready_ms) {
        Ok(_) => {},
        Err(f) => {
            return Err(f);
        },
    }
    Ok(RankRequest { args, sources, source_options })
}

/// The flags of a local inspection.
#[derive(Clone, Debug)]
pub struct DoctorFlags {
    pub json: bool,
    pub table: bool,
    /// Report the configuration rather than the readiness.
    pub config: bool,
    pub settings: Vec<SettingFlag>,
}

/// A local inspection that may start.
pub struct DoctorRequest {
    pub sources: Sources,
    pub workspace: String,
    pub user_root: Option<String>,
    pub output_json: bool,
    pub config: bool,
}

/// Why a local inspection is refused before it starts: the first of these that
/// holds.
pub open spec fn doctor_refusal(
    flags: DoctorFlags,
    conflict: Option<Seq<char>>,
    seen: Surroundings,
    timely: bool,
) -> Option<FailureView> {
    if conflict is Some {
        Some(failing(2, "invalid-usage"@, conflict->0))
    } else if sources_refusal(flags.settings@, seen) is Some {
        sources_refusal(flags.settings@, seen)
    } else if !timely {
        Some(late_view())
    } else {
        places_refusal(seen)
    }
}

/// The request of a local inspection, given the first conflict among the
/// effects that it reports. The clock is read once the settings are gathered.
pub fn doctor_command(
    clock: &EntryClock,
    flags: &DoctorFlags,
    conflict: &Option<String>,
    seen: &Surroundings,
    gathered_ms: u128,
) -> (r: Result<DoctorRequest, PipelineFailure>)
    ensures
        ({
            let refusal = doctor_refusal(
                *flags,
                optional_text(*conflict),
                *seen,
                is_timely(*clock, gathered_ms),
            );
            match r {
                Ok(request) => {
                    &&& refusal is None
                    &&& request.sources.are(flags.settings@, *seen)
                    &&& seen.workspace is Some && request.workspace@ == seen.workspace->0@
                    &&& seen.user_root() == Ok::<Option<Seq<char>>, Seq<char>>(
                        optional_text(request.user_root),
                    )
                    &&& request.output_json == (flags.json || (!flags.table && !seen.terminal))
                    &&& request.config == flags.config
                },
                Err(f) => refusal == Some(f@),
            }
        }),
{
    match conflict {
        Some(message) => {
            return Err(failure(2, "invalid-usage", message.as_str()));
        },
        None => {},
    }
    let sources: Sources = match gather(&flags.settings, seen) {
        Ok(sources) => sources,
        Err(f) => {
            return Err(f);
        },
    };
    match timely(clock, gathered_ms) {
        Ok(_) => {},
        Err(f) => {
            return Err(f);
        },
    }
    match locate(seen) {
        Ok(found) => Ok(
            DoctorRequest {
                sources,
                workspace: found.0,
                user_root: found.1,
                output_json: json_output(flags.json, flags.table, seen.terminal),
                config: flags.config,
            },
        ),
        Err(f) => Err(f),
    }
}

pub open spec fn is_digit(c: char) -> bool {
    '0' <= c <= '9'
}

pub open spec fn digit_value(c: char) -> nat {
    if is_digit(c) {
        (c as nat - '0' as nat) as nat
    } else {
        0
    }
}

/// The number that decimal digits spell.
pub open spec fn spelled(digits: Seq<char>) -> nat
    decreases digits.len(),
{
    if digits.len() == 0 {
        0
    } else {
        10 * spelled(digits.drop_last()) + digit_value(digits.last())
    }
}

/// The digits of a number that may start with a plus sign.
pub open spec fn unsigned_part(text: Seq<char>) -> Seq<char> {
    if text.len() > 0 && text[0] == '+' {
        text.drop_first()
    } else {
        text
    }
}

/// The whole number that a text spells, where a machine word holds it.
pub open spec fn whole_number(text: Seq<char>) -> Option<nat> {
    let digits = unsigned_part(text);
    if digits.len() > 0 && (forall|i: int| 0 <= i < digits.len() ==> is_digit(#[trigger] digits[i]))
        && spelled(digits) <= usize::MAX {
        Some(spelled(digits))
    } else {
        None
    }
}

proof fn spelled_grows(digits: Seq<char>, n: int)
    requires
        0 <= n <= digits.len(),
    ensures
        spelled(digits.take(n)) <= spelled(digits),
    decreases digits.len() - n,
{
    if n == digits.len() {
        assert(digits.take(n) =~= digits);
    } else {
        assert(digits.take(n + 1).drop_last() =~= digits.take(n));
        spelled_grows(digits, n + 1);
    }
}

/// Read a whole number.
pub fn parse_count(text: &str) -> (r: Option<usize>)
    ensures
        match r {
            Some(n) => whole_number(text@) == Some(n as nat),
            None => whole_number(text@) is None,
        },
{
    let chars: Vec<char> = chars_of(text);
    let start: usize = if chars.len() > 0 && chars[0] == '+' {
        1
    } else {
        0
    };
    let ghost digits = unsigned_part(text@);
    assert(digits =~= chars@.skip(start as int));
    if start == chars.len() {
        return None;
    }
    let mut n: usize = 0;
    let mut i: usize = start;
    assert(digits.take(0) =~= Seq::empty());
    while i < chars.len()
        invariant
            start <= i <= chars@.len(),
            start < chars@.len(),
            digits == chars@.skip(start as int),
            digits == unsigned_part(text@),
            forall|j: int| 0 <= j < i - start ==> is_digit(#[trigger] digits[j]),
            n == spelled(digits.take(i - start)),
        decreases chars@.len() - i,
    {
        let c: char = chars[i];
        assert(digits[i - start] == c);
        assert(digits.take(i - start + 1).drop_last() =~= digits.take(i - start));
        assert(digits.take(i - start + 1).last() == c);
        if !('0' <= c && c <= '9') {
            assert(!is_digit(digits[i - start]));
            return None;
        }
        let d: usize = (c as u32 - '0' as u32) as usize;
        proof {
            spelled_grows(digits, i - start + 1);
        }
        if n > (usize::MAX - d) / 10 {
            assert(10 * n + d > usize::MAX) by (nonlinear_arith)
                requires
                    n > (usize::MAX - d) / 10,
                    d <= 9,
            ;
            return None;
        }
        n = 10 * n + d;
        i += 1;
    }
    assert(digits.take(i - start) =~= digits);
    Some(n)
}

/// What a roster inspection is asked for.
#[derive(Clone, Debug)]
pub enum RosterRequest {
    /// Save a snapshot to a new file.
    Snapshot(String),
    /// Compare with a saved snapshot.
    Compare(String),
    /// List a page.
    Page { limit: usize, cursor: Option<String> },
}

/// Decide what a roster inspection is asked for. The limit of a page is read
/// first, whatever is asked for.
pub fn roster_request(
    limit: &Option<String>,
    cursor: &Option<String>,
    snapshot: &Option<String>,
    diff: &Option<String>,
    max_page: usize,
) -> (r: Result<RosterRequest, PipelineFailure>)
    ensures
        ({
            let size = match *limit {
                Some(text) => whole_number(text@),
                None => Some(max_page as nat),
            };
            match r {
                Err(f) => size is None && f@ == failing(
                    2,
                    "invalid-usage"@,
                    "--limit must be a whole number from 1 to 128"@,
                ),
                Ok(RosterRequest::Snapshot(target)) => size is Some && *snapshot is Some && target@
                    == snapshot->0@,
                Ok(RosterRequest::Compare(saved)) => size is Some && *snapshot is None
                    && *diff is Some && saved@ == diff->0@,
                Ok(RosterRequest::Page { limit: n, cursor: c }) => size == Some(n as nat)
                    && *snapshot is None && *diff is None && optional_text(c) == optional_text(
                    *cursor,
                ),
            }
        }),
{
    let size: usize = match limit {
        Some(text) => match parse_count(text.as_str()) {
            Some(n) => n,
            None => {
                return Err(page_failure(PageError::InvalidLimit));
            },
        },
        None => max_page,
    };
    match snapshot {
        Some(target) => {
            return Ok(RosterRequest::Snapshot(copy_text(target.as_str())));
        },
        None => {},
    }
    match diff {
        Some(saved) => {
            return Ok(RosterRequest::Compare(copy_text(saved.as_str())));
        },
        None => {},
    }
    Ok(RosterRequest::Page { limit: size, cursor: copy_optional(cursor) })
}

} // verus!
