//! Arguments, surroundings and configuration layers.
use crate::chars::{has_prefix, starts_with};
use crate::cli::settings::{
    decode_config, parsed_toml, setting_views, settings_in, ConfigLimits, RawValue, RawView,
    Setting,
};
use crate::pipeline::failure::{
    failing, failing_as, failure, failure_with, input_failure, FailureView, PipelineFailure,
};
use crate::score::Score;
use crate::text::{chars_of, copy_optional, copy_text, join, optional_text, same_text, texts, utf8_text};
use vstd::prelude::*;
use vstd::utf8::*;

verus! {

/// Is the first argument a flag of the ranking rather than of the program?
pub open spec fn is_rank_flag(first: Seq<char>) -> bool {
    first.len() > 0 && first[0] == '-' && first != "--help"@ && first != "-h"@ && first
        != "--version"@ && first != "-V"@
}

/// The arguments with the ranking named, where its flags follow the program
/// directly.
pub open spec fn named_command(args: Seq<Seq<char>>) -> Seq<Seq<char>> {
    if args.len() > 1 && is_rank_flag(args[1]) {
        args.insert(1, "rank"@)
    } else {
        args
    }
}

/// Name the ranking where the arguments leave it out.
pub fn with_command(args: Vec<String>) -> (named: Vec<String>)
    ensures
        texts(named@) == named_command(texts(args@)),
{
    let ghost all = texts(args@);
    let mut named: Vec<String> = args;
    if named.len() > 1 {
        assert(all[1] == named@[1]@);
        let first: Vec<char> = chars_of(named[1].as_str());
        let flag: bool = first.len() > 0 && first[0] == '-' && !same_text(
            named[1].as_str(),
            "--help",
        ) && !same_text(named[1].as_str(), "-h") && !same_text(named[1].as_str(), "--version")
            && !same_text(named[1].as_str(), "-V");
        if flag {
            named.insert(1, copy_text("rank"));
            assert(texts(named@) =~= all.insert(1, "rank"@));
        }
    }
    named
}

/// A command of the program.
#[derive(Clone, Copy, Debug, PartialEq, Eq, Structural)]
pub enum Subcommand {
    Roster,
    Doctor,
    Rank,
    Capabilities,
}

/// What the arguments ask for.
#[derive(Clone, Copy, Debug, PartialEq, Eq, Structural)]
pub enum Route {
    Help,
    Version,
    /// A top-level flag beside a command.
    Misplaced,
    Command(Subcommand),
    /// No command at all ranks once.
    BareRank,
}

pub open spec fn route_of(
    help: bool,
    version: bool,
    command: Option<Subcommand>,
    command_help: bool,
) -> Route {
    match command {
        None => if help {
            Route::Help
        } else if version {
            Route::Version
        } else {
            Route::BareRank
        },
        Some(which) => if help || version {
            Route::Misplaced
        } else if command_help {
            Route::Help
        } else {
            Route::Command(which)
        },
    }
}

/// Decide what the parsed arguments ask for.
pub fn route(help: bool, version: bool, command: Option<Subcommand>, command_help: bool) -> (r: Route)
    ensures
        r == route_of(help, version, command, command_help),
{
    match command {
        None => if help {
            Route::Help
        } else if version {
            Route::Version
        } else {
            Route::BareRank
        },
        Some(which) => if help || version {
            Route::Misplaced
        } else if command_help {
            Route::Help
        } else {
            Route::Command(which)
        },
    }
}

/// Is the output JSON: asked for, or not a table on a terminal?
pub fn json_output(json: bool, table: bool, terminal: bool) -> (r: bool)
    ensures
        r == (json || (!table && !terminal)),
{
    json || (!table && !terminal)
}

/// Are failures reported as JSON?
pub fn wants_json(args: &Vec<String>, terminal: bool) -> (r: bool)
    ensures
        r == (texts(args@).contains("--json"@) || !terminal),
{
    crate::text::contains_text(args, "--json") || !terminal
}

/// The type bits of a pipe.
pub const MODE_FIFO: u32 = 0o010000;

/// The type bits of a regular file.
pub const MODE_REGULAR: u32 = 0o100000;

/// The type bits of a socket.
pub const MODE_SOCKET: u32 = 0o140000;

/// Does a mode hold all of these bits?
pub open spec fn holds_bits(mode: u32, bits: u32) -> bool {
    mode & bits == bits
}

/// Is something supplied on the standard input: not a terminal, and a pipe, a
/// socket or a file by its mode?
pub fn is_stdin_supplied(terminal: bool, mode: Option<u32>) -> (r: bool)
    ensures
        r == (!terminal && match mode {
            Some(m) => holds_bits(m, MODE_FIFO) || holds_bits(m, MODE_SOCKET) || holds_bits(
                m,
                MODE_REGULAR,
            ),
            None => false,
        }),
{
    if terminal {
        return false;
    }
    match mode {
        Some(m) => m & MODE_FIFO == MODE_FIFO || m & MODE_SOCKET == MODE_SOCKET || m & MODE_REGULAR
            == MODE_REGULAR,
        None => false,
    }
}

pub open spec fn is_absolute(path: Seq<char>) -> bool {
    path.len() > 0 && path[0] == '/'
}

/// A path with one more part.
pub open spec fn joined(base: Seq<char>, part: Seq<char>) -> Seq<char> {
    if base.len() > 0 && base.last() == '/' {
        base + part
    } else {
        base + "/"@ + part
    }
}

fn join_path(base: &str, part: &str) -> (path: String)
    ensures
        path@ == joined(base@, part@),
{
    let chars: Vec<char> = chars_of(base);
    if chars.len() > 0 && chars[chars.len() - 1] == '/' {
        join(base, part)
    } else {
        join(base, "/").concat(part)
    }
}

fn absolute(path: &str) -> (r: bool)
    ensures
        r == is_absolute(path@),
{
    let chars: Vec<char> = chars_of(path);
    chars.len() > 0 && chars[0] == '/'
}

pub open spec fn invalid_view(message: Seq<char>) -> FailureView {
    failing(2, "invalid-configuration"@, message)
}

/// A configuration that cannot be used.
pub fn invalid(message: &str) -> (f: PipelineFailure)
    ensures
        f@ == invalid_view(message@),
{
    failure(2, "invalid-configuration", message)
}

pub open spec fn is_given(variable: Option<Seq<char>>) -> bool {
    variable is Some && variable->0.len() > 0
}

/// Where the user's configuration lies: the configured directory, else the one
/// below the home directory, else nowhere. An empty variable counts as absent;
/// a relative one is refused.
pub open spec fn user_root_of(config_home: Option<Seq<char>>, home: Option<Seq<char>>) -> Result<
    Option<Seq<char>>,
    Seq<char>,
> {
    if is_given(config_home) {
        if is_absolute(config_home->0) {
            Ok(config_home)
        } else {
            Err("User configuration directory must be absolute"@)
        }
    } else if is_given(home) {
        if is_absolute(home->0) {
            Ok(Some(joined(home->0, ".config"@)))
        } else {
            Err("Home directory must be absolute"@)
        }
    } else {
        Ok(None)
    }
}

pub open spec fn optional_str(text: Option<&str>) -> Option<Seq<char>> {
    match text {
        Some(t) => Some(t@),
        None => None,
    }
}

/// Where the user's configuration lies.
pub fn user_config_root(config_home: Option<&str>, home: Option<&str>) -> (r: Result<
    Option<String>,
    PipelineFailure,
>)
    ensures
        match user_root_of(optional_str(config_home), optional_str(home)) {
            Ok(root) => r is Ok && optional_text(r->Ok_0) == root,
            Err(message) => r is Err && r->Err_0@ == invalid_view(message),
        },
{
    match config_home {
        Some(path) => {
            if path.unicode_len() > 0 {
                if !absolute(path) {
                    return Err(invalid("User configuration directory must be absolute"));
                }
                return Ok(Some(copy_text(path)));
            }
        },
        None => {},
    }
    match home {
        Some(path) => {
            if path.unicode_len() > 0 {
                if !absolute(path) {
                    return Err(invalid("Home directory must be absolute"));
                }
                return Ok(Some(join_path(path, ".config")));
            }
            Ok(None)
        },
        None => Ok(None),
    }
}

/// Is a variable one that may hold a setting? The resolver rejects those that
/// it does not know.
pub open spec fn is_setting_name(name: Seq<char>) -> bool {
    has_prefix(name, "SR_"@) || name == "TYPESAFE_API_KEY"@ || name == "TYPESAFE_ENDPOINT"@
}

fn setting_name(name: &str) -> (r: bool)
    ensures
        r == is_setting_name(name@),
{
    let chars: Vec<char> = chars_of(name);
    starts_with(chars.as_slice(), "SR_") || same_text(name, "TYPESAFE_API_KEY") || same_text(
        name,
        "TYPESAFE_ENDPOINT",
    )
}

/// The places of the first `n` names that may hold a setting.
pub open spec fn setting_places(names: Seq<Seq<char>>, n: int) -> Seq<usize>
    decreases n,
{
    if n <= 0 || n > names.len() {
        Seq::empty()
    } else {
        let before = setting_places(names, n - 1);
        if is_setting_name(names[n - 1]) {
            before.push((n - 1) as usize)
        } else {
            before
        }
    }
}

proof fn places_grow(names: Seq<Seq<char>>, n: int, m: int)
    requires
        0 <= n <= m <= names.len(),
    ensures
        setting_places(names, n).len() <= setting_places(names, m).len(),
    decreases m - n,
{
    if n < m {
        places_grow(names, n, m - 1);
    }
}

/// The variables that may hold settings, by place, where a layer can hold
/// them all.
pub fn environment_settings(names: &Vec<String>, layer_entries: usize) -> (r: Result<
    Vec<usize>,
    PipelineFailure,
>)
    ensures
        ({
            let places = setting_places(texts(names@), names@.len() as int);
            match r {
                Ok(list) => list@ == places && places.len() <= layer_entries,
                Err(f) => places.len() > layer_entries && f@ == invalid_view(
                    "Too many environment settings"@,
                ),
            }
        }),
{
    let ghost all = texts(names@);
    let mut list: Vec<usize> = Vec::new();
    let mut i: usize = 0;
    while i < names.len()
        invariant
            i <= names@.len(),
            all == texts(names@),
            list@ == setting_places(all, i as int),
            list@.len() <= layer_entries,
        decreases names@.len() - i,
    {
        assert(all[i as int] == names@[i as int]@);
        if setting_name(names[i].as_str()) {
            if list.len() == layer_entries {
                proof {
                    places_grow(all, i + 1, all.len() as int);
                }
                return Err(invalid("Too many environment settings"));
            }
            list.push(i);
        }
        i += 1;
    }
    Ok(list)
}

/// The kind of value that a setting takes on the command line.
#[derive(Clone, Copy, Debug, PartialEq, Eq, Structural)]
pub enum ValueKind {
    Count,
    Unit,
    Text,
}

/// What the command line gives for a setting.
#[derive(Clone, Debug)]
pub enum FlagReading {
    Absent,
    /// A switch that is set.
    Raised,
    /// A text, with the number that it spells, if it spells one.
    Given { text: String, integer: Option<i64>, float: Option<Score> },
}

pub open spec fn cli_value_view(name: Seq<char>, kind: ValueKind, flag: FlagReading) -> Result<
    Option<RawView>,
    Seq<char>,
> {
    if name == "shadow"@ {
        if flag is Raised {
            Ok(Some(RawView::Text("shadow"@)))
        } else {
            Ok(None)
        }
    } else if name == "no-tools"@ {
        if flag is Raised {
            Ok(Some(RawView::Bool(true)))
        } else {
            Ok(None)
        }
    } else {
        match flag {
            FlagReading::Given { text, integer, float } => match kind {
                ValueKind::Count => match integer {
                    Some(n) => Ok(Some(RawView::Integer(n))),
                    None => Err("CLI count must be an integer"@),
                },
                ValueKind::Unit => match float {
                    Some(x) => Ok(Some(RawView::Float(x))),
                    None => Err("CLI threshold must be numeric"@),
                },
                ValueKind::Text => Ok(Some(RawView::Text(text@))),
            },
            _ => Ok(None),
        }
    }
}

/// The setting that a command-line flag gives, if any.
pub fn cli_value(name: &str, kind: ValueKind, flag: &FlagReading) -> (r: Result<
    Option<RawValue>,
    PipelineFailure,
>)
    ensures
        match cli_value_view(name@, kind, *flag) {
            Ok(None) => r is Ok && r->Ok_0 is None,
            Ok(Some(raw)) => r is Ok && r->Ok_0 is Some && r->Ok_0->0@ == raw,
            Err(message) => r is Err && r->Err_0@ == invalid_view(message),
        },
{
    let set: bool = match flag {
        FlagReading::Raised => true,
        _ => false,
    };
    if same_text(name, "shadow") {
        return Ok(
            if set {
                Some(RawValue::Text(copy_text("shadow")))
            } else {
                None
            },
        );
    }
    if same_text(name, "no-tools") {
        return Ok(
            if set {
                Some(RawValue::Bool(true))
            } else {
                None
            },
        );
    }
    match flag {
        FlagReading::Given { text, integer, float } => match kind {
            ValueKind::Count => match integer {
                Some(n) => Ok(Some(RawValue::Integer(*n))),
                None => Err(invalid("CLI count must be an integer")),
            },
            ValueKind::Unit => match float {
                Some(x) => Ok(Some(RawValue::Float(*x))),
                None => Err(invalid("CLI threshold must be numeric")),
            },
            ValueKind::Text => Ok(Some(RawValue::Text(copy_text(text.as_str())))),
        },
        _ => Ok(None),
    }
}

/// A layer of configuration.
#[derive(Clone, Copy, Debug, PartialEq, Eq, Structural)]
pub enum Layer {
    Project,
    TrustedUser,
}

impl Layer {
    pub open spec fn text(self) -> Seq<char> {
        match self {
            Layer::Project => "project"@,
            Layer::TrustedUser => "trusted-user"@,
        }
    }

    pub fn as_str(self) -> (text: &'static str)
        ensures
            text@ == self.text(),
    {
        match self {
            Layer::Project => "project",
            Layer::TrustedUser => "trusted-user",
        }
    }
}

/// What reading a configuration file gave.
#[derive(Clone, Debug)]
pub enum ConfigRead {
    /// No root, or no file below it.
    Missing,
    RootUnavailable,
    /// Not a bounded regular file under its root.
    Unreadable,
    Bytes(Vec<u8>),
    /// The deadline passed meanwhile.
    Late,
}

pub open spec fn layer_failure(layer: Layer, message: Seq<char>) -> FailureView {
    invalid_view(layer.text() + message)
}

pub open spec fn late_failure() -> FailureView {
    failing(6, "timeout"@, "Local inspection deadline exceeded"@)
}

/// The settings of a layer, or the failure to read them.
pub open spec fn layer_settings(layer: Layer, read: ConfigRead, limits: ConfigLimits) -> Result<
    Seq<(Seq<char>, RawView)>,
    FailureView,
> {
    match read {
        ConfigRead::Missing => Ok(Seq::empty()),
        ConfigRead::RootUnavailable => Err(
            layer_failure(layer, ": configuration root unavailable"@),
        ),
        ConfigRead::Unreadable => Err(
            layer_failure(
                layer,
                ": configuration must be a bounded authorized regular file"@,
            ),
        ),
        ConfigRead::Late => Err(late_failure()),
        ConfigRead::Bytes(bytes) => if !valid_utf8(bytes@) {
            Err(layer_failure(layer, ": invalid UTF-8 configuration"@))
        } else {
            let text = decode_utf8(bytes@);
            match settings_in(text, parsed_toml(text), limits) {
                Some(list) => Ok(list),
                None => Err(layer_failure(layer, ": malformed or excessive configuration"@)),
            }
        },
    }
}

fn layer_error(layer: Layer, message: &str) -> (f: PipelineFailure)
    ensures
        f@ == layer_failure(layer, message@),
{
    failure_with(2, "invalid-configuration", layer.as_str(), message)
}

/// The settings of a layer.
pub fn read_config(layer: Layer, read: &ConfigRead, limits: ConfigLimits) -> (r: Result<
    Vec<Setting>,
    PipelineFailure,
>)
    ensures
        match layer_settings(layer, *read, limits) {
            Ok(list) => r is Ok && setting_views(r->Ok_0@) == list,
            Err(f) => r is Err && r->Err_0@ == f,
        },
{
    match read {
        ConfigRead::Missing => {
            let none: Vec<Setting> = Vec::new();
            assert(setting_views(none@) =~= Seq::empty());
            Ok(none)
        },
        ConfigRead::RootUnavailable => Err(
            layer_error(layer, ": configuration root unavailable"),
        ),
        ConfigRead::Unreadable => Err(
            layer_error(layer, ": configuration must be a bounded authorized regular file"),
        ),
        ConfigRead::Late => Err(failure(6, "timeout", "Local inspection deadline exceeded")),
        ConfigRead::Bytes(bytes) => {
            let text: &str = match utf8_text(bytes.as_slice()) {
                Some(text) => text,
                None => {
                    return Err(layer_error(layer, ": invalid UTF-8 configuration"));
                },
            };
            proof {
                encode_utf8_decode_utf8(text@);
            }
            match decode_config(text, limits) {
                Some(list) => Ok(list),
                None => Err(layer_error(layer, ": malformed or excessive configuration")),
            }
        },
    }
}

/// The files of an invocation: fixed at its start, read first and re-read
/// before anything consequential.
#[derive(Clone, Debug)]
pub struct ConfigFiles {
    workspace: String,
    user_root: Option<String>,
}

/// The settings of both files.
#[derive(Debug)]
pub struct FileLayers {
    pub trusted_user: Vec<Setting>,
    pub project: Vec<Setting>,
}

/// The settings of both files: the user's come first, then the project's.
pub open spec fn file_layers(
    has_user_root: bool,
    user: ConfigRead,
    project: ConfigRead,
    limits: ConfigLimits,
) -> Result<(Seq<(Seq<char>, RawView)>, Seq<(Seq<char>, RawView)>), FailureView> {
    let own = if has_user_root {
        layer_settings(Layer::TrustedUser, user, limits)
    } else {
        Ok(Seq::empty())
    };
    match own {
        Err(f) => Err(f),
        Ok(first) => match layer_settings(Layer::Project, project, limits) {
            Err(f) => Err(f),
            Ok(second) => Ok((first, second)),
        },
    }
}

impl ConfigFiles {
    pub closed spec fn workspace_path(self) -> Seq<char> {
        self.workspace@
    }

    pub closed spec fn user_path(self) -> Option<Seq<char>> {
        optional_text(self.user_root)
    }

    pub fn new(workspace: &str, user_root: &Option<String>) -> (files: ConfigFiles)
        ensures
            files.workspace_path() == workspace@,
            files.user_path() == optional_text(*user_root),
    {
        ConfigFiles { workspace: copy_text(workspace), user_root: copy_optional(user_root) }
    }

    /// The project's configuration file.
    pub fn project_file(&self) -> (path: String)
        ensures
            path@ == joined(self.workspace_path(), ".sr/config.toml"@),
    {
        join_path(self.workspace.as_str(), ".sr/config.toml")
    }

    /// The user's configuration file, where there is a user root.
    pub fn user_file(&self) -> (path: Option<String>)
        ensures
            match self.user_path() {
                Some(root) => optional_text(path) == Some(joined(root, "sr/config.toml"@)),
                None => path is None,
            },
    {
        match &self.user_root {
            Some(root) => Some(join_path(root.as_str(), "sr/config.toml")),
            None => None,
        }
    }

    /// The settings of both files, as they were read.
    pub fn load(&self, user: &ConfigRead, project: &ConfigRead, limits: ConfigLimits) -> (r: Result<
        FileLayers,
        PipelineFailure,
    >)
        ensures
            match file_layers(self.user_path() is Some, *user, *project, limits) {
                Ok((first, second)) => r is Ok && setting_views(r->Ok_0.trusted_user@) == first
                    && setting_views(r->Ok_0.project@) == second,
                Err(f) => r is Err && r->Err_0@ == f,
            },
    {
        let trusted_user: Vec<Setting> = match &self.user_root {
            Some(_) => match read_config(Layer::TrustedUser, user, limits) {
                Ok(list) => list,
                Err(f) => {
                    return Err(f);
                },
            },
            None => {
                let none: Vec<Setting> = Vec::new();
                assert(setting_views(none@) =~= Seq::empty());
                none
            },
        };
        match read_config(Layer::Project, project, limits) {
            Ok(list) => Ok(FileLayers { trusted_user, project: list }),
            Err(f) => Err(f),
        }
    }

    /// Re-read both files under the next generation of the receipt.
    pub fn refresh(
        &self,
        user: &ConfigRead,
        project: &ConfigRead,
        generation: u64,
        limits: ConfigLimits,
    ) -> (r: Result<(FileLayers, u64), PipelineFailure>)
        ensures
            match file_layers(self.user_path() is Some, *user, *project, limits) {
                Ok((first, second)) => if generation == u64::MAX {
                    r is Err && r->Err_0@ == invalid_view("Configuration generation exhausted"@)
                } else {
                    &&& r is Ok
                    &&& setting_views((r->Ok_0).0.trusted_user@) == first
                    &&& setting_views((r->Ok_0).0.project@) == second
                    &&& (r->Ok_0).1 == generation + 1
                },
                Err(f) => r is Err && r->Err_0@ == f,
            },
    {
        match self.load(user, project, limits) {
            Ok(layers) => if generation == u64::MAX {
                Err(invalid("Configuration generation exhausted"))
            } else {
                Ok((layers, generation + 1))
            },
            Err(f) => Err(f),
        }
    }
}

/// How a saved snapshot could not be used.
#[derive(Clone, Copy, Debug, PartialEq, Eq, Structural)]
pub enum SnapshotError {
    Malformed,
    TooLarge,
    TooManyRecords,
    Unreadable,
    Incompatible,
}

impl SnapshotError {
    pub open spec fn message_view(self) -> Seq<char> {
        match self {
            SnapshotError::Malformed => "The saved snapshot is malformed or has unknown fields"@,
            SnapshotError::TooLarge => "The saved snapshot exceeds 32 MiB"@,
            SnapshotError::TooManyRecords => "The snapshot exceeds 10,000 records"@,
            SnapshotError::Unreadable => "The saved snapshot is not a readable regular file"@,
            SnapshotError::Incompatible =>
                "The saved snapshot belongs to a different schema, harness or workspace"@,
        }
    }
}

/// Report a snapshot that could not be used, under its public kind.
pub fn snapshot_failure(error: SnapshotError, kind: &str) -> (f: PipelineFailure)
    ensures
        f@ == failing_as(kind@, error.message_view()),
{
    match error {
        SnapshotError::Malformed => input_failure(
            kind,
            "The saved snapshot is malformed or has unknown fields",
        ),
        SnapshotError::TooLarge => input_failure(kind, "The saved snapshot exceeds 32 MiB"),
        SnapshotError::TooManyRecords => input_failure(kind, "The snapshot exceeds 10,000 records"),
        SnapshotError::Unreadable => input_failure(
            kind,
            "The saved snapshot is not a readable regular file",
        ),
        SnapshotError::Incompatible => input_failure(
            kind,
            "The saved snapshot belongs to a different schema, harness or workspace",
        ),
    }
}

/// Why a page of the roster cannot be given.
#[derive(Clone, Copy, Debug, PartialEq, Eq, Structural)]
pub enum PageError {
    InvalidLimit,
    InvalidCursor,
    RosterChanged,
}

pub fn page_failure(error: PageError) -> (f: PipelineFailure)
    ensures
        f@ == (match error {
            PageError::InvalidLimit => failing(
                2,
                "invalid-usage"@,
                "--limit must be a whole number from 1 to 128"@,
            ),
            PageError::InvalidCursor => failing(
                2,
                "invalid-usage"@,
                "Unrecognized --cursor; restart without it"@,
            ),
            PageError::RosterChanged => failing(
                5,
                "roster-changed"@,
                "The roster changed since this cursor was issued; restart without --cursor"@,
            ),
        }),
{
    match error {
        PageError::InvalidLimit => failure(
            2,
            "invalid-usage",
            "--limit must be a whole number from 1 to 128",
        ),
        PageError::InvalidCursor => failure(
            2,
            "invalid-usage",
            "Unrecognized --cursor; restart without it",
        ),
        PageError::RosterChanged => failure(
            5,
            "roster-changed",
            "The roster changed since this cursor was issued; restart without --cursor",
        ),
    }
}

/// Naming the command changes nothing that already names one: doing it twice
/// is doing it once.
pub proof fn naming_is_idempotent(args: Seq<Seq<char>>)
    ensures
        named_command(named_command(args)) == named_command(args),
{
    reveal_strlit("rank");
    assert("rank"@[0] == 'r');
}

} // verus!
