//! Command lines as `clap` reads them.
use crate::command::texts;
use vstd::prelude::*;

verus! {

/// A command line's argument. Without a short and a long name it goes by its
/// position; without a default it is a flag, that takes no value.
pub struct ArgModel {
    pub id: Seq<char>,
    pub short: Option<char>,
    pub long: Option<Seq<char>>,
    pub default: Option<Seq<char>>,
    /// What the help calls the value, where the argument takes one.
    pub value_name: Option<Seq<char>>,
    /// What the help says of the argument.
    pub help: Option<Seq<char>>,
}

/// A command: what its help says of it, and the arguments it takes.
pub struct CommandModel {
    pub name: Seq<char>,
    pub version: Seq<char>,
    pub about: Seq<char>,
    pub args: Seq<ArgModel>,
}

impl CommandModel {
    /// The command with one more argument.
    pub open spec fn with(self, arg: ArgModel) -> CommandModel {
        CommandModel { args: self.args.push(arg), ..self }
    }
}

/// What a command line gives for an argument.
pub enum ArgValue {
    Flag(bool),
    Text(Seq<char>),
}

impl ArgModel {
    /// What the argument is where the command line does not name it.
    pub open spec fn absent(self) -> ArgValue {
        match self.default {
            Some(text) => ArgValue::Text(text),
            None => ArgValue::Flag(false),
        }
    }

    /// Whether the argument by itself can be told from the others: its names
    /// are not those of the help and version flags and do not start with a
    /// hyphen, and a positional default is not empty.
    pub open spec fn sound(self) -> bool {
        &&& self.id != "help"@ && self.id != "version"@
        &&& self.short != Some('h') && self.short != Some('V') && self.short != Some('-')
        &&& self.long matches Some(long) ==> long != "help"@ && long != "version"@ && long.len() > 0
            && long[0] != '-'
        &&& self.short is None && self.long is None ==> (self.default matches Some(text)
            && text.len() > 0)
    }

    /// Whether the argument shares no name with `other`.
    pub open spec fn apart(self, other: ArgModel) -> bool {
        &&& self.id != other.id
        &&& self.short is Some ==> self.short != other.short
        &&& self.long is Some ==> self.long != other.long
    }
}

/// Whether the arguments of a command line can be told from each other.
pub open spec fn sound_args(args: Seq<ArgModel>) -> bool {
    &&& forall|i: int| 0 <= i < args.len() ==> (#[trigger] args[i]).sound()
    &&& forall|i: int, j: int|
        0 <= i < j < args.len() ==> (#[trigger] args[i]).apart(#[trigger] args[j])
}

/// Whether `values` holds, for each of `args`, a value of its kind.
pub open spec fn fits(values: Map<Seq<char>, ArgValue>, args: Seq<ArgModel>) -> bool {
    forall|i: int|
        0 <= i < args.len() ==> {
            &&& values.contains_key((#[trigger] args[i]).id)
            &&& values[args[i].id] is Flag <==> args[i].default is None
        }
}

/// Whether every one of `args` has in `values` the value it has where the
/// command line does not name it.
pub open spec fn all_absent(values: Map<Seq<char>, ArgValue>, args: Seq<ArgModel>) -> bool {
    forall|i: int|
        0 <= i < args.len() ==> {
            &&& values.contains_key((#[trigger] args[i]).id)
            &&& values[args[i].id] == args[i].absent()
        }
}

/// Whether every system finds the same file name in the first word, which
/// names the program: it holds no backslash and no colon, and does not start
/// with two slashes.
pub open spec fn plain_program(words: Seq<Seq<char>>) -> bool {
    words.len() > 0 ==> {
        &&& !words[0].contains('\\')
        &&& !words[0].contains(':')
        &&& !(words[0].len() > 1 && words[0][0] == '/' && words[0][1] == '/')
    }
}

/// A `clap` command, opaque but for what it was made of.
#[verifier::external_type_specification]
#[verifier::external_body]
pub struct ExCommand(clap::Command);

/// What `clap` found in a command line, opaque but for the values it holds.
#[verifier::external_type_specification]
#[verifier::external_body]
pub struct ExArgMatches(clap::ArgMatches);

/// Why a command line was refused, or the help or version that it asked for.
#[derive(Debug)]
pub struct UsageError {
    /// What to print.
    pub message: String,
    /// Whether it goes to the standard error output.
    pub to_stderr: bool,
    /// The status to exit with.
    pub exit_code: i32,
}

impl UsageError {
    /// Whether this answers `words` as `clap` does, by the text that it has
    /// for them and whether that goes to the standard error output.
    pub open spec fn answers(self, words: Seq<Seq<char>>, text: Seq<char>, to_stderr: bool) -> bool {
        &&& plain_program(words) ==> self.message@ == text
        &&& self.to_stderr == to_stderr
        &&& self.exit_code == (if to_stderr {
            2i32
        } else {
            0i32
        })
    }
}

/// What a command was made of, its arguments in the order in which they were
/// added.
pub uninterp spec fn command_model(command: clap::Command) -> CommandModel;

/// The values that a successful reading holds, by the argument's identifier.
pub uninterp spec fn match_values(matches: clap::ArgMatches) -> Map<Seq<char>, ArgValue>;

/// What `clap` makes of `words` for a command: the values that it reads; where
/// it refuses the words, or they ask for help or the version, the text that
/// answers them and whether that goes to the standard error output.
pub uninterp spec fn clap_reading(command: CommandModel, words: Seq<Seq<char>>) -> Result<
    Map<Seq<char>, ArgValue>,
    (Seq<char>, bool),
>;

/// `clap::Command::new`, with `version` and `about` for the help it prints.
/// Not proved here: the command is made of these and has no arguments yet.
#[verifier::external_body]
pub(crate) fn new_command(
    name: &'static str,
    version: &'static str,
    about: &'static str,
) -> (r: clap::Command)
    ensures
        command_model(r) == (CommandModel {
            name: name@,
            version: version@,
            about: about@,
            args: Seq::empty(),
        }),
{
    clap::Command::new(name).version(version).about(about)
}

/// What an optional help text says.
pub open spec fn help_text(help: Option<&'static str>) -> Option<Seq<char>> {
    match help {
        Some(text) => Some(text@),
        None => None,
    }
}

/// `clap::Command::arg` with an argument that goes by its position and must
/// not be empty. Not proved here: it is added after those there are.
#[verifier::external_body]
pub(crate) fn with_positional(
    command: clap::Command,
    id: &'static str,
    value_name: &'static str,
    default: &'static str,
    help: Option<&'static str>,
) -> (r: clap::Command)
    ensures
        command_model(r) == command_model(command).with(
            (ArgModel {
                id: id@,
                short: None,
                long: None,
                default: Some(default@),
                value_name: Some(value_name@),
                help: help_text(help),
            }),
        ),
{
    let parser = clap::builder::NonEmptyStringValueParser::new();
    let arg = clap::Arg::new(id).value_name(value_name).value_parser(parser);
    command.arg(arg.default_value(default).help(help))
}

/// `clap::Command::arg` with an option that takes a value. Not proved here:
/// it is added after those there are.
#[verifier::external_body]
pub(crate) fn with_option(
    command: clap::Command,
    id: &'static str,
    short: char,
    value_name: &'static str,
    default: &'static str,
    help: &'static str,
) -> (r: clap::Command)
    requires
        short != '-',
    ensures
        command_model(r) == command_model(command).with(
            (ArgModel {
                id: id@,
                short: Some(short),
                long: Some(id@),
                default: Some(default@),
                value_name: Some(value_name@),
                help: Some(help@),
            }),
        ),
{
    let arg = clap::Arg::new(id).short(short).long(id).value_name(value_name);
    command.arg(arg.default_value(default).help(help))
}

/// `clap::Command::arg` with a flag. Not proved here: it is added after those
/// there are.
#[verifier::external_body]
pub(crate) fn with_flag(
    command: clap::Command,
    id: &'static str,
    short: Option<char>,
    help: &'static str,
) -> (r: clap::Command)
    requires
        short != Some('-'),
    ensures
        command_model(r) == command_model(command).with(
            (ArgModel {
                id: id@,
                short,
                long: Some(id@),
                default: None,
                value_name: None,
                help: Some(help@),
            }),
        ),
{
    let flag = clap::Arg::new(id).short(short).long(id).help(help);
    command.arg(flag.action(clap::ArgAction::SetTrue))
}

/// `clap::Command::try_get_matches_from`, where the first word is the name of
/// the program. Not proved here: whether the words are accepted, with which
/// values, and what answers a refusal, depends on what the command was made of
/// and the words alone; what is accepted gives every argument a value of its
/// kind; and the name of the program alone is accepted and leaves every
/// argument absent. What goes to the standard error output exits with status
/// 2, else with 0, by `clap::Error::use_stderr` and `exit_code`. The answer is
/// the text of the `clap::Error` and shows the file name of the program, which
/// is a matter of the system where the first word is not plain: the text is
/// then left unsaid. So are the values and the text that given words lead to.
#[verifier::external_body]
pub(crate) fn read_words(command: clap::Command, words: &Vec<String>) -> (r: Result<
    clap::ArgMatches,
    UsageError,
>)
    requires
        sound_args(command_model(command).args),
    ensures
        r is Ok <==> clap_reading(command_model(command), texts(words@)) is Ok,
        r matches Ok(found) ==> clap_reading(command_model(command), texts(words@))->Ok_0
            == match_values(found),
        r matches Ok(found) ==> fits(match_values(found), command_model(command).args),
        words@.len() <= 1 ==> r is Ok,
        words@.len() <= 1 && r is Ok ==> all_absent(
            match_values(r->Ok_0),
            command_model(command).args,
        ),
        r matches Err(error) ==> error.to_stderr == clap_reading(
            command_model(command),
            texts(words@),
        )->Err_0.1,
        r matches Err(error) ==> (plain_program(texts(words@)) ==> error.message@ == clap_reading(
            command_model(command),
            texts(words@),
        )->Err_0.0),
        r matches Err(error) ==> error.exit_code == (if error.to_stderr {
            2i32
        } else {
            0i32
        }),
{
    command.try_get_matches_from(words).map_err(
        |e| UsageError {
            message: e.to_string(),
            to_stderr: e.use_stderr(),
            exit_code: e.exit_code(),
        },
    )
}

/// `clap::ArgMatches::get_one`, of an argument that takes a value. Not proved
/// here: it is the value that was read.
#[verifier::external_body]
pub(crate) fn text_value(matches: &clap::ArgMatches, id: &str) -> (r: String)
    requires
        match_values(*matches).contains_key(id@),
        match_values(*matches)[id@] is Text,
    ensures
        ArgValue::Text(r@) == match_values(*matches)[id@],
{
    matches.get_one::<String>(id).cloned().unwrap()
}

/// `clap::ArgMatches::get_flag`. Not proved here: it is whether the flag was
/// given.
#[verifier::external_body]
pub(crate) fn flag_value(matches: &clap::ArgMatches, id: &str) -> (r: bool)
    requires
        match_values(*matches).contains_key(id@),
        match_values(*matches)[id@] is Flag,
    ensures
        ArgValue::Flag(r) == match_values(*matches)[id@],
{
    matches.get_flag(id)
}

} // verus!
