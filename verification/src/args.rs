//! The arguments of the two programs.
use crate::cli::{
    clap_reading, command_model, fits, flag_value, match_values, new_command, read_words,
    sound_args, text_value, with_flag, with_option, with_positional, ArgModel, ArgValue,
    CommandModel, UsageError,
};
use crate::command::texts;
use vstd::prelude::*;

verus! {

/// How the publication check is called.
#[derive(Debug)]
pub struct Args {
    /// Path to the crate or workspace directory
    pub path: String,
    /// Cargo registry to check against
    pub registry: String,
    /// Do not print output, only exit with status code
    pub quiet: bool,
    /// Fail if there are uncommitted git changes in the working tree
    pub strict: bool,
}

/// How the search for repositories is called.
#[derive(Debug)]
pub struct ScanArgs {
    /// Path to the directory to search
    pub path: String,
    /// Sort folders in most recently modified order
    pub newest: bool,
}

/// The arguments of the publication check.
pub open spec fn check_syntax() -> Seq<ArgModel> {
    seq![
        ArgModel {
            id: "path"@,
            short: None,
            long: None,
            default: Some("."@),
            value_name: Some("PATH"@),
            help: Some("Path to the crate or workspace directory"@),
        },
        ArgModel {
            id: "registry"@,
            short: Some('r'),
            long: Some("registry"@),
            default: Some("crates-io"@),
            value_name: Some("REGISTRY"@),
            help: Some("Cargo registry to check against"@),
        },
        ArgModel {
            id: "quiet"@,
            short: Some('q'),
            long: Some("quiet"@),
            default: None,
            value_name: None,
            help: Some("Do not print output, only exit with status code"@),
        },
        ArgModel {
            id: "strict"@,
            short: None,
            long: Some("strict"@),
            default: None,
            value_name: None,
            help: Some("Fail if there are uncommitted git changes in the working tree"@),
        },
    ]
}

/// The command line of the publication check.
pub open spec fn check_command() -> CommandModel {
    CommandModel {
        name: "is-published"@,
        version: "0.1.0"@,
        about:
            "Determine if the current folder is a published crate, and if so, whether it is up to date"@,
        args: check_syntax(),
    }
}

/// The arguments of the search for repositories.
pub open spec fn scan_syntax() -> Seq<ArgModel> {
    seq![
        ArgModel {
            id: "path"@,
            short: None,
            long: None,
            default: Some("."@),
            value_name: Some("PATH"@),
            help: None,
        },
        ArgModel {
            id: "newest"@,
            short: Some('n'),
            long: Some("newest"@),
            default: None,
            value_name: None,
            help: Some("Sort folders in most recently modified order"@),
        },
    ]
}

/// The command line of the search for repositories.
pub open spec fn scan_command() -> CommandModel {
    CommandModel {
        name: "gitscan"@,
        version: "0.1.0"@,
        about: "Find the git repositories under a directory that want attention"@,
        args: scan_syntax(),
    }
}

impl Args {
    /// Whether these are the arguments that `values` holds.
    pub open spec fn holds(self, values: Map<Seq<char>, ArgValue>) -> bool {
        &&& values["path"@] == ArgValue::Text(self.path@)
        &&& values["registry"@] == ArgValue::Text(self.registry@)
        &&& values["quiet"@] == ArgValue::Flag(self.quiet)
        &&& values["strict"@] == ArgValue::Flag(self.strict)
    }

    /// The arguments in what `clap` found.
    pub fn from_matches(matches: &clap::ArgMatches) -> (r: Args)
        requires
            fits(match_values(*matches), check_syntax()),
        ensures
            r.holds(match_values(*matches)),
            match_values(*matches)["path"@] == ArgValue::Text(r.path@),
            match_values(*matches)["registry"@] == ArgValue::Text(r.registry@),
            match_values(*matches)["quiet"@] == ArgValue::Flag(r.quiet),
            match_values(*matches)["strict"@] == ArgValue::Flag(r.strict),
    {
        proof {
            let args = check_syntax();
            assert(args[0].id == "path"@ && args[1].id == "registry"@);
            assert(args[2].id == "quiet"@ && args[3].id == "strict"@);
        }
        Args {
            path: text_value(matches, "path"),
            registry: text_value(matches, "registry"),
            quiet: flag_value(matches, "quiet"),
            strict: flag_value(matches, "strict"),
        }
    }

    /// Reads a command line, whose first word is the name of the program.
    pub fn try_parse_from(words: &Vec<String>) -> (r: Result<Args, UsageError>)
        ensures
            match r {
                Ok(args) => clap_reading(check_command(), texts(words@)) matches Ok(values)
                    && args.holds(values),
                Err(error) => clap_reading(check_command(), texts(words@)) matches Err(
                    (text, to_stderr),
                ) && error.answers(texts(words@), text, to_stderr),
            },
            words@.len() <= 1 ==> (r matches Ok(args) && {
                &&& args.path@ == "."@
                &&& args.registry@ == "crates-io"@
                &&& !args.quiet
                &&& !args.strict
            }),
    {
        let command = new_command(
            "is-published",
            "0.1.0",
            "Determine if the current folder is a published crate, and if so, whether it is up to date",
        );
        let command = with_positional(
            command,
            "path",
            "PATH",
            ".",
            Some("Path to the crate or workspace directory"),
        );
        let command = with_option(
            command,
            "registry",
            'r',
            "REGISTRY",
            "crates-io",
            "Cargo registry to check against",
        );
        let command = with_flag(
            command,
            "quiet",
            Some('q'),
            "Do not print output, only exit with status code",
        );
        let command = with_flag(
            command,
            "strict",
            None,
            "Fail if there are uncommitted git changes in the working tree",
        );
        proof {
            assert(command_model(command).args =~= check_syntax());
            assert(command_model(command) == check_command());
            lemma_check_syntax_sound();
            let args = check_syntax();
            assert(args[0].id == "path"@ && args[1].id == "registry"@);
            assert(args[2].id == "quiet"@ && args[3].id == "strict"@);
        }
        match read_words(command, words) {
            Ok(matches) => Ok(Args::from_matches(&matches)),
            Err(error) => Err(error),
        }
    }
}

impl ScanArgs {
    /// Whether these are the arguments that `values` holds.
    pub open spec fn holds(self, values: Map<Seq<char>, ArgValue>) -> bool {
        &&& values["path"@] == ArgValue::Text(self.path@)
        &&& values["newest"@] == ArgValue::Flag(self.newest)
    }

    /// The arguments in what `clap` found.
    pub fn from_matches(matches: &clap::ArgMatches) -> (r: ScanArgs)
        requires
            fits(match_values(*matches), scan_syntax()),
        ensures
            r.holds(match_values(*matches)),
            match_values(*matches)["path"@] == ArgValue::Text(r.path@),
            match_values(*matches)["newest"@] == ArgValue::Flag(r.newest),
    {
        proof {
            let args = scan_syntax();
            assert(args[0].id == "path"@ && args[1].id == "newest"@);
        }
        ScanArgs { path: text_value(matches, "path"), newest: flag_value(matches, "newest") }
    }

    /// Reads a command line, whose first word is the name of the program.
    pub fn try_parse_from(words: &Vec<String>) -> (r: Result<ScanArgs, UsageError>)
        ensures
            match r {
                Ok(args) => clap_reading(scan_command(), texts(words@)) matches Ok(values)
                    && args.holds(values),
                Err(error) => clap_reading(scan_command(), texts(words@)) matches Err(
                    (text, to_stderr),
                ) && error.answers(texts(words@), text, to_stderr),
            },
            words@.len() <= 1 ==> (r matches Ok(args) && args.path@ == "."@ && !args.newest),
    {
        let command = new_command(
            "gitscan",
            "0.1.0",
            "Find the git repositories under a directory that want attention",
        );
        let command = with_positional(command, "path", "PATH", ".", None);
        let command = with_flag(
            command,
            "newest",
            Some('n'),
            "Sort folders in most recently modified order",
        );
        proof {
            assert(command_model(command).args =~= scan_syntax());
            assert(command_model(command) == scan_command());
            lemma_scan_syntax_sound();
            let args = scan_syntax();
            assert(args[0].id == "path"@ && args[1].id == "newest"@);
        }
        match read_words(command, words) {
            Ok(matches) => Ok(ScanArgs::from_matches(&matches)),
            Err(error) => Err(error),
        }
    }
}

proof fn lemma_check_syntax_sound()
    ensures
        sound_args(check_syntax()),
{
    reveal_strlit("path");
    reveal_strlit("registry");
    reveal_strlit("quiet");
    reveal_strlit("strict");
    reveal_strlit("help");
    reveal_strlit("version");
    reveal_strlit(".");
    reveal_strlit("crates-io");
    assert("path"@[0] == 'p' && "registry"@[0] == 'r' && "quiet"@[0] == 'q' && "strict"@[0] == 's');
    assert("help"@[0] == 'h' && "version"@[0] == 'v');
}

proof fn lemma_scan_syntax_sound()
    ensures
        sound_args(scan_syntax()),
{
    reveal_strlit("path");
    reveal_strlit("newest");
    reveal_strlit("help");
    reveal_strlit("version");
    reveal_strlit(".");
    assert("path"@[0] == 'p' && "newest"@[0] == 'n');
    assert("help"@[0] == 'h' && "version"@[0] == 'v');
}

/// Arguments hold exactly the values that were read under their names.
pub proof fn law_args_hold(args: Args, scan: ScanArgs, values: Map<Seq<char>, ArgValue>)
    ensures
        args.holds(values) <==> {
            &&& values["path"@] == ArgValue::Text(args.path@)
            &&& values["registry"@] == ArgValue::Text(args.registry@)
            &&& values["quiet"@] == ArgValue::Flag(args.quiet)
            &&& values["strict"@] == ArgValue::Flag(args.strict)
        },
        scan.holds(values) <==> {
            &&& values["path"@] == ArgValue::Text(scan.path@)
            &&& values["newest"@] == ArgValue::Flag(scan.newest)
        },
{
}

} // verus!
