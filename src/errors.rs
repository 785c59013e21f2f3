use vstd::prelude::*;
use vstd::string::StringExecFns;

verus! {

/// Everything that can stop a bundle or a command line. Paths are held as
/// their display text.
#[allow(inconsistent_fields)]
#[derive(Debug)]
pub enum CliError {
    Help,
    Version,
    MissingFileName,
    ExternalMain,
    IgnoredMain,
    DuplicateOption(String),
    MissingOptionValue(String),
    UnknownOption(String),
    UnexpectedArg(String),
    BadUsage(String),
    RequireRoot { context: Option<String>, path: String },
    EmptyModuleName { context: String },
    ModuleNotFound { context: String, name: String },
    MainNotFound { name: String },
    InvalidUtf8 { context: String, err: String },
    Io(String),
    Json(String),
    Notify(String),
    Es6(String),
    Lex(String),
    ParseStrLit(String),
    Box(String),
}

pub open spec fn usage_text() -> Seq<char> {
    "Usage: scrumple [options] <input> [output]\n       scrumple [-h | --help | -v | --version]"@
}

pub open spec fn version_text() -> Seq<char> {
    "scrumple"@ + " v"@ + "0.1.0"@
}

pub open spec fn options_text() -> Seq<char> {
    "Options:
    -i, --input <input>
        Use <input> as the main module.

    -o, --output <output>
        Write bundle to <output> and source map to <output>.map.
        Default: '-' for stdout.

    -m, --map <map>
        Output source map to <map>.

    -I, --map-inline
        Output source map inline as data: URI.

    -M, --no-map
        Suppress source map output when it would normally be implied.

    -w, --watch
        Watch for changes to <input> and its dependencies.

    -W, --quiet-watch
        Don't emit a bell character for errors that occur while watching.
        Implies --watch.

    -x, --external <module1,module2,...>
        Don't resolve or include modules named <module1>, <module2>, etc.;
        leave them as require('<module>') references in the bundle. Specifying
        a path instead of a module name does nothing.

    --external-core
        Ignore references to node.js core modules like 'events' and leave them
        as require('<module>') references in the bundle.

    -b, --for-bower
        Use bower.json instead of package.json

    -N, --allow-npm-dev-deps
        When using --for-bower, this forces packages in the project's
        package.json#devDependencies to be resolved through npm. This is is for
        creating testing bundles that use npm-only dependencies

    -h, --help
        Print this message.

    -v, --version
        Print version information.\n"@
}

pub open spec fn help_text() -> Seq<char> {
    version_text() + "\n\n"@ + usage_text() + "\n\n"@ + options_text()
}

/// Appends the usage lines.
pub fn write_usage(out: &mut String)
    ensures
        final(out)@ == old(out)@ + usage_text(),
{
    out.append(
        "Usage: scrumple [options] <input> [output]\n       scrumple [-h | --help | -v | --version]",
    );
}

/// Appends the program's name and version.
pub fn write_version(out: &mut String)
    ensures
        final(out)@ == old(out)@ + version_text(),
{
    out.append("scrumple");
    out.append(" v");
    out.append("0.1.0");
    assert(out@ =~= old(out)@ + version_text());
}

/// Appends the whole help text: version, usage and the options.
pub fn write_help(out: &mut String)
    ensures
        final(out)@ == old(out)@ + help_text(),
{
    write_version(out);
    out.append("\n\n");
    write_usage(out);
    out.append("\n\n");
    out.append(
        "Options:
    -i, --input <input>
        Use <input> as the main module.

    -o, --output <output>
        Write bundle to <output> and source map to <output>.map.
        Default: '-' for stdout.

    -m, --map <map>
        Output source map to <map>.

    -I, --map-inline
        Output source map inline as data: URI.

    -M, --no-map
        Suppress source map output when it would normally be implied.

    -w, --watch
        Watch for changes to <input> and its dependencies.

    -W, --quiet-watch
        Don't emit a bell character for errors that occur while watching.
        Implies --watch.

    -x, --external <module1,module2,...>
        Don't resolve or include modules named <module1>, <module2>, etc.;
        leave them as require('<module>') references in the bundle. Specifying
        a path instead of a module name does nothing.

    --external-core
        Ignore references to node.js core modules like 'events' and leave them
        as require('<module>') references in the bundle.

    -b, --for-bower
        Use bower.json instead of package.json

    -N, --allow-npm-dev-deps
        When using --for-bower, this forces packages in the project's
        package.json#devDependencies to be resolved through npm. This is is for
        creating testing bundles that use npm-only dependencies

    -h, --help
        Print this message.

    -v, --version
        Print version information.\n",
    );
    assert(out@ =~= old(out)@ + help_text());
}

/// The human-readable text of an error.
pub open spec fn message_of(e: CliError) -> Seq<char> {
    match e {
        CliError::Help => help_text(),
        CliError::Version => version_text(),
        CliError::MissingFileName => usage_text(),
        CliError::ExternalMain => "main module is --external"@,
        CliError::IgnoredMain => "main module is ignored by a browser field substitution"@,
        CliError::DuplicateOption(o) => "option "@ + o@ + " specified more than once"@,
        CliError::MissingOptionValue(o) => "missing value for option "@ + o@,
        CliError::UnknownOption(o) => "unknown option "@ + o@,
        CliError::UnexpectedArg(a) => "unexpected argument "@ + a@,
        CliError::BadUsage(m) => m@,
        CliError::RequireRoot { context, path } => match context {
            None => "main module is root path "@ + path@,
            Some(c) => "require of root path "@ + path@ + " in "@ + c@,
        },
        CliError::EmptyModuleName { context } => "require('') in "@ + context@,
        CliError::ModuleNotFound { context, name } => "module '"@ + name@ + "' not found in "@
            + context@,
        CliError::MainNotFound { name } => "main module '"@ + name@ + "' not found"@,
        CliError::InvalidUtf8 { context, err } => "in "@ + context@ + ": "@ + err@,
        CliError::Io(m) => m@,
        CliError::Json(m) => m@,
        CliError::Notify(m) => m@,
        CliError::Es6(m) => m@,
        CliError::Lex(m) => m@,
        CliError::ParseStrLit(m) => m@,
        CliError::Box(m) => m@,
    }
}

impl CliError {
    /// The error's text, as it is reported.
    pub fn message(&self) -> (r: String)
        ensures
            r@ == message_of(*self),
    {
        let mut out = String::new();
        match self {
            CliError::Help => write_help(&mut out),
            CliError::Version => write_version(&mut out),
            CliError::MissingFileName => write_usage(&mut out),
            CliError::ExternalMain => out.append("main module is --external"),
            CliError::IgnoredMain => out.append(
                "main module is ignored by a browser field substitution",
            ),
            CliError::DuplicateOption(o) => {
                out.append("option ");
                out.append(o.as_str());
                out.append(" specified more than once");
            },
            CliError::MissingOptionValue(o) => {
                out.append("missing value for option ");
                out.append(o.as_str());
            },
            CliError::UnknownOption(o) => {
                out.append("unknown option ");
                out.append(o.as_str());
            },
            CliError::UnexpectedArg(a) => {
                out.append("unexpected argument ");
                out.append(a.as_str());
            },
            CliError::RequireRoot { context, path } => match context {
                None => {
                    out.append("main module is root path ");
                    out.append(path.as_str());
                },
                Some(c) => {
                    out.append("require of root path ");
                    out.append(path.as_str());
                    out.append(" in ");
                    out.append(c.as_str());
                },
            },
            CliError::EmptyModuleName { context } => {
                out.append("require('') in ");
                out.append(context.as_str());
            },
            CliError::ModuleNotFound { context, name } => {
                out.append("module '");
                out.append(name.as_str());
                out.append("' not found in ");
                out.append(context.as_str());
            },
            CliError::MainNotFound { name } => {
                out.append("main module '");
                out.append(name.as_str());
                out.append("' not found");
            },
            CliError::InvalidUtf8 { context, err } => {
                out.append("in ");
                out.append(context.as_str());
                out.append(": ");
                out.append(err.as_str());
            },
            CliError::BadUsage(m) | CliError::Io(m) | CliError::Json(m) | CliError::Notify(m)
            | CliError::Es6(m) | CliError::Lex(m) | CliError::ParseStrLit(m) | CliError::Box(m) => {
                out.append(m.as_str());
            },
        }
        assert(out@ =~= message_of(*self));
        out
    }

    /// The line printed when the program stops with this error: the bare text
    /// for help, version and usage, else prefixed with the program's name.
    pub fn report(&self) -> (r: String)
        ensures
            r@ == report_of(*self),
    {
        let m = self.message();
        match self {
            CliError::Help | CliError::Version | CliError::MissingFileName => m,
            _ => {
                let mut out = String::from_str("scrumple");
                out.append(": ");
                out.append(m.as_str());
                out
            },
        }
    }
}

pub open spec fn report_of(e: CliError) -> Seq<char> {
    match e {
        CliError::Help | CliError::Version | CliError::MissingFileName => message_of(e),
        _ => "scrumple"@ + ": "@ + message_of(e),
    }
}

} // verus!
