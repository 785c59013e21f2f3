use vstd::prelude::*;
use vstd::string::StrSliceExecFns;
use vstd::string::StringExecFns;

use crate::errors::{CliError, message_of, usage_text, version_text, help_text};
use crate::text::text_eq;

verus! {

/// The options that the command line knows.
#[derive(Debug, Clone, Copy, PartialEq, Eq)]
pub enum OptKind {
    Help,
    Version,
    Watch,
    QuietWatch,
    MapInline,
    NoMap,
    ForBower,
    External,
    ExternalCore,
    MapFile,
    Input,
    NpmDevDeps,
    Output,
}

/// The option that a flag names, in its short or long form.
pub open spec fn kind_of(s: Seq<char>) -> Option<OptKind> {
    if s == "-h"@ || s == "--help"@ {
        Some(OptKind::Help)
    } else if s == "-v"@ || s == "--version"@ {
        Some(OptKind::Version)
    } else if s == "-w"@ || s == "--watch"@ {
        Some(OptKind::Watch)
    } else if s == "-W"@ || s == "--quiet-watch"@ {
        Some(OptKind::QuietWatch)
    } else if s == "-I"@ || s == "--map-inline"@ {
        Some(OptKind::MapInline)
    } else if s == "-M"@ || s == "--no-map"@ {
        Some(OptKind::NoMap)
    } else if s == "-b"@ || s == "--for-bower"@ {
        Some(OptKind::ForBower)
    } else if s == "-x"@ || s == "--external"@ {
        Some(OptKind::External)
    } else if s == "--external-core"@ {
        Some(OptKind::ExternalCore)
    } else if s == "-m"@ || s == "--map"@ {
        Some(OptKind::MapFile)
    } else if s == "-i"@ || s == "--input"@ {
        Some(OptKind::Input)
    } else if s == "-N"@ || s == "--allow-npm-dev-deps"@ {
        Some(OptKind::NpmDevDeps)
    } else if s == "-o"@ || s == "--output"@ {
        Some(OptKind::Output)
    } else {
        None
    }
}

fn either(s: &str, short: &str, long: &str) -> (r: bool)
    ensures
        r == (s@ == short@ || s@ == long@),
{
    text_eq(s, short) || text_eq(s, long)
}

/// Which option `s` names, if any.
pub fn option_kind(s: &str) -> (r: Option<OptKind>)
    ensures
        r == kind_of(s@),
{
    if either(s, "-h", "--help") {
        Some(OptKind::Help)
    } else if either(s, "-v", "--version") {
        Some(OptKind::Version)
    } else if either(s, "-w", "--watch") {
        Some(OptKind::Watch)
    } else if either(s, "-W", "--quiet-watch") {
        Some(OptKind::QuietWatch)
    } else if either(s, "-I", "--map-inline") {
        Some(OptKind::MapInline)
    } else if either(s, "-M", "--no-map") {
        Some(OptKind::NoMap)
    } else if either(s, "-b", "--for-bower") {
        Some(OptKind::ForBower)
    } else if either(s, "-x", "--external") {
        Some(OptKind::External)
    } else if text_eq(s, "--external-core") {
        Some(OptKind::ExternalCore)
    } else if either(s, "-m", "--map") {
        Some(OptKind::MapFile)
    } else if either(s, "-i", "--input") {
        Some(OptKind::Input)
    } else if either(s, "-N", "--allow-npm-dev-deps") {
        Some(OptKind::NpmDevDeps)
    } else if either(s, "-o", "--output") {
        Some(OptKind::Output)
    } else {
        None
    }
}

/// An argument is a flag when it starts with `-` and is more than `-` alone
/// (a lone `-` names standard output).
pub open spec fn is_flag(s: Seq<char>) -> bool {
    s.len() > 1 && s[0] == '-'
}

pub fn arg_is_flag(s: &str) -> (r: bool)
    ensures
        r == is_flag(s@),
{
    let n = s.unicode_len();
    n > 1 && s.get_char(0) == '-'
}

/// Unicode White_Space, which `\\s` matches.
pub open spec fn is_white(c: char) -> bool {
    let u = c as u32;
    (0x9 <= u <= 0xD) || u == 0x20 || u == 0x85 || u == 0xA0 || u == 0x1680 || (0x2000 <= u <= 0x200A)
        || u == 0x2028 || u == 0x2029 || u == 0x202F || u == 0x205F || u == 0x3000
}

pub open spec fn trim_start(s: Seq<char>) -> Seq<char>
    decreases s.len(),
{
    if s.len() > 0 && is_white(s[0]) {
        trim_start(s.drop_first())
    } else {
        s
    }
}

pub open spec fn trim_end(s: Seq<char>) -> Seq<char>
    decreases s.len(),
{
    if s.len() > 0 && is_white(s.last()) {
        trim_end(s.drop_last())
    } else {
        s
    }
}

/// The index of the first comma.
pub open spec fn first_comma(s: Seq<char>) -> Option<int>
    decreases s.len(),
{
    if s.len() == 0 {
        None
    } else if s[0] == ',' {
        Some(0)
    } else {
        match first_comma(s.drop_first()) {
            Some(k) => Some(k + 1),
            None => None,
        }
    }
}

/// The text between commas, as it stands.
pub open spec fn comma_pieces(s: Seq<char>) -> Seq<Seq<char>>
    decreases s.len(),
{
    match first_comma(s) {
        None => seq![s],
        Some(k) => if 0 <= k < s.len() {
            seq![s.subrange(0, k)] + comma_pieces(s.subrange(k + 1, s.len() as int))
        } else {
            seq![s]
        },
    }
}

/// The pieces of a list separated by commas, with the white space next to
/// each comma removed.
pub open spec fn comma_split_of(s: Seq<char>) -> Seq<Seq<char>> {
    let raw = comma_pieces(s);
    Seq::new(
        raw.len(),
        |i: int|
            {
                let p = if i > 0 {
                    trim_start(raw[i])
                } else {
                    raw[i]
                };
                if i < raw.len() - 1 {
                    trim_end(p)
                } else {
                    p
                }
            },
    )
}

/// The number of commas in a text.
pub open spec fn commas(s: Seq<char>) -> nat
    decreases s.len(),
{
    if s.len() == 0 {
        0
    } else {
        commas(s.drop_last()) + if s.last() == ',' {
            1nat
        } else {
            0nat
        }
    }
}

/// Relies on regex::Regex::split with the pattern `\s*,\s*`: the pieces of
/// the text between the matches, each match being a comma with the white
/// space around it. Every comma is inside exactly one match,
/// so there is one piece more than there are commas, and none holds a
/// comma.
#[verifier::external_body]
fn comma_split(s: &str) -> (r: Vec<String>)
    ensures
        r@.map_values(|p: String| p@) == comma_split_of(s@),
        r@.len() == commas(s@) + 1,
        forall|k: int| 0 <= k < r@.len() ==> !(#[trigger] r@[k]@).contains(','),
{
    let re = regex::Regex::new("\\s*,\\s*").unwrap();
    re.split(s).map(|p| p.to_string()).collect()
}

/// The command line as read so far.
pub struct CliOptions {
    pub input: Option<String>,
    pub output: Option<String>,
    pub map: Option<String>,
    pub map_inline: bool,
    pub no_map: bool,
    pub watch: bool,
    pub quiet_watch: bool,
    pub for_bower: bool,
    pub external: Vec<String>,
    pub external_core: bool,
    pub npm_dev_deps: bool,
}

/// The model of `CliOptions`: texts in place of strings.
pub struct OptsModel {
    pub input: Option<Seq<char>>,
    pub output: Option<Seq<char>>,
    pub map: Option<Seq<char>>,
    pub map_inline: bool,
    pub no_map: bool,
    pub watch: bool,
    pub quiet_watch: bool,
    pub for_bower: bool,
    pub external: Seq<Seq<char>>,
    pub external_core: bool,
    pub npm_dev_deps: bool,
}

pub open spec fn opt_view(o: Option<String>) -> Option<Seq<char>> {
    match o {
        Some(s) => Some(s@),
        None => None,
    }
}

impl View for CliOptions {
    type V = OptsModel;

    open spec fn view(&self) -> OptsModel {
        OptsModel {
            input: opt_view(self.input),
            output: opt_view(self.output),
            map: opt_view(self.map),
            map_inline: self.map_inline,
            no_map: self.no_map,
            watch: self.watch,
            quiet_watch: self.quiet_watch,
            for_bower: self.for_bower,
            external: self.external@.map_values(|p: String| p@),
            external_core: self.external_core,
            npm_dev_deps: self.npm_dev_deps,
        }
    }
}

pub open spec fn empty_model() -> OptsModel {
    OptsModel {
        input: None,
        output: None,
        map: None,
        map_inline: false,
        no_map: false,
        watch: false,
        quiet_watch: false,
        for_bower: false,
        external: Seq::empty(),
        external_core: false,
        npm_dev_deps: false,
    }
}

/// One step of reading the command line at `i`: the options after it and
/// the index of the next argument, or the message of the error it raises.
pub open spec fn step(args: Seq<Seq<char>>, i: int, m: OptsModel) -> Result<
    (OptsModel, int),
    Seq<char>,
> {
    let a = args[i];
    if !is_flag(a) {
        if m.input is None {
            Ok((OptsModel { input: Some(a), ..m }, i + 1))
        } else if m.output is None {
            Ok((OptsModel { output: Some(a), ..m }, i + 1))
        } else {
            Err("unexpected argument "@ + a)
        }
    } else {
        let has_value = i + 1 < args.len();
        let v = args[i + 1];
        let missing = "missing value for option "@ + a;
        let dup = "option "@ + a + " specified more than once"@;
        match kind_of(a) {
            None => Err("unknown option "@ + a),
            Some(OptKind::Help) => Err(help_text()),
            Some(OptKind::Version) => Err(version_text()),
            Some(OptKind::Watch) => Ok((OptsModel { watch: true, ..m }, i + 1)),
            Some(OptKind::QuietWatch) => Ok(
                (OptsModel { watch: true, quiet_watch: true, ..m }, i + 1),
            ),
            Some(OptKind::MapInline) => Ok((OptsModel { map_inline: true, ..m }, i + 1)),
            Some(OptKind::NoMap) => Ok((OptsModel { no_map: true, ..m }, i + 1)),
            Some(OptKind::ForBower) => Ok((OptsModel { for_bower: true, ..m }, i + 1)),
            Some(OptKind::ExternalCore) => Ok((OptsModel { external_core: true, ..m }, i + 1)),
            Some(OptKind::NpmDevDeps) => Ok((OptsModel { npm_dev_deps: true, ..m }, i + 1)),
            Some(OptKind::External) => if has_value {
                Ok((OptsModel { external: m.external + comma_split_of(v), ..m }, i + 2))
            } else {
                Err(missing)
            },
            Some(OptKind::MapFile) => if m.map is Some {
                Err(dup)
            } else if has_value {
                Ok((OptsModel { map: Some(v), ..m }, i + 2))
            } else {
                Err(missing)
            },
            Some(OptKind::Input) => if m.input is Some {
                Err(dup)
            } else if has_value {
                Ok((OptsModel { input: Some(v), ..m }, i + 2))
            } else {
                Err(missing)
            },
            Some(OptKind::Output) => if m.output is Some {
                Err(dup)
            } else if has_value {
                Ok((OptsModel { output: Some(v), ..m }, i + 2))
            } else {
                Err(missing)
            },
        }
    }
}

/// Reads the command line from `i` on, starting from the options `m`.
pub open spec fn parse_from(args: Seq<Seq<char>>, i: int, m: OptsModel) -> Result<
    OptsModel,
    Seq<char>,
>
    decreases args.len() - i,
{
    if i < 0 || i >= args.len() {
        Ok(m)
    } else {
        match step(args, i, m) {
            Err(e) => Err(e),
            Ok(p) => if p.1 > i {
                parse_from(args, p.1, p.0)
            } else {
                Ok(p.0)
            },
        }
    }
}

/// The options that a whole command line gives, or the message of its first
/// error.
pub open spec fn parse_spec(args: Seq<Seq<char>>) -> Result<OptsModel, Seq<char>> {
    parse_from(args, 0, empty_model())
}

fn clone_text(s: &String) -> (r: String)
    ensures
        r@ == s@,
{
    s.clone()
}

/// Applies the argument at `i` to `o`: returns the index of the next one.
fn parse_step(args: &Vec<String>, i: usize, o: &mut CliOptions) -> (r: Result<usize, CliError>)
    requires
        i < args@.len(),
    ensures
        match step(args@.map_values(|p: String| p@), i as int, old(o)@) {
            Ok(p) => r is Ok && r->Ok_0 == p.1 && final(o)@ == p.0,
            Err(e) => r is Err && message_of(r->Err_0) == e,
        },
{
    let ghost av = args@.map_values(|p: String| p@);
    assert(av[i as int] == args@[i as int]@);
    let n = args.len();
    let a = &args[i];
    if !arg_is_flag(a.as_str()) {
        if o.input.is_none() {
            o.input = Some(clone_text(a));
            return Ok(i + 1);
        } else if o.output.is_none() {
            o.output = Some(clone_text(a));
            return Ok(i + 1);
        } else {
            let e = CliError::UnexpectedArg(clone_text(a));
            assert(message_of(e) =~= "unexpected argument "@ + a@);
            return Err(e);
        }
    }
    let has_value = i + 1 < n;
    proof {
        if has_value {
            assert(av[i + 1] == args@[i + 1]@);
        }
    }
    match option_kind(a.as_str()) {
        None => {
            let e = CliError::UnknownOption(clone_text(a));
            assert(message_of(e) =~= "unknown option "@ + a@);
            Err(e)
        },
        Some(OptKind::Help) => Err(CliError::Help),
        Some(OptKind::Version) => Err(CliError::Version),
        Some(OptKind::Watch) => {
            o.watch = true;
            Ok(i + 1)
        },
        Some(OptKind::QuietWatch) => {
            o.watch = true;
            o.quiet_watch = true;
            Ok(i + 1)
        },
        Some(OptKind::MapInline) => {
            o.map_inline = true;
            Ok(i + 1)
        },
        Some(OptKind::NoMap) => {
            o.no_map = true;
            Ok(i + 1)
        },
        Some(OptKind::ForBower) => {
            o.for_bower = true;
            Ok(i + 1)
        },
        Some(OptKind::ExternalCore) => {
            o.external_core = true;
            Ok(i + 1)
        },
        Some(OptKind::NpmDevDeps) => {
            o.npm_dev_deps = true;
            Ok(i + 1)
        },
        Some(OptKind::External) => {
            if !has_value {
                let e = CliError::MissingOptionValue(clone_text(a));
                assert(message_of(e) =~= "missing value for option "@ + a@);
                return Err(e);
            }
            let mut parts = comma_split(args[i + 1].as_str());
            let ghost before = o.external@;
            o.external.append(&mut parts);
            assert(o.external@.map_values(|p: String| p@) =~= before.map_values(|p: String| p@)
                + comma_split_of(args@[i + 1]@));
            Ok(i + 2)
        },
        Some(k) => {
            let taken = match k {
                OptKind::MapFile => o.map.is_some(),
                OptKind::Input => o.input.is_some(),
                _ => o.output.is_some(),
            };
            if taken {
                let e = CliError::DuplicateOption(clone_text(a));
                assert(message_of(e) =~= "option "@ + a@ + " specified more than once"@);
                return Err(e);
            }
            if !has_value {
                let e = CliError::MissingOptionValue(clone_text(a));
                assert(message_of(e) =~= "missing value for option "@ + a@);
                return Err(e);
            }
            let v = clone_text(&args[i + 1]);
            match k {
                OptKind::MapFile => o.map = Some(v),
                OptKind::Input => o.input = Some(v),
                _ => o.output = Some(v),
            }
            Ok(i + 2)
        },
    }
}

/// Reads a command line (without the program's name) into options, or
/// returns the first error in it.
pub fn parse_args(args: &Vec<String>) -> (r: Result<CliOptions, CliError>)
    ensures
        match parse_spec(args@.map_values(|p: String| p@)) {
            Ok(m) => r is Ok && r->Ok_0@ == m,
            Err(e) => r is Err && message_of(r->Err_0) == e,
        },
{
    let ghost av = args@.map_values(|p: String| p@);
    let mut o = CliOptions {
        input: None,
        output: None,
        map: None,
        map_inline: false,
        no_map: false,
        watch: false,
        quiet_watch: false,
        for_bower: false,
        external: Vec::new(),
        external_core: false,
        npm_dev_deps: false,
    };
    assert(o@.external =~= Seq::<Seq<char>>::empty());
    assert(o@ == empty_model());
    let mut i: usize = 0;
    while i < args.len()
        invariant
            av == args@.map_values(|p: String| p@),
            i <= args@.len(),
            parse_from(av, i as int, o@) == parse_spec(av),
        decreases args@.len() - i,
    {
        match parse_step(args, i, &mut o) {
            Err(e) => {
                return Err(e);
            },
            Ok(j) => {
                i = j;
            },
        }
    }
    Ok(o)
}

/// Where the source map goes.
pub enum MapOutput {
    Inline,
    Suppressed,
    File { map: String, bundle: String },
}

/// Which package manager's layout resolution follows.
#[derive(Debug, Clone, Copy, PartialEq, Eq, Structural, Default)]
pub enum PackageManager {
    #[default]
    Npm,
    Bower,
}

/// A complete, consistent command line.
pub struct Config {
    pub input: String,
    pub output: String,
    pub map_output: MapOutput,
    pub watch: bool,
    pub quiet_watch: bool,
    pub package_manager: PackageManager,
    pub external: Vec<String>,
    pub npm_dev_deps: bool,
}

/// node.js's built-in modules, which `--external-core` leaves alone.
pub open spec fn core_module_names() -> Seq<Seq<char>> {
    seq![
        "assert"@, "buffer"@, "child_process"@, "cluster"@, "crypto"@, "dgram"@, "dns"@,
        "domain"@, "events"@, "fs"@, "http"@, "https"@, "net"@, "os"@, "path"@, "punycode"@,
        "querystring"@, "readline"@, "stream"@, "string_decoder"@, "tls"@, "tty"@, "url"@,
        "util"@, "v8"@, "vm"@, "zlib"@,
    ]
}

fn push_text(v: &mut Vec<String>, s: &str)
    ensures
        final(v)@.map_values(|p: String| p@) == old(v)@.map_values(|p: String| p@).push(s@),
{
    v.push(String::from_str(s));
    assert(final(v)@.map_values(|p: String| p@) =~= old(v)@.map_values(|p: String| p@).push(s@));
}

/// Appends the names of node.js's built-in modules to `v`.
pub fn push_core_modules(v: &mut Vec<String>)
    ensures
        final(v)@.map_values(|p: String| p@) == old(v)@.map_values(|p: String| p@)
            + core_module_names(),
{
    let ghost start = v@.map_values(|p: String| p@);
    push_text(v, "assert");
    push_text(v, "buffer");
    push_text(v, "child_process");
    push_text(v, "cluster");
    push_text(v, "crypto");
    push_text(v, "dgram");
    push_text(v, "dns");
    push_text(v, "domain");
    push_text(v, "events");
    push_text(v, "fs");
    push_text(v, "http");
    push_text(v, "https");
    push_text(v, "net");
    push_text(v, "os");
    push_text(v, "path");
    push_text(v, "punycode");
    push_text(v, "querystring");
    push_text(v, "readline");
    push_text(v, "stream");
    push_text(v, "string_decoder");
    push_text(v, "tls");
    push_text(v, "tty");
    push_text(v, "url");
    push_text(v, "util");
    push_text(v, "v8");
    push_text(v, "vm");
    push_text(v, "zlib");
    assert(v@.map_values(|p: String| p@) =~= start + core_module_names());
}

/// The message for more than one source-map choice.
pub open spec fn exclusive_maps_text() -> Seq<char> {
    "--map-inline, --map <file>, and --no-map are mutually exclusive"@
}

pub open spec fn map_choices(m: OptsModel) -> int {
    (if m.map_inline { 1int } else { 0int }) + (if m.no_map { 1int } else { 0int }) + (if m.map is Some {
        1int
    } else {
        0int
    })
}

/// Checks the options as a whole and settles the defaults: the output is
/// standard output unless named; the source map goes inline, nowhere, to the
/// named file, or else beside the output as `<output>.map`, except on
/// standard output, where it is left out.
pub fn finish(o: CliOptions) -> (r: Result<Config, CliError>)
    ensures
        map_choices(o@) > 1 ==> r is Err && message_of(r->Err_0) == exclusive_maps_text(),
        map_choices(o@) <= 1 && o.input is None ==> r is Err && message_of(r->Err_0)
            == usage_text(),
        map_choices(o@) <= 1 && o.input is Some ==> r is Ok,
        r matches Ok(c) ==> {
            let out = if o@.output is Some {
                o@.output->0
            } else {
                "-"@
            };
            &&& c.input@ == o@.input->0
            &&& c.output@ == out
            &&& c.watch == o.watch
            &&& c.quiet_watch == o.quiet_watch
            &&& c.npm_dev_deps == o.npm_dev_deps
            &&& c.package_manager == if o.for_bower {
                PackageManager::Bower
            } else {
                PackageManager::Npm
            }
            &&& c.external@.map_values(|p: String| p@) == if o.external_core {
                o@.external + core_module_names()
            } else {
                o@.external
            }
            &&& (o.map_inline ==> c.map_output is Inline)
            &&& (o.no_map ==> c.map_output is Suppressed)
            &&& (o@.map matches Some(m) ==> c.map_output matches MapOutput::File { map, bundle }
                && map@ == m && bundle@ == out)
            &&& (!o.map_inline && !o.no_map && o.map is None ==> if out == "-"@ {
                c.map_output is Suppressed
            } else {
                c.map_output matches MapOutput::File { map, bundle } && map@ == out + ".map"@
                    && bundle@ == out
            })
        },
{
    let choices: u8 = (if o.map_inline { 1u8 } else { 0u8 }) + (if o.no_map { 1u8 } else { 0u8 }) + (
    if o.map.is_some() {
        1u8
    } else {
        0u8
    });
    if choices > 1 {
        let e = CliError::BadUsage(
            String::from_str("--map-inline, --map <file>, and --no-map are mutually exclusive"),
        );
        return Err(e);
    }
    let CliOptions {
        input,
        output,
        map,
        map_inline,
        no_map,
        watch,
        quiet_watch,
        for_bower,
        external,
        external_core,
        npm_dev_deps,
    } = o;
    let input = match input {
        Some(i) => i,
        None => {
            return Err(CliError::MissingFileName);
        },
    };
    let output = match output {
        Some(out) => out,
        None => String::from_str("-"),
    };
    let to_stdout = text_eq(output.as_str(), "-");
    let map_output = if map_inline {
        MapOutput::Inline
    } else if no_map {
        MapOutput::Suppressed
    } else {
        match map {
            Some(m) => MapOutput::File { map: m, bundle: clone_text(&output) },
            None => if to_stdout {
                MapOutput::Suppressed
            } else {
                let mut m = clone_text(&output);
                m.append(".map");
                MapOutput::File { map: m, bundle: clone_text(&output) }
            },
        }
    };
    let mut external = external;
    if external_core {
        push_core_modules(&mut external);
    }
    let package_manager = if for_bower {
        PackageManager::Bower
    } else {
        PackageManager::Npm
    };
    Ok(
        Config {
            input,
            output,
            map_output,
            watch,
            quiet_watch,
            package_manager,
            external,
            npm_dev_deps,
        },
    )
}

} // verus!
