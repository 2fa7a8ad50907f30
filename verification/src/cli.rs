//! Command-line arguments: what they ask for, and what the program does
//! with them.
use vstd::prelude::*;
use vstd::utf8::*;
use crate::text::{
    chars_eq_str, chars_from, chars_of, has_prefix, lossy_string, parse_u16, parse_u16_chars,
    starts_with_str, string_of, utf8_lossy,
};

verus! {

/// The port the daemon listens on unless another is asked for.
pub const DEFAULT_PORT: u16 = 8088;

/// One command-line argument as the operating system hands it over: text
/// when it is valid UTF-8, its raw bytes otherwise.
#[derive(Debug, Clone, PartialEq, Eq)]
pub enum CliArg {
    Text(String),
    Raw(Vec<u8>),
}

impl CliArg {
    /// The argument as a path: its bytes.
    pub open spec fn path_bytes(self) -> Seq<u8> {
        match self {
            CliArg::Text(s) => encode_utf8(s@),
            CliArg::Raw(b) => b@,
        }
    }

    /// The argument shown as text, invalid bytes replaced.
    pub open spec fn shown(self) -> Seq<char> {
        match self {
            CliArg::Text(s) => s@,
            CliArg::Raw(b) => utf8_lossy(b@),
        }
    }
}

/// The options of a run: whether to start or stop the daemon, its port, and
/// the Markdown file to open.
#[derive(Debug, Clone, PartialEq, Eq)]
pub struct Args {
    pub start: bool,
    pub stop: bool,
    pub port: u16,
    pub file: Option<Vec<u8>>,
}

/// What a run's options are, paths as byte sequences.
pub struct ArgsView {
    pub start: bool,
    pub stop: bool,
    pub port: u16,
    pub file: Option<Seq<u8>>,
}

impl View for Args {
    type V = ArgsView;

    open spec fn view(&self) -> ArgsView {
        ArgsView {
            start: self.start,
            stop: self.stop,
            port: self.port,
            file: match self.file {
                Some(f) => Some(f@),
                None => None,
            },
        }
    }
}

/// What the command line asks for.
#[derive(Debug, Clone, PartialEq, Eq)]
pub enum Command {
    Run(Args),
    Help,
    Version,
}

pub enum CommandView {
    Run(ArgsView),
    Help,
    Version,
}

impl View for Command {
    type V = CommandView;

    open spec fn view(&self) -> CommandView {
        match self {
            Command::Run(a) => CommandView::Run(a@),
            Command::Help => CommandView::Help,
            Command::Version => CommandView::Version,
        }
    }
}

/// Why a command line is refused.
#[derive(Debug, Clone, PartialEq, Eq)]
pub enum ArgsError {
    /// A port option came last, with no value after it; it holds the option.
    MissingPortValue(String),
    /// A port value that is not a number from 0 to 65535; it holds the value.
    InvalidPort(String),
    /// An argument that looks like an option but is none; it holds it.
    UnknownOption(String),
    /// A second file argument.
    MultipleFiles,
}

pub enum ArgsErrorView {
    MissingPortValue(Seq<char>),
    InvalidPort(Seq<char>),
    UnknownOption(Seq<char>),
    MultipleFiles,
}

impl View for ArgsError {
    type V = ArgsErrorView;

    open spec fn view(&self) -> ArgsErrorView {
        match self {
            ArgsError::MissingPortValue(s) => ArgsErrorView::MissingPortValue(s@),
            ArgsError::InvalidPort(s) => ArgsErrorView::InvalidPort(s@),
            ArgsError::UnknownOption(s) => ArgsErrorView::UnknownOption(s@),
            ArgsError::MultipleFiles => ArgsErrorView::MultipleFiles,
        }
    }
}

/// The meaning of an argument read as an option.
#[derive(Debug, Clone, Copy, PartialEq, Eq)]
pub enum ArgKind {
    Start,
    Stop,
    PortNext,
    Help,
    Version,
    EndOfOptions,
    PortInline,
    Unknown,
    Positional,
}

/// The meaning of the argument text `t` where options are still read.
pub open spec fn arg_kind(t: Seq<char>) -> ArgKind {
    if t == "--start"@ {
        ArgKind::Start
    } else if t == "--stop"@ {
        ArgKind::Stop
    } else if t == "-p"@ || t == "--port"@ {
        ArgKind::PortNext
    } else if t == "-h"@ || t == "--help"@ {
        ArgKind::Help
    } else if t == "-V"@ || t == "--version"@ {
        ArgKind::Version
    } else if t == "--"@ {
        ArgKind::EndOfOptions
    } else if has_prefix(t, "--port="@) {
        ArgKind::PortInline
    } else if t.len() > 0 && t[0] == '-' {
        ArgKind::Unknown
    } else {
        ArgKind::Positional
    }
}

/// The meaning of argument `a`; once `positional_only`, every argument is a
/// file.
pub open spec fn kind_of(a: CliArg, positional_only: bool) -> ArgKind {
    if positional_only {
        ArgKind::Positional
    } else {
        match a {
            CliArg::Text(s) => arg_kind(s@),
            CliArg::Raw(_) => ArgKind::Positional,
        }
    }
}

/// The text of a text argument (empty for raw bytes).
pub open spec fn text_of(a: CliArg) -> Seq<char> {
    match a {
        CliArg::Text(s) => s@,
        CliArg::Raw(_) => Seq::empty(),
    }
}

/// The port that a port value argument names.
pub open spec fn port_value(a: CliArg) -> Option<u16> {
    match a {
        CliArg::Text(s) => parse_u16(s@),
        CliArg::Raw(_) => None,
    }
}

/// The result of reading the arguments `rest` after those that made `acc`.
pub open spec fn parse_args(rest: Seq<CliArg>, acc: ArgsView, positional_only: bool) -> Result<
    CommandView,
    ArgsErrorView,
>
    decreases rest.len(),
{
    if rest.len() == 0 {
        Ok(CommandView::Run(acc))
    } else {
        let a = rest[0];
        let tail = rest.drop_first();
        let t = text_of(a);
        match kind_of(a, positional_only) {
            ArgKind::Start => parse_args(tail, ArgsView { start: true, ..acc }, positional_only),
            ArgKind::Stop => parse_args(tail, ArgsView { stop: true, ..acc }, positional_only),
            ArgKind::PortNext => if tail.len() == 0 {
                Err(ArgsErrorView::MissingPortValue(t))
            } else {
                match port_value(tail[0]) {
                    Some(p) => parse_args(
                        tail.drop_first(),
                        ArgsView { port: p, ..acc },
                        positional_only,
                    ),
                    None => Err(ArgsErrorView::InvalidPort(tail[0].shown())),
                }
            },
            ArgKind::Help => Ok(CommandView::Help),
            ArgKind::Version => Ok(CommandView::Version),
            ArgKind::EndOfOptions => parse_args(tail, acc, true),
            ArgKind::PortInline => match parse_u16(t.skip("--port="@.len() as int)) {
                Some(p) => parse_args(tail, ArgsView { port: p, ..acc }, positional_only),
                None => Err(ArgsErrorView::InvalidPort(t.skip("--port="@.len() as int))),
            },
            ArgKind::Unknown => Err(ArgsErrorView::UnknownOption(t)),
            ArgKind::Positional => if acc.file is Some {
                Err(ArgsErrorView::MultipleFiles)
            } else {
                parse_args(tail, ArgsView { file: Some(a.path_bytes()), ..acc }, positional_only)
            },
        }
    }
}

/// The options before any argument is read.
pub open spec fn default_args() -> ArgsView {
    ArgsView { start: false, stop: false, port: DEFAULT_PORT, file: None }
}

/// What the whole command line asks for.
pub open spec fn command_of(arguments: Seq<CliArg>) -> Result<CommandView, ArgsErrorView> {
    parse_args(arguments, default_args(), false)
}

/// Classifies the text of an argument read as an option.
pub fn classify(t: &[char]) -> (r: ArgKind)
    ensures
        r == arg_kind(t@),
{
    if chars_eq_str(t, "--start") {
        ArgKind::Start
    } else if chars_eq_str(t, "--stop") {
        ArgKind::Stop
    } else if chars_eq_str(t, "-p") || chars_eq_str(t, "--port") {
        ArgKind::PortNext
    } else if chars_eq_str(t, "-h") || chars_eq_str(t, "--help") {
        ArgKind::Help
    } else if chars_eq_str(t, "-V") || chars_eq_str(t, "--version") {
        ArgKind::Version
    } else if chars_eq_str(t, "--") {
        ArgKind::EndOfOptions
    } else if starts_with_str(t, "--port=") {
        ArgKind::PortInline
    } else if t.len() > 0 && t[0] == '-' {
        ArgKind::Unknown
    } else {
        ArgKind::Positional
    }
}

/// The port a port value argument names, or the error that refuses it.
pub fn parse_port(value: &CliArg) -> (r: Result<u16, ArgsError>)
    ensures
        match r {
            Ok(p) => port_value(*value) == Some(p),
            Err(e) => port_value(*value) is None && e@ == ArgsErrorView::InvalidPort(
                value.shown(),
            ),
        },
{
    match value {
        CliArg::Text(s) => {
            let cs = chars_of(s.as_str());
            match parse_u16_chars(cs.as_slice()) {
                Some(p) => Ok(p),
                None => Err(ArgsError::InvalidPort(s.clone())),
            }
        },
        CliArg::Raw(b) => Err(ArgsError::InvalidPort(lossy_string(b.as_slice()))),
    }
}

/// The bytes of an argument taken as a path.
fn arg_path_bytes(a: &CliArg) -> (r: Vec<u8>)
    ensures
        r@ == a.path_bytes(),
{
    match a {
        CliArg::Text(s) => vstd::slice::slice_to_vec(s.as_str().as_bytes()),
        CliArg::Raw(b) => vstd::slice::slice_to_vec(b.as_slice()),
    }
}

impl Args {
    /// Reads the command-line arguments (without the program name).
    ///
    /// `--start`, `--stop`, `-p PORT`/`--port PORT`/`--port=PORT` set the
    /// options, a later port overriding an earlier one; `-h`/`--help` and
    /// `-V`/`--version` ask for help or the version at once; after `--` every
    /// argument is a file; any other argument that begins with `-` is
    /// refused; at most one file may be named.
    pub fn parse_from(arguments: Vec<CliArg>) -> (r: Result<Command, ArgsError>)
        ensures
            match r {
                Ok(c) => command_of(arguments@) == Ok::<CommandView, ArgsErrorView>(c@),
                Err(e) => command_of(arguments@) == Err::<CommandView, ArgsErrorView>(e@),
            },
    {
        let mut args = Args { start: false, stop: false, port: DEFAULT_PORT, file: None };
        let mut positional_only = false;
        let mut i: usize = 0;
        assert(arguments@.skip(0) =~= arguments@);
        while i < arguments.len()
            invariant
                i <= arguments@.len(),
                command_of(arguments@) == parse_args(arguments@.skip(i as int), args@, positional_only),
            decreases arguments@.len() - i,
        {
            let ghost rest = arguments@.skip(i as int);
            assert(rest[0] == arguments@[i as int]);
            assert(rest.drop_first() =~= arguments@.skip(i + 1));
            let a = &arguments[i];
            let kind = if positional_only {
                ArgKind::Positional
            } else {
                match a {
                    CliArg::Text(s) => {
                        let cs = chars_of(s.as_str());
                        classify(cs.as_slice())
                    },
                    CliArg::Raw(_) => ArgKind::Positional,
                }
            };
            assert(kind == kind_of(*a, positional_only));
            match kind {
                ArgKind::Start => {
                    args.start = true;
                    i = i + 1;
                },
                ArgKind::Stop => {
                    args.stop = true;
                    i = i + 1;
                },
                ArgKind::PortNext => {
                    let t = match a {
                        CliArg::Text(s) => s.clone(),
                        CliArg::Raw(_) => String::new(),
                    };
                    if i + 1 >= arguments.len() {
                        return Err(ArgsError::MissingPortValue(t));
                    }
                    assert(rest.drop_first()[0] == arguments@[i + 1]);
                    assert(rest.drop_first().drop_first() =~= arguments@.skip(i + 2));
                    match parse_port(&arguments[i + 1]) {
                        Ok(p) => {
                            args.port = p;
                            i = i + 2;
                        },
                        Err(e) => {
                            return Err(e);
                        },
                    }
                },
                ArgKind::Help => {
                    return Ok(Command::Help);
                },
                ArgKind::Version => {
                    return Ok(Command::Version);
                },
                ArgKind::EndOfOptions => {
                    positional_only = true;
                    i = i + 1;
                },
                ArgKind::PortInline => {
                    let cs = match a {
                        CliArg::Text(s) => chars_of(s.as_str()),
                        CliArg::Raw(_) => Vec::new(),
                    };
                    let prefix = chars_of("--port=");
                    let value = chars_from(cs.as_slice(), prefix.len());
                    match parse_u16_chars(value.as_slice()) {
                        Some(p) => {
                            args.port = p;
                            i = i + 1;
                        },
                        None => {
                            return Err(ArgsError::InvalidPort(string_of(value.as_slice())));
                        },
                    }
                },
                ArgKind::Unknown => {
                    let t = match a {
                        CliArg::Text(s) => s.clone(),
                        CliArg::Raw(_) => String::new(),
                    };
                    return Err(ArgsError::UnknownOption(t));
                },
                ArgKind::Positional => {
                    if args.file.is_some() {
                        return Err(ArgsError::MultipleFiles);
                    }
                    args.file = Some(arg_path_bytes(a));
                    i = i + 1;
                },
            }
        }
        Ok(Command::Run(args))
    }
}

} // verus!

verus! {

impl ArgsError {
    /// The text that the error is reported with.
    pub open spec fn message_spec(self) -> Seq<char> {
        match self {
            ArgsError::MissingPortValue(t) => "\""@ + t@ + "\" requires a port"@,
            ArgsError::InvalidPort(v) => "invalid port: "@ + v@,
            ArgsError::UnknownOption(v) => "unknown option: "@ + v@,
            ArgsError::MultipleFiles => "only one Markdown file can be specified"@,
        }
    }

    /// The text that the error is reported with.
    pub fn message(&self) -> (r: String)
        ensures
            r@ == self.message_spec(),
    {
        match self {
            ArgsError::MissingPortValue(t) => {
                let mut r = String::from_str("\"");
                r.append(t.as_str());
                r.append("\" requires a port");
                r
            },
            ArgsError::InvalidPort(v) => {
                let mut r = String::from_str("invalid port: ");
                r.append(v.as_str());
                r
            },
            ArgsError::UnknownOption(v) => {
                let mut r = String::from_str("unknown option: ");
                r.append(v.as_str());
                r
            },
            ArgsError::MultipleFiles => String::from_str("only one Markdown file can be specified"),
        }
    }
}

/// What one run of the program does.
#[derive(Debug, Clone, PartialEq, Eq)]
pub enum Action {
    /// Serve pages on the port (the process is the daemon).
    Serve(u16),
    /// Stop the running daemon.
    Stop,
    /// Make sure a daemon listens on the port.
    Start(u16),
    /// Make sure a daemon listens on the port, then open the file.
    Open(u16, Vec<u8>),
    /// Make sure a daemon listens on the port, then open its home page.
    Home(u16),
}

/// Why a combination of options is refused.
#[derive(Debug, Clone, Copy, PartialEq, Eq)]
pub enum RunError {
    StartWithStop,
    FileWithDaemonOption,
}

impl RunError {
    pub open spec fn message_spec(self) -> Seq<char> {
        match self {
            RunError::StartWithStop => "--start and --stop cannot be used together"@,
            RunError::FileWithDaemonOption => "a file cannot be combined with --start or --stop"@,
        }
    }

    /// The text that the error is reported with.
    pub fn message(&self) -> (r: String)
        ensures
            r@ == self.message_spec(),
    {
        match self {
            RunError::StartWithStop => String::from_str("--start and --stop cannot be used together"),
            RunError::FileWithDaemonOption => String::from_str(
                "a file cannot be combined with --start or --stop",
            ),
        }
    }
}

/// What the options ask the program to do; `daemon` tells whether this
/// process was started as the daemon.
///
/// `--start` with `--stop` is refused, and so is a file with either; the
/// daemon process serves; otherwise `--stop` stops, `--start` starts, a file
/// is opened, and with none of these the home page is opened.
pub fn plan_run(args: &Args, daemon: bool) -> (r: Result<Action, RunError>)
    ensures
        args.start && args.stop ==> r == Err::<Action, RunError>(RunError::StartWithStop),
        !(args.start && args.stop) && args.file is Some && (args.start || args.stop) ==> r == Err::<
            Action,
            RunError,
        >(RunError::FileWithDaemonOption),
        !(args.start && args.stop) && !(args.file is Some && (args.start || args.stop)) ==> {
            &&& r is Ok
            &&& daemon ==> r == Ok::<Action, RunError>(Action::Serve(args.port))
            &&& !daemon && args.stop ==> r == Ok::<Action, RunError>(Action::Stop)
            &&& !daemon && args.start ==> r == Ok::<Action, RunError>(Action::Start(args.port))
            &&& !daemon && !args.stop && !args.start ==> match args.file {
                Some(f) => r matches Ok(Action::Open(p, g)) && p == args.port && g@ == f@,
                None => r == Ok::<Action, RunError>(Action::Home(args.port)),
            }
        },
{
    if args.start && args.stop {
        return Err(RunError::StartWithStop);
    }
    if args.file.is_some() && (args.start || args.stop) {
        return Err(RunError::FileWithDaemonOption);
    }
    if daemon {
        return Ok(Action::Serve(args.port));
    }
    if args.stop {
        return Ok(Action::Stop);
    }
    if args.start {
        return Ok(Action::Start(args.port));
    }
    match &args.file {
        Some(f) => Ok(Action::Open(args.port, vstd::slice::slice_to_vec(f.as_slice()))),
        None => Ok(Action::Home(args.port)),
    }
}

} // verus!

verus! {

/// The options, and whether options are still read, after the arguments
/// `rest` are read from `acc` (where reading them does not stop early).
pub open spec fn args_state(rest: Seq<CliArg>, acc: ArgsView, positional_only: bool) -> (ArgsView, bool)
    decreases rest.len(),
{
    if rest.len() == 0 {
        (acc, positional_only)
    } else {
        let a = rest[0];
        let tail = rest.drop_first();
        let t = text_of(a);
        match kind_of(a, positional_only) {
            ArgKind::Start => args_state(tail, ArgsView { start: true, ..acc }, positional_only),
            ArgKind::Stop => args_state(tail, ArgsView { stop: true, ..acc }, positional_only),
            ArgKind::PortNext => if tail.len() == 0 {
                (acc, positional_only)
            } else {
                match port_value(tail[0]) {
                    Some(p) => args_state(
                        tail.drop_first(),
                        ArgsView { port: p, ..acc },
                        positional_only,
                    ),
                    None => (acc, positional_only),
                }
            },
            ArgKind::EndOfOptions => args_state(tail, acc, true),
            ArgKind::PortInline => match parse_u16(t.skip("--port="@.len() as int)) {
                Some(p) => args_state(tail, ArgsView { port: p, ..acc }, positional_only),
                None => (acc, positional_only),
            },
            ArgKind::Positional => if acc.file is Some {
                (acc, positional_only)
            } else {
                args_state(tail, ArgsView { file: Some(a.path_bytes()), ..acc }, positional_only)
            },
            _ => (acc, positional_only),
        }
    }
}

/// Whether an argument is the text `--`.
pub open spec fn is_end_of_options(a: CliArg) -> bool {
    a matches CliArg::Text(s) && s@ == "--"@
}

/// `--` read as an option ends the options, and names no port.
proof fn lemma_end_of_options_kind(a: CliArg)
    requires
        is_end_of_options(a),
    ensures
        kind_of(a, false) == ArgKind::EndOfOptions,
        port_value(a) is None,
{
    reveal_strlit("--");
    reveal_strlit("--start");
    reveal_strlit("--stop");
    reveal_strlit("-p");
    reveal_strlit("--port");
    reveal_strlit("-h");
    reveal_strlit("--help");
    reveal_strlit("-V");
    reveal_strlit("--version");
    reveal_strlit("--port=");
    let t = text_of(a);
    assert(t.len() == 2 && t[0] == '-' && t[1] == '-');
    assert(t != "-p"@ && t != "-h"@ && t != "-V"@);
    assert(!has_prefix(t, "--port="@));
    assert(crate::text::unsigned_digits(t) == t);
    assert(!crate::text::is_digit(t[0]));
}

/// Reading accepted arguments from `acc` gives what `args_state` says, and
/// reading more after them continues from that state.
proof fn lemma_parse_prefix(xs: Seq<CliArg>, zs: Seq<CliArg>, acc: ArgsView, po: bool)
    requires
        parse_args(xs, acc, po) matches Ok(CommandView::Run(_)),
    ensures
        parse_args(xs, acc, po) == Ok::<CommandView, ArgsErrorView>(
            CommandView::Run(args_state(xs, acc, po).0),
        ),
        parse_args(xs + zs, acc, po) == parse_args(
            zs,
            args_state(xs, acc, po).0,
            args_state(xs, acc, po).1,
        ),
    decreases xs.len(),
{
    if xs.len() == 0 {
        assert(xs + zs =~= zs);
    } else {
        let a = xs[0];
        let tail = xs.drop_first();
        let t = text_of(a);
        assert((xs + zs)[0] == a);
        assert((xs + zs).drop_first() =~= tail + zs);
        match kind_of(a, po) {
            ArgKind::Start => {
                lemma_parse_prefix(tail, zs, ArgsView { start: true, ..acc }, po);
            },
            ArgKind::Stop => {
                lemma_parse_prefix(tail, zs, ArgsView { stop: true, ..acc }, po);
            },
            ArgKind::PortNext => {
                let p = port_value(tail[0])->0;
                assert((tail + zs)[0] == tail[0]);
                assert((tail + zs).drop_first() =~= tail.drop_first() + zs);
                lemma_parse_prefix(tail.drop_first(), zs, ArgsView { port: p, ..acc }, po);
            },
            ArgKind::EndOfOptions => {
                lemma_parse_prefix(tail, zs, acc, true);
            },
            ArgKind::PortInline => {
                let p = parse_u16(t.skip("--port="@.len() as int))->0;
                lemma_parse_prefix(tail, zs, ArgsView { port: p, ..acc }, po);
            },
            ArgKind::Positional => {
                lemma_parse_prefix(tail, zs, ArgsView { file: Some(a.path_bytes()), ..acc }, po);
            },
            _ => {},
        }
    }
}

/// Once every argument is a file, it stays so.
proof fn lemma_state_positional_only(xs: Seq<CliArg>, acc: ArgsView)
    ensures
        args_state(xs, acc, true).1,
    decreases xs.len(),
{
    if xs.len() > 0 && acc.file is None {
        lemma_state_positional_only(xs.drop_first(), ArgsView { file: Some(xs[0].path_bytes()), ..acc });
    }
}

/// Without a `--` among the arguments, options are still read after them.
proof fn lemma_state_no_end(xs: Seq<CliArg>, acc: ArgsView)
    requires
        forall|i: int| 0 <= i < xs.len() ==> !is_end_of_options(#[trigger] xs[i]),
    ensures
        !args_state(xs, acc, false).1,
    decreases xs.len(),
{
    reveal_strlit("--");
    if xs.len() > 0 {
        let a = xs[0];
        let tail = xs.drop_first();
        let t = text_of(a);
        assert(!is_end_of_options(xs[0]));
        assert forall|i: int| 0 <= i < tail.len() implies !is_end_of_options(#[trigger] tail[i]) by {
            assert(tail[i] == xs[i + 1]);
        }
        match kind_of(a, false) {
            ArgKind::Start => {
                lemma_state_no_end(tail, ArgsView { start: true, ..acc });
            },
            ArgKind::Stop => {
                lemma_state_no_end(tail, ArgsView { stop: true, ..acc });
            },
            ArgKind::PortNext => {
                if tail.len() > 0 && port_value(tail[0]) is Some {
                    let rest = tail.drop_first();
                    assert forall|i: int| 0 <= i < rest.len() implies !is_end_of_options(#[trigger] rest[i]) by {
                        assert(rest[i] == tail[i + 1]);
                    }
                    lemma_state_no_end(rest, ArgsView { port: port_value(tail[0])->0, ..acc });
                }
            },
            ArgKind::PortInline => {
                if parse_u16(t.skip("--port="@.len() as int)) is Some {
                    let p = parse_u16(t.skip("--port="@.len() as int))->0;
                    lemma_state_no_end(tail, ArgsView { port: p, ..acc });
                }
            },
            ArgKind::Positional => {
                if acc.file is None {
                    lemma_state_no_end(tail, ArgsView { file: Some(a.path_bytes()), ..acc });
                }
            },
            _ => {},
        }
    }
}

/// With a `--` among accepted arguments, every later argument is a file.
proof fn lemma_state_end(xs: Seq<CliArg>, acc: ArgsView, i: int)
    requires
        parse_args(xs, acc, false) matches Ok(CommandView::Run(_)),
        0 <= i < xs.len(),
        is_end_of_options(xs[i]),
    ensures
        args_state(xs, acc, false).1,
    decreases xs.len(),
{
    let a = xs[0];
    let tail = xs.drop_first();
    let t = text_of(a);
    if i == 0 {
        lemma_end_of_options_kind(a);
        lemma_state_positional_only(tail, acc);
    } else {
        assert(tail[i - 1] == xs[i]);
        match kind_of(a, false) {
            ArgKind::Start => {
                lemma_state_end(tail, ArgsView { start: true, ..acc }, i - 1);
            },
            ArgKind::Stop => {
                lemma_state_end(tail, ArgsView { stop: true, ..acc }, i - 1);
            },
            ArgKind::PortNext => {
                if i == 1 {
                    lemma_end_of_options_kind(tail[0]);
                } else {
                    let rest = tail.drop_first();
                    assert(rest[i - 2] == xs[i]);
                    lemma_state_end(rest, ArgsView { port: port_value(tail[0])->0, ..acc }, i - 2);
                }
            },
            ArgKind::EndOfOptions => {
                lemma_state_positional_only(tail, acc);
            },
            ArgKind::PortInline => {
                let p = parse_u16(t.skip("--port="@.len() as int))->0;
                lemma_state_end(tail, ArgsView { port: p, ..acc }, i - 1);
            },
            ArgKind::Positional => {
                lemma_state_end(tail, ArgsView { file: Some(a.path_bytes()), ..acc }, i - 1);
            },
            _ => {},
        }
    }
}

/// Once the arguments read so far are accepted and options are still read,
/// an argument that looks like an option but is none refuses the command
/// line, whatever follows it.
pub proof fn lemma_unknown_option_refuses(xs: Seq<CliArg>, a: CliArg, ys: Seq<CliArg>)
    requires
        command_of(xs) matches Ok(CommandView::Run(_)),
        forall|i: int| 0 <= i < xs.len() ==> !is_end_of_options(#[trigger] xs[i]),
        kind_of(a, false) == ArgKind::Unknown,
    ensures
        command_of(xs + seq![a] + ys) == Err::<CommandView, ArgsErrorView>(
            ArgsErrorView::UnknownOption(text_of(a)),
        ),
{
    let zs = seq![a] + ys;
    lemma_parse_prefix(xs, zs, default_args(), false);
    lemma_state_no_end(xs, default_args());
    assert(xs + seq![a] + ys =~= xs + zs);
    assert(zs[0] == a);
}

/// Once the arguments read so far are accepted and name a file, another
/// argument taken as a file (one that is not an option, or any argument
/// after `--`) refuses the command line, whatever follows it: a second file
/// never replaces the first.
pub proof fn lemma_second_file_refused(xs: Seq<CliArg>, g: CliArg, ys: Seq<CliArg>)
    requires
        command_of(xs) matches Ok(CommandView::Run(args)) && args.file is Some,
        kind_of(g, false) == ArgKind::Positional || exists|i: int|
            0 <= i < xs.len() && is_end_of_options(#[trigger] xs[i]),
    ensures
        command_of(xs + seq![g] + ys) == Err::<CommandView, ArgsErrorView>(
            ArgsErrorView::MultipleFiles,
        ),
{
    let zs = seq![g] + ys;
    lemma_parse_prefix(xs, zs, default_args(), false);
    if exists|i: int| 0 <= i < xs.len() && is_end_of_options(#[trigger] xs[i]) {
        let i = choose|i: int| 0 <= i < xs.len() && is_end_of_options(#[trigger] xs[i]);
        lemma_state_end(xs, default_args(), i);
    }
    assert(xs + seq![g] + ys =~= xs + zs);
    assert(zs[0] == g);
}

} // verus!

verus! {

/// A parse result with the daemon asked to stop: a run gets `stop` set, and
/// anything else stays as it is.
pub open spec fn stop_asked(r: Result<CommandView, ArgsErrorView>) -> Result<CommandView, ArgsErrorView> {
    match r {
        Ok(CommandView::Run(a)) => Ok(CommandView::Run(ArgsView { stop: true, ..a })),
        _ => r,
    }
}

/// Starting from options with `stop` set reads the arguments just as
/// starting without it, with `stop` set in the run it gives.
proof fn lemma_parse_with_stop(xs: Seq<CliArg>, acc: ArgsView, po: bool)
    ensures
        parse_args(xs, ArgsView { stop: true, ..acc }, po) == stop_asked(parse_args(xs, acc, po)),
    decreases xs.len(),
{
    if xs.len() > 0 {
        let a = xs[0];
        let tail = xs.drop_first();
        let t = text_of(a);
        match kind_of(a, po) {
            ArgKind::Start => {
                lemma_parse_with_stop(tail, ArgsView { start: true, ..acc }, po);
                assert(ArgsView { start: true, ..ArgsView { stop: true, ..acc } } == ArgsView {
                    stop: true,
                    ..ArgsView { start: true, ..acc }
                });
            },
            ArgKind::Stop => {
                lemma_parse_with_stop(tail, acc, po);
                assert(ArgsView { stop: true, ..ArgsView { stop: true, ..acc } } == ArgsView {
                    stop: true,
                    ..acc
                });
            },
            ArgKind::PortNext => {
                if tail.len() > 0 && port_value(tail[0]) is Some {
                    let p = port_value(tail[0])->0;
                    lemma_parse_with_stop(tail.drop_first(), ArgsView { port: p, ..acc }, po);
                    assert(ArgsView { port: p, ..ArgsView { stop: true, ..acc } } == ArgsView {
                        stop: true,
                        ..ArgsView { port: p, ..acc }
                    });
                }
            },
            ArgKind::EndOfOptions => {
                lemma_parse_with_stop(tail, acc, true);
            },
            ArgKind::PortInline => {
                if parse_u16(t.skip("--port="@.len() as int)) is Some {
                    let p = parse_u16(t.skip("--port="@.len() as int))->0;
                    lemma_parse_with_stop(tail, ArgsView { port: p, ..acc }, po);
                    assert(ArgsView { port: p, ..ArgsView { stop: true, ..acc } } == ArgsView {
                        stop: true,
                        ..ArgsView { port: p, ..acc }
                    });
                }
            },
            ArgKind::Positional => {
                if acc.file is None {
                    let f = Some(a.path_bytes());
                    lemma_parse_with_stop(tail, ArgsView { file: f, ..acc }, po);
                    assert(ArgsView { file: f, ..ArgsView { stop: true, ..acc } } == ArgsView {
                        stop: true,
                        ..ArgsView { file: f, ..acc }
                    });
                }
            },
            _ => {},
        }
    }
}

/// `--stop` asks the daemon to stop and nothing else: put before any
/// arguments, it gives what they give alone, a run with `stop` set (so
/// `mdv --stop` alone is a run with only `stop` set).
pub proof fn lemma_stop_option(s: String, xs: Seq<CliArg>)
    requires
        s@ == "--stop"@,
    ensures
        command_of(seq![CliArg::Text(s)] + xs) == stop_asked(command_of(xs)),
        command_of(seq![CliArg::Text(s)]) == Ok::<CommandView, ArgsErrorView>(
            CommandView::Run(ArgsView { stop: true, ..default_args() }),
        ),
{
    reveal_strlit("--stop");
    reveal_strlit("--start");
    let a = CliArg::Text(s);
    assert(s@ != "--start"@);
    assert(arg_kind(s@) == ArgKind::Stop);
    let ys = seq![a] + xs;
    assert(ys[0] == a);
    assert(ys.drop_first() =~= xs);
    lemma_parse_with_stop(xs, default_args(), false);
    let zs = seq![a];
    assert(zs[0] == a);
    assert(zs.drop_first() =~= Seq::<CliArg>::empty());
    lemma_parse_with_stop(Seq::<CliArg>::empty(), default_args(), false);
}

} // verus!

verus! {

/// A parse result with the daemon asked to start: a run gets `start` set, and
/// anything else stays as it is.
pub open spec fn start_asked(r: Result<CommandView, ArgsErrorView>) -> Result<CommandView, ArgsErrorView> {
    match r {
        Ok(CommandView::Run(a)) => Ok(CommandView::Run(ArgsView { start: true, ..a })),
        _ => r,
    }
}

/// Starting from options with `start` set reads the arguments just as
/// starting without it, with `start` set in the run it gives.
proof fn lemma_parse_with_start(xs: Seq<CliArg>, acc: ArgsView, po: bool)
    ensures
        parse_args(xs, ArgsView { start: true, ..acc }, po) == start_asked(parse_args(xs, acc, po)),
    decreases xs.len(),
{
    if xs.len() > 0 {
        let a = xs[0];
        let tail = xs.drop_first();
        let t = text_of(a);
        match kind_of(a, po) {
            ArgKind::Stop => {
                lemma_parse_with_start(tail, ArgsView { stop: true, ..acc }, po);
                assert(ArgsView { stop: true, ..ArgsView { start: true, ..acc } } == ArgsView {
                    start: true,
                    ..ArgsView { stop: true, ..acc }
                });
            },
            ArgKind::Start => {
                lemma_parse_with_start(tail, acc, po);
                assert(ArgsView { start: true, ..ArgsView { start: true, ..acc } } == ArgsView {
                    start: true,
                    ..acc
                });
            },
            ArgKind::PortNext => {
                if tail.len() > 0 && port_value(tail[0]) is Some {
                    let p = port_value(tail[0])->0;
                    lemma_parse_with_start(tail.drop_first(), ArgsView { port: p, ..acc }, po);
                    assert(ArgsView { port: p, ..ArgsView { start: true, ..acc } } == ArgsView {
                        start: true,
                        ..ArgsView { port: p, ..acc }
                    });
                }
            },
            ArgKind::EndOfOptions => {
                lemma_parse_with_start(tail, acc, true);
            },
            ArgKind::PortInline => {
                if parse_u16(t.skip("--port="@.len() as int)) is Some {
                    let p = parse_u16(t.skip("--port="@.len() as int))->0;
                    lemma_parse_with_start(tail, ArgsView { port: p, ..acc }, po);
                    assert(ArgsView { port: p, ..ArgsView { start: true, ..acc } } == ArgsView {
                        start: true,
                        ..ArgsView { port: p, ..acc }
                    });
                }
            },
            ArgKind::Positional => {
                if acc.file is None {
                    let f = Some(a.path_bytes());
                    lemma_parse_with_start(tail, ArgsView { file: f, ..acc }, po);
                    assert(ArgsView { file: f, ..ArgsView { start: true, ..acc } } == ArgsView {
                        start: true,
                        ..ArgsView { file: f, ..acc }
                    });
                }
            },
            _ => {},
        }
    }
}

/// `--start` asks the daemon to start and nothing else: put before any
/// arguments, it gives what they give alone, a run with `start` set (so
/// `mdv --start` alone is a run with only `start` set).
pub proof fn lemma_start_option(s: String, xs: Seq<CliArg>)
    requires
        s@ == "--start"@,
    ensures
        command_of(seq![CliArg::Text(s)] + xs) == start_asked(command_of(xs)),
        command_of(seq![CliArg::Text(s)]) == Ok::<CommandView, ArgsErrorView>(
            CommandView::Run(ArgsView { start: true, ..default_args() }),
        ),
{
    reveal_strlit("--start");
    reveal_strlit("--stop");
    let a = CliArg::Text(s);
    assert(s@ != "--stop"@);
    assert(arg_kind(s@) == ArgKind::Start);
    let ys = seq![a] + xs;
    assert(ys[0] == a);
    assert(ys.drop_first() =~= xs);
    lemma_parse_with_start(xs, default_args(), false);
    let zs = seq![a];
    assert(zs[0] == a);
    assert(zs.drop_first() =~= Seq::<CliArg>::empty());
    lemma_parse_with_start(Seq::<CliArg>::empty(), default_args(), false);
}

} // verus!
