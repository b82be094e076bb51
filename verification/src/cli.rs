use vstd::prelude::*;

use crate::json::{Json, str_eq};

verus! {

/// The help text.
pub open spec fn usage_text() -> Seq<char> {
    "gazu — Pandoc filter for Mermaid diagrams

Usage:
  pandoc input.md -o output.html --filter gazu
  pandoc input.md -o output.pdf --pdf-engine=typst --filter gazu

Options:
  --version, -v          Show version
  --help, -h             Show this help

Environment:
  GAZU_CONFIG             Path to a mermaid.initialize() JSON config file
                          (same format as mmdc's --configFile)"@
}

/// The help text, printed for `--help` and when run by hand on a terminal.
pub fn usage() -> (r: &'static str)
    ensures
        r@ == usage_text(),
{
    "gazu — Pandoc filter for Mermaid diagrams

Usage:
  pandoc input.md -o output.html --filter gazu
  pandoc input.md -o output.pdf --pdf-engine=typst --filter gazu

Options:
  --version, -v          Show version
  --help, -h             Show this help

Environment:
  GAZU_CONFIG             Path to a mermaid.initialize() JSON config file
                          (same format as mmdc's --configFile)"
}

/// What a command line asks for.
pub enum Command {
    /// Print the help text.
    Help,
    /// Print the version.
    Version,
    /// Run as a filter for the given output format.
    Filter(String),
}

pub open spec fn is_help_flag(a: Seq<char>) -> bool {
    a == "--help"@ || a == "-h"@
}

pub open spec fn is_version_flag(a: Seq<char>) -> bool {
    a == "--version"@ || a == "-v"@
}

/// An argument that does not start with `-`: pandoc's output format.
pub open spec fn is_positional(a: Seq<char>) -> bool {
    !(a.len() > 0 && a[0] == '-')
}

/// The last positional argument, or `html` when there is none.
pub open spec fn last_positional(args: Seq<Seq<char>>) -> Seq<char>
    decreases args.len(),
{
    if args.len() == 0 {
        "html"@
    } else if is_positional(args.last()) {
        args.last()
    } else {
        last_positional(args.drop_last())
    }
}

/// The views of a sequence of strings.
pub open spec fn arg_views(args: Seq<String>) -> Seq<Seq<char>> {
    Seq::new(args.len(), |i: int| args[i]@)
}

/// Whether `a` is one of the help or version flags.
pub open spec fn is_flag(a: Seq<char>) -> bool {
    is_help_flag(a) || is_version_flag(a)
}

/// The position of the first help or version flag; the length when none.
pub open spec fn first_flag(args: Seq<Seq<char>>) -> int
    decreases args.len(),
{
    if args.len() == 0 {
        0
    } else if is_flag(args[0]) {
        0
    } else {
        1 + first_flag(args.drop_first())
    }
}

/// What the arguments (without the program name) ask for: the first
/// `--help`/`-h` or `--version`/`-v` decides; without one, the filter runs
/// for the last argument that does not start with `-`, or for `html`.
/// Other flags are ignored.
pub open spec fn command_for(args: Seq<Seq<char>>) -> CommandV {
    let i = first_flag(args);
    if i < args.len() {
        if is_help_flag(args[i]) {
            CommandV::Help
        } else {
            CommandV::Version
        }
    } else {
        CommandV::Filter(last_positional(args))
    }
}

/// `first_flag` is the position of the first flag, if any.
pub proof fn lemma_first_flag(args: Seq<Seq<char>>)
    ensures
        0 <= first_flag(args) <= args.len(),
        forall|j: int| 0 <= j < first_flag(args) ==> !is_flag(#[trigger] args[j]),
        first_flag(args) < args.len() ==> is_flag(args[first_flag(args)]),
    decreases args.len(),
{
    if args.len() > 0 && !is_flag(args[0]) {
        let t = args.drop_first();
        lemma_first_flag(t);
        assert forall|j: int| 0 <= j < first_flag(args) implies !is_flag(#[trigger] args[j]) by {
            if j > 0 {
                assert(args[j] == t[j - 1]);
            }
        }
    }
}

/// A flag with none before it is the first flag.
pub proof fn lemma_first_flag_at(args: Seq<Seq<char>>, i: int)
    requires
        0 <= i < args.len(),
        is_flag(args[i]),
        forall|j: int| 0 <= j < i ==> !is_flag(#[trigger] args[j]),
    ensures
        first_flag(args) == i,
{
    lemma_first_flag(args);
    if first_flag(args) < i {
        assert(!is_flag(args[first_flag(args)]));
    }
}

/// With no flag before position `i`, the first flag is at `i` or later.
pub proof fn lemma_first_flag_none_before(args: Seq<Seq<char>>, i: int)
    requires
        0 <= i <= args.len(),
        forall|j: int| 0 <= j < i ==> !is_flag(#[trigger] args[j]),
    ensures
        first_flag(args) >= i,
{
    lemma_first_flag(args);
    if first_flag(args) < i {
        assert(!is_flag(args[first_flag(args)]));
    }
}

/// The model of a [`Command`].
pub enum CommandV {
    Help,
    Version,
    Filter(Seq<char>),
}

impl View for Command {
    type V = CommandV;

    open spec fn view(&self) -> CommandV {
        match self {
            Command::Help => CommandV::Help,
            Command::Version => CommandV::Version,
            Command::Filter(f) => CommandV::Filter(f@),
        }
    }
}

fn starts_with_dash(a: &str) -> (r: bool)
    ensures
        r == !is_positional(a@),
{
    a.unicode_len() > 0 && a.get_char(0) == '-'
}

/// Reads the command line (without the program name).
pub fn parse_args(args: &Vec<String>) -> (r: Command)
    ensures
        r@ == command_for(arg_views(args@)),
{
    let ghost av = arg_views(args@);
    let mut format = String::from_str("html");
    let mut i: usize = 0;
    while i < args.len()
        invariant
            i <= args@.len(),
            av == arg_views(args@),
            forall|j: int| 0 <= j < i ==> !is_flag(#[trigger] av[j]),
            format@ == last_positional(av.take(i as int)),
        decreases args@.len() - i,
    {
        let a = args[i].as_str();
        let help = str_eq(a, "--help") || str_eq(a, "-h");
        let version = str_eq(a, "--version") || str_eq(a, "-v");
        if help || version {
            proof {
                assert(av[i as int] == a@);
                lemma_first_flag_at(av, i as int);
            }
            if help {
                return Command::Help;
            } else {
                return Command::Version;
            }
        }
        proof {
            assert(av.take(i + 1).drop_last() =~= av.take(i as int));
            assert(av.take(i + 1).last() == a@);
        }
        if !starts_with_dash(a) {
            format = args[i].clone();
        }
        i = i + 1;
    }
    proof {
        assert(av.take(av.len() as int) =~= av);
        lemma_first_flag_none_before(av, av.len() as int);
    }
    Command::Filter(format)
}

/// The version line: the program's version and the bundled mermaid.js's.
pub fn version_text(version: &str, mermaid_version: &str) -> (r: String)
    ensures
        r@ == "gazu "@ + version@ + " (mermaid.js "@ + mermaid_version@ + ")"@,
{
    let mut r = String::from_str("gazu ");
    r.append(version);
    r.append(" (mermaid.js ");
    r.append(mermaid_version);
    r.append(")");
    r
}

/// Checks a Mermaid configuration read from the file at `path`: it must be
/// a JSON object, passed on to `mermaid.initialize()` as it is.
pub fn check_config(path: &str, value: &Json) -> (r: Result<(), String>)
    ensures
        match r {
            Ok(()) => value@ is Object,
            Err(msg) => !(value@ is Object) && msg@ == "'"@ + path@ + "': expected a JSON object"@,
        },
{
    match value {
        Json::Object(_) => Ok(()),
        _ => {
            let mut msg = String::from_str("'");
            msg.append(path);
            msg.append("': expected a JSON object");
            Err(msg)
        },
    }
}


/// Reads a Mermaid configuration: the text of the file at `path` must be a
/// JSON object, which is handed on (as compact JSON) to
/// `mermaid.initialize()`.
pub fn config_json(path: &str, text: &str) -> (r: Result<String, String>)
    ensures
        match crate::json::parsed_json(text@) {
            None => r is Err && r->Err_0@ == "invalid JSON in '"@ + path@ + "'"@,
            Some(v) => if v is Object {
                r is Ok && r->Ok_0@ == crate::json::json_text(v)
            } else {
                r is Err && r->Err_0@ == "'"@ + path@ + "': expected a JSON object"@
            },
        },
{
    let value = match crate::json::parse_json(text) {
        Some(v) => v,
        None => {
            let mut msg = String::from_str("invalid JSON in '");
            msg.append(path);
            msg.append("'");
            return Err(msg);
        },
    };
    match check_config(path, &value) {
        Ok(()) => Ok(crate::json::json_text_of(&value)),
        Err(msg) => Err(msg),
    }
}

} // verus!
