//! The command line: which command was asked for, which profile applies, and
//! the fixed text the commands print. Colour codes are left in; callers strip
//! them (see `text::strip_ansi`) when the terminal cannot render them.

use vstd::prelude::*;
use vstd::string::StringExecFns;

use crate::config::{Fan, Profile};
use crate::text::{chars_of, text_eq};

verus! {

pub const RESET: &'static str = "\x1b[0m";

pub const GREEN: &'static str = "\x1b[92m";

pub const CYAN: &'static str = "\x1b[96m";

pub const WHITE: &'static str = "\x1b[97m";

pub const GRAY: &'static str = "\x1b[90m";

pub const RED: &'static str = "\x1b[91m";

pub const ORANGE: &'static str = "\x1b[38;5;208m";

pub const YELLOW: &'static str = "\x1b[93m";

/// `a`, `b` and `c` joined.
fn join3(a: &str, b: &str, c: &str) -> (s: String)
    ensures
        s@ == a@ + b@ + c@,
{
    let mut s = String::from_str(a);
    s.append(b);
    s.append(c);
    s
}

pub open spec fn rule_line() -> Seq<char> {
    "========================================"@
}

/// The banner every command opens with, line by line.
pub open spec fn spec_banner() -> Seq<Seq<char>> {
    seq![
        "\n"@ + CYAN@ + rule_line() + RESET@,
        WHITE@ + "             CustomAIO"@ + RESET@,
        CYAN@ + rule_line() + RESET@ + "\n"@,
    ]
}

fn banner() -> (lines: Vec<String>)
    ensures
        lines@.map_values(|l: String| l@) == spec_banner(),
{
    let mut lines: Vec<String> = Vec::new();
    let mut first = String::from_str("\n");
    first.append(CYAN);
    first.append("========================================");
    first.append(RESET);
    lines.push(first);
    lines.push(join3(WHITE, "             CustomAIO", RESET));
    let mut third = join3(CYAN, "========================================", RESET);
    third.append("\n");
    lines.push(third);
    assert(lines@.map_values(|l: String| l@) =~= spec_banner());
    lines
}

/// The lines a command's header prints: the banner, then the title.
pub open spec fn spec_header(title: Seq<char>) -> Seq<Seq<char>> {
    spec_banner().push(YELLOW@ + title + RESET@ + "\n"@)
}

/// The header a command prints before its output, line by line.
pub fn header(title: &str) -> (lines: Vec<String>)
    ensures
        lines@.map_values(|l: String| l@) == spec_header(title@),
{
    let mut lines = banner();
    let ghost before = lines@;
    let mut last = join3(YELLOW, title, RESET);
    last.append("\n");
    lines.push(last);
    assert(lines@.map_values(|l: String| l@) =~= before.map_values(|l: String| l@).push(YELLOW@ + title@ + RESET@ + "\n"@));
    lines
}

/// One entry of the command menu: a coloured command and what it does.
pub open spec fn menu_line(color: Seq<char>, command: Seq<char>, what: Seq<char>) -> Seq<char> {
    "  "@ + color + command + RESET@ + what
}

/// The help text, line by line.
pub open spec fn spec_help() -> Seq<Seq<char>> {
    spec_banner() + seq![
        menu_line(GREEN@, "fan silent"@, "       Apply the Silent profile"@),
        menu_line(ORANGE@, "fan perf"@, "         Apply the Performance profile"@),
        menu_line(CYAN@, "fan status"@, "       Cooler, profile and temperatures"@),
        menu_line(WHITE@, "fan lcd"@, "          Run the display service"@),
        menu_line(WHITE@, "fan preview"@, "      Render a frame to PNG, no device needed"@),
        menu_line(WHITE@, "fan devices"@, "      List detected coolers"@),
        menu_line(WHITE@, "fan package"@, "      Build a zip you can share"@),
        menu_line(GRAY@, "fan help"@, "         Show this menu\n"@),
        "  "@ + GRAY@ + "Settings live in config.toml next to this program."@ + RESET@,
        "  "@ + GRAY@ + "`fan preview dial` previews one style without changing it."@ + RESET@ + "\n"@,
    ]
}

fn menu(color: &str, command: &str, what: &str) -> (s: String)
    ensures
        s@ == menu_line(color@, command@, what@),
{
    let mut s = String::from_str("  ");
    s.append(color);
    s.append(command);
    s.append(RESET);
    s.append(what);
    s
}

/// The help text, line by line.
pub fn help() -> (lines: Vec<String>)
    ensures
        lines@.map_values(|l: String| l@) == spec_help(),
{
    let mut lines = banner();
    lines.push(menu(GREEN, "fan silent", "       Apply the Silent profile"));
    lines.push(menu(ORANGE, "fan perf", "         Apply the Performance profile"));
    lines.push(menu(CYAN, "fan status", "       Cooler, profile and temperatures"));
    lines.push(menu(WHITE, "fan lcd", "          Run the display service"));
    lines.push(menu(WHITE, "fan preview", "      Render a frame to PNG, no device needed"));
    lines.push(menu(WHITE, "fan devices", "      List detected coolers"));
    lines.push(menu(WHITE, "fan package", "      Build a zip you can share"));
    lines.push(menu(GRAY, "fan help", "         Show this menu\n"));
    let mut settings = join3("  ", GRAY, "Settings live in config.toml next to this program.");
    settings.append(RESET);
    lines.push(settings);
    let mut last = join3("  ", GRAY, "`fan preview dial` previews one style without changing it.");
    last.append(RESET);
    last.append("\n");
    lines.push(last);
    assert(lines@.map_values(|l: String| l@) =~= spec_help());
    lines
}

/// The commands the program understands.
pub enum Command {
    Silent,
    Performance,
    Status,
    Service,
    Preview,
    Devices,
    Package,
    Help,
    /// Anything else, with the error to report.
    Unknown(String),
}

pub open spec fn spec_unknown_command(name: Seq<char>) -> Seq<char> {
    "unknown command '"@ + name + "'. Try `fan help`."@
}

/// Whether `c` is the command that `n` names, the names tried in order.
pub open spec fn command_named(n: Seq<char>, c: Command) -> bool {
    if n == "silent"@ {
        c is Silent
    } else if n == "perf"@ || n == "performance"@ {
        c is Performance
    } else if n == "status"@ {
        c is Status
    } else if n == "lcd"@ || n == "service"@ {
        c is Service
    } else if n == "preview"@ {
        c is Preview
    } else if n == "devices"@ || n == "list"@ {
        c is Devices
    } else if n == "package"@ {
        c is Package
    } else if n == "help"@ || n == "-h"@ || n == "--help"@ {
        c is Help
    } else {
        c matches Command::Unknown(e) && e@ == spec_unknown_command(n)
    }
}

/// The command that `name` names.
pub fn command_of(name: &str) -> (c: Command)
    ensures
        command_named(name@, c),
{
    if text_eq(name, "silent") {
        Command::Silent
    } else if text_eq(name, "perf") || text_eq(name, "performance") {
        Command::Performance
    } else if text_eq(name, "status") {
        Command::Status
    } else if text_eq(name, "lcd") || text_eq(name, "service") {
        Command::Service
    } else if text_eq(name, "preview") {
        Command::Preview
    } else if text_eq(name, "devices") || text_eq(name, "list") {
        Command::Devices
    } else if text_eq(name, "package") {
        Command::Package
    } else if text_eq(name, "help") || text_eq(name, "-h") || text_eq(name, "--help") {
        Command::Help
    } else {
        Command::Unknown(join3("unknown command '", name, "'. Try `fan help`."))
    }
}

/// The command named by the first argument; no argument means `help`.
pub fn parse_command(first: Option<&str>) -> (c: Command)
    ensures
        first is None ==> c is Help,
        first is Some ==> command_named(first.unwrap()@, c),
{
    match first {
        None => Command::Help,
        Some(a) => command_of(a),
    }
}

/// Whether the service was asked to run without a console (`--quiet` or `-q`).
pub fn quiet_requested(args: &[String]) -> (q: bool)
    ensures
        q == exists|i: int| 0 <= i < args@.len() && (#[trigger] args@[i]@ == "--quiet"@ || args@[i]@ == "-q"@),
{
    let mut i: usize = 0;
    while i < args.len()
        invariant
            0 <= i <= args@.len(),
            forall|j: int| 0 <= j < i ==> !(#[trigger] args@[j]@ == "--quiet"@ || args@[j]@ == "-q"@),
        decreases args@.len() - i,
    {
        if text_eq(args[i].as_str(), "--quiet") || text_eq(args[i].as_str(), "-q") {
            return true;
        }
        i = i + 1;
    }
    false
}

pub open spec fn spec_fan_disabled_message() -> Seq<char> {
    "fan control is disabled in config.toml ([fan] enabled = false)"@
}

/// The profile that `fan silent` or `fan perf` applies: refused when fan
/// control is disabled; `silent` names the silent profile and any other name
/// the performance one.
pub fn select_profile<'a>(fan: &'a Fan, name: &str) -> (r: Result<&'a Profile, String>)
    ensures
        !fan.enabled ==> (r matches Err(e) && e@ == spec_fan_disabled_message()),
        fan.enabled && name@ == "silent"@ ==> r == Ok::<&Profile, String>(&fan.silent),
        fan.enabled && name@ != "silent"@ ==> r == Ok::<&Profile, String>(&fan.performance),
{
    if !fan.enabled {
        return Err(String::from_str("fan control is disabled in config.toml ([fan] enabled = false)"));
    }
    if text_eq(name, "silent") {
        Ok(&fan.silent)
    } else {
        Ok(&fan.performance)
    }
}

/// Log a recurring failure only when the message changes, so a disconnected
/// cooler doesn't fill the log with one line per second: true when `msg`
/// differs from the last one logged, which it then becomes.
pub fn note_once(last: &mut String, msg: &str) -> (changed: bool)
    ensures
        changed == (old(last)@ != msg@),
        final(last)@ == msg@,
{
    if text_eq(last.as_str(), msg) {
        false
    } else {
        *last = String::from_str(msg);
        true
    }
}

/// Whether a file named `name` is a PawnIO module that goes into the
/// package: its extension (what follows the last dot, when that dot is not
/// the name's first character) is `bin`.
pub open spec fn is_module_file(name: Seq<char>) -> bool {
    let n = name.len();
    &&& n > 4
    &&& name[n - 4] == '.'
    &&& name[n - 3] == 'b'
    &&& name[n - 2] == 'i'
    &&& name[n - 1] == 'n'
}

/// Whether the package takes the file `name` (see `is_module_file`).
pub fn module_file(name: &str) -> (r: bool)
    ensures
        r == is_module_file(name@),
{
    let cs = chars_of(name);
    let n = cs.len();
    n > 4 && cs[n - 4] == '.' && cs[n - 3] == 'b' && cs[n - 2] == 'i' && cs[n - 1] == 'n'
}

/// Law: every documented command name, and each of its aliases, names its
/// command and nothing else; a name that is none of them is reported as an
/// unknown command that points to `fan help`.
pub proof fn lemma_command_names(n: Seq<char>, c: Command)
    ensures
        command_named("silent"@, c) <==> c is Silent,
        command_named("perf"@, c) <==> c is Performance,
        command_named("performance"@, c) <==> c is Performance,
        command_named("status"@, c) <==> c is Status,
        command_named("lcd"@, c) <==> c is Service,
        command_named("service"@, c) <==> c is Service,
        command_named("preview"@, c) <==> c is Preview,
        command_named("devices"@, c) <==> c is Devices,
        command_named("list"@, c) <==> c is Devices,
        command_named("package"@, c) <==> c is Package,
        command_named("help"@, c) <==> c is Help,
        command_named("-h"@, c) <==> c is Help,
        command_named("--help"@, c) <==> c is Help,
        n != "silent"@ && n != "perf"@ && n != "performance"@ && n != "status"@ && n != "lcd"@ && n != "service"@
            && n != "preview"@ && n != "devices"@ && n != "list"@ && n != "package"@ && n != "help"@ && n != "-h"@
            && n != "--help"@ ==> (command_named(n, c) <==> (c matches Command::Unknown(e) && e@
            == "unknown command '"@ + n + "'. Try `fan help`."@)),
{
    reveal_strlit("silent");
    reveal_strlit("perf");
    reveal_strlit("performance");
    reveal_strlit("status");
    reveal_strlit("lcd");
    reveal_strlit("service");
    reveal_strlit("preview");
    reveal_strlit("devices");
    reveal_strlit("list");
    reveal_strlit("package");
    reveal_strlit("help");
    reveal_strlit("-h");
    reveal_strlit("--help");
    assert("silent"@.len() == 6 && "perf"@.len() == 4 && "performance"@.len() == 11);
    assert("status"@.len() == 6 && "status"@[1] != "silent"@[1]);
    assert("lcd"@.len() == 3 && "service"@.len() == 7 && "preview"@.len() == 7 && "preview"@[0] != "service"@[0]);
    assert("devices"@.len() == 7 && "devices"@[0] != "service"@[0] && "devices"@[0] != "preview"@[0]);
    assert("list"@.len() == 4 && "list"@[0] != "perf"@[0]);
    assert("package"@.len() == 7 && "package"@[0] != "service"@[0] && "package"@[1] != "preview"@[1]
        && "package"@[0] != "devices"@[0]);
    assert("help"@.len() == 4 && "help"@[0] != "perf"@[0] && "help"@[0] != "list"@[0]);
    assert("-h"@.len() == 2 && "--help"@.len() == 6 && "--help"@[0] != "silent"@[0] && "--help"@[0] != "status"@[0]);
}

} // verus!
