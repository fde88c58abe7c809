//! The command line.

use vstd::prelude::*;
use vstd::string::*;

use crate::text::texts;

verus! {

pub const USAGE: &'static str = "muta — Android USB tethering for macOS\n\nusage:\n  muta run [-v]      bring up tethering in the foreground (needs root)\n  muta status        show the current connection\n  muta probe         dump USB descriptors of any attached RNDIS device\n  muta install       install and start the background service (needs root)\n  muta uninstall     stop and remove the background service (needs root)\n  muta --version     print the version\n\nTry `sudo muta run -v` first. Install once you want it to survive reboots.\n";

/// What the command line asks for.
#[derive(Debug)]
pub enum Invocation {
    Run { verbose: bool },
    Status,
    Probe { verbose: bool, watch: bool },
    Install,
    Uninstall,
    Version,
    Help,
    Unknown(String),
}

/// What the command line asks for, as plain values.
pub enum InvocationView {
    Run { verbose: bool },
    Status,
    Probe { verbose: bool, watch: bool },
    Install,
    Uninstall,
    Version,
    Help,
    Unknown(Seq<char>),
}

impl View for Invocation {
    type V = InvocationView;

    open spec fn view(&self) -> InvocationView {
        match *self {
            Invocation::Run { verbose } => InvocationView::Run { verbose },
            Invocation::Status => InvocationView::Status,
            Invocation::Probe { verbose, watch } => InvocationView::Probe { verbose, watch },
            Invocation::Install => InvocationView::Install,
            Invocation::Uninstall => InvocationView::Uninstall,
            Invocation::Version => InvocationView::Version,
            Invocation::Help => InvocationView::Help,
            Invocation::Unknown(s) => InvocationView::Unknown(s@),
        }
    }
}

/// Whether more is to be logged.
pub open spec fn asks_verbose(args: Seq<Seq<char>>) -> bool {
    args.contains("-v"@) || args.contains("--verbose"@)
}

/// What some arguments ask for. Flags may stand anywhere; without arguments, help.
pub open spec fn parsed(args: Seq<Seq<char>>) -> InvocationView {
    let command = if args.len() > 0 {
        args[0]
    } else {
        "help"@
    };
    if command == "run"@ {
        InvocationView::Run { verbose: asks_verbose(args) }
    } else if command == "status"@ {
        InvocationView::Status
    } else if command == "probe"@ {
        InvocationView::Probe {
            verbose: asks_verbose(args),
            watch: args.contains("--watch"@),
        }
    } else if command == "install"@ {
        InvocationView::Install
    } else if command == "uninstall"@ {
        InvocationView::Uninstall
    } else if command == "--version"@ || command == "-V"@ {
        InvocationView::Version
    } else if command == "help"@ || command == "--help"@ || command == "-h"@ {
        InvocationView::Help
    } else {
        InvocationView::Unknown(command)
    }
}

fn is(s: &String, word: &str) -> (r: bool)
    ensures
        r == (s@ == word@),
{
    *s == word.to_owned()
}

fn holds(args: &Vec<String>, word: &str) -> (r: bool)
    ensures
        r == texts(args@).contains(word@),
{
    for i in 0..args.len()
        invariant
            forall|j: int| 0 <= j < i ==> #[trigger] texts(args@)[j] != word@,
    {
        if is(&args[i], word) {
            assert(texts(args@)[i as int] == word@);
            return true;
        }
    }
    false
}

/// What the arguments behind the program's name ask for.
pub fn parse(args: &Vec<String>) -> (r: Invocation)
    ensures
        r@ == parsed(texts(args@)),
{
    let verbose = holds(args, "-v") || holds(args, "--verbose");
    let watch = holds(args, "--watch");
    let command = if args.len() > 0 {
        assert(texts(args@)[0] == args@[0]@);
        args[0].clone()
    } else {
        "help".to_owned()
    };
    if is(&command, "run") {
        Invocation::Run { verbose }
    } else if is(&command, "status") {
        Invocation::Status
    } else if is(&command, "probe") {
        Invocation::Probe { verbose, watch }
    } else if is(&command, "install") {
        Invocation::Install
    } else if is(&command, "uninstall") {
        Invocation::Uninstall
    } else if is(&command, "--version") || is(&command, "-V") {
        Invocation::Version
    } else if is(&command, "help") || is(&command, "--help") || is(&command, "-h") {
        Invocation::Help
    } else {
        Invocation::Unknown(command)
    }
}

impl InvocationView {
    /// The command that must run as root. utun, routes, DNS and
    /// `/Library/LaunchDaemons` all need it; `status` deliberately does not.
    pub open spec fn root_command(self) -> Option<Seq<char>> {
        match self {
            InvocationView::Run { .. } => Some("run"@),
            InvocationView::Install => Some("install"@),
            InvocationView::Uninstall => Some("uninstall"@),
            _ => None,
        }
    }
}

/// Why a command is refused to anyone but root.
pub open spec fn refusal(command: Seq<char>) -> Seq<char> {
    "`muta "@ + command + "` must run as root (try: sudo muta "@ + command + ")"@
}

impl Invocation {
    /// Refuse a command that needs root to anyone else, rather than fail part-way
    /// through a bring-up.
    pub fn require_root(&self, euid: u32) -> (r: Result<(), String>)
        ensures
            r is Err <==> euid != 0 && self@.root_command() is Some,
            match r {
                Ok(_) => true,
                Err(s) => s@ == refusal(self@.root_command()->0),
            },
    {
        let command = match self {
            Invocation::Run { .. } => "run",
            Invocation::Install => "install",
            Invocation::Uninstall => "uninstall",
            _ => return Ok(()),
        };
        if euid == 0 {
            return Ok(());
        }
        let mut s = "`muta ".to_owned();
        s.append(command);
        s.append("` must run as root (try: sudo muta ");
        s.append(command);
        s.append(")");
        Err(s)
    }
}

/// What is logged when the environment does not say. nusb logs every transfer; keep
/// it out of our own output.
pub fn default_filter(verbose: bool) -> (r: &'static str)
    ensures
        r@ == (if verbose {
            "debug,nusb=info"@
        } else {
            "info,nusb=warn"@
        }),
{
    if verbose {
        "debug,nusb=info"
    } else {
        "info,nusb=warn"
    }
}

/// What is printed for a command that does not exist.
pub fn unknown_command(other: &str) -> (s: String)
    ensures
        s@ == "muta: unknown command `"@ + other@ + "`\n\n"@ + USAGE@,
{
    let mut s = "muta: unknown command `".to_owned();
    s.append(other);
    s.append("`\n\n");
    s.append(USAGE);
    s
}

/// Flags count wherever they stand behind the command, and only those of the command.
pub proof fn flags_may_stand_anywhere(args: Seq<Seq<char>>)
    requires
        args.len() > 0,
    ensures
        ({
            let verbose = exists|i: int|
                0 <= i < args.len() && (#[trigger] args[i] == "-v"@ || args[i] == "--verbose"@);
            let watch = exists|i: int| 0 <= i < args.len() && #[trigger] args[i] == "--watch"@;
            &&& args[0] == "run"@ ==> parsed(args) == (InvocationView::Run { verbose })
            &&& args[0] == "probe"@ ==> parsed(args) == (InvocationView::Probe { verbose, watch })
        }),
{
    reveal_strlit("run");
    reveal_strlit("status");
    reveal_strlit("probe");
    if args[0] == "probe"@ {
        assert(args[0] != "run"@) by {
            assert("probe"@.len() != "run"@.len());
        }
        assert(args[0] != "status"@) by {
            assert("probe"@.len() != "status"@.len());
        }
    }
}

/// What changes the system needs root; looking does not.
pub proof fn only_changes_need_root(v: InvocationView)
    ensures
        v.root_command() is Some <==> v is Run || v is Install || v is Uninstall,
        v is Run ==> v.root_command() == Some("run"@),
        v is Install ==> v.root_command() == Some("install"@),
        v is Uninstall ==> v.root_command() == Some("uninstall"@),
{
}

/// Every command is known by its name, the version and the help also by their flags.
/// Without arguments there is help, and any other word is unknown.
pub proof fn commands_go_by_their_names(args: Seq<Seq<char>>)
    ensures
        args.len() == 0 ==> parsed(args) is Help,
        args.len() > 0 ==> {
            let word = args[0];
            &&& word == "run"@ ==> parsed(args) is Run
            &&& word == "status"@ ==> parsed(args) is Status
            &&& word == "probe"@ ==> parsed(args) is Probe
            &&& word == "install"@ ==> parsed(args) is Install
            &&& word == "uninstall"@ ==> parsed(args) is Uninstall
            &&& word == "--version"@ || word == "-V"@ ==> parsed(args) is Version
            &&& word == "help"@ || word == "--help"@ || word == "-h"@ ==> parsed(args) is Help
            &&& parsed(args) matches InvocationView::Unknown(other) ==> other == word
        },
{
    reveal_strlit("run");
    reveal_strlit("status");
    reveal_strlit("probe");
    reveal_strlit("install");
    reveal_strlit("uninstall");
    reveal_strlit("--version");
    reveal_strlit("-V");
    reveal_strlit("help");
    reveal_strlit("--help");
    reveal_strlit("-h");
    assert("run"@.len() == 3 && "probe"@.len() == 5 && "install"@.len() == 7 && "help"@.len() == 4);
    assert("status"@.len() == 6 && "--help"@.len() == 6);
    assert("uninstall"@.len() == 9 && "--version"@.len() == 9);
    assert("-V"@.len() == 2 && "-h"@.len() == 2);
    assert("status"@[0] != "--help"@[0]);
    assert("uninstall"@[0] != "--version"@[0]);
    assert("-V"@[1] != "-h"@[1]);
}

/// Whoever is refused is told the command and how to run it.
pub proof fn refusals_name_the_command(command: Seq<char>)
    ensures
        refusal(command) == "`muta "@ + command + "` must run as root (try: sudo muta "@ + command
            + ")"@,
{
}

} // verus!
