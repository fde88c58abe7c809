//! Installing and removing the LaunchDaemon.
//!
//! The daemon runs as root, so its binary must live somewhere only root can
//! write. `/usr/local/bin` is group-writable by `admin` on stock macOS, which
//! would let any admin-level process replace the binary and gain root at the
//! next launch; hence the dedicated root-owned directory below.

use vstd::prelude::*;
use vstd::string::*;

use crate::status::SOCKET_PATH;
use crate::text::{decimal, octal, push_decimal, push_octal, trim, trimmed};
use crate::time::{millis, Duration};
use crate::tun::net::{owned, push_spaced, spaced, Command, CommandView};

verus! {

pub const LABEL: &'static str = "dev.jost.muta";

pub const INSTALL_DIR: &'static str = "/usr/local/libexec/muta";

pub const PLIST_PATH: &'static str = "/Library/LaunchDaemons/dev.jost.muta.plist";

pub const NEWSYSLOG_PATH: &'static str = "/etc/newsyslog.d/muta.conf";

pub const LOG_PATH: &'static str = "/var/log/muta.log";

pub const LAUNCHCTL: &'static str = "/bin/launchctl";

/// The daemon logs every 10s forever; without this the log grows without bound.
pub const NEWSYSLOG_CONF: &'static str = "# logfilename          [owner:group]  mode count size  when flags\n/var/log/muta.log      root:wheel     644   5     1000  *    J\n";

/// The job description up to the label.
pub const PLIST_HEAD: &'static str = "<?xml version=\"1.0\" encoding=\"UTF-8\"?>\n<!DOCTYPE plist PUBLIC \"-//Apple//DTD PLIST 1.0//EN\" \"http://www.apple.com/DTDs/PropertyList-1.0.dtd\">\n<plist version=\"1.0\">\n<dict>\n    <key>Label</key>\n    <string>";

/// From the label to the binary.
pub const PLIST_PROGRAM: &'static str = "</string>\n\n    <key>ProgramArguments</key>\n    <array>\n        <string>";

/// From the binary to where it writes. Resident: the daemon watches for hotplug
/// itself.
pub const PLIST_OUTPUT: &'static str = "</string>\n        <string>run</string>\n    </array>\n\n    <!-- Resident: the daemon watches for hotplug itself. -->\n    <key>RunAtLoad</key>\n    <true/>\n    <key>KeepAlive</key>\n    <true/>\n\n    <key>StandardOutPath</key>\n    <string>";

/// From where it writes to where it writes errors.
pub const PLIST_ERRORS: &'static str = "</string>\n    <key>StandardErrorPath</key>\n    <string>";

/// From where it writes errors to the end.
pub const PLIST_TAIL: &'static str = "</string>\n\n    <key>ProcessType</key>\n    <string>Background</string>\n</dict>\n</plist>\n";

/// Where the binary is installed.
pub open spec fn binary_path() -> Seq<char> {
    INSTALL_DIR@ + "/muta"@
}

/// Where the binary is installed.
pub fn installed_binary() -> (s: String)
    ensures
        s@ == binary_path(),
{
    let mut s = INSTALL_DIR.to_owned();
    s.append("/muta");
    s
}

/// The job description for a binary.
pub open spec fn plist_text(binary: Seq<char>) -> Seq<char> {
    PLIST_HEAD@ + LABEL@ + PLIST_PROGRAM@ + binary + PLIST_OUTPUT@ + LOG_PATH@ + PLIST_ERRORS@
        + LOG_PATH@ + PLIST_TAIL@
}

/// The job description for a binary. Generated rather than shipped, so the path can
/// never disagree with where the binary actually landed.
pub fn plist(binary: &str) -> (s: String)
    ensures
        s@ == plist_text(binary@),
{
    let mut s = PLIST_HEAD.to_owned();
    s.append(LABEL);
    s.append(PLIST_PROGRAM);
    s.append(binary);
    s.append(PLIST_OUTPUT);
    s.append(LOG_PATH);
    s.append(PLIST_ERRORS);
    s.append(LOG_PATH);
    s.append(PLIST_TAIL);
    s
}

/// Whether a directory is root's, and only root can write to it.
pub open spec fn root_only(uid: u32, mode: u32) -> bool {
    uid == 0 && mode & 0o022 == 0
}

/// Whether a directory is root's, and only root can write to it.
pub fn is_root_only(uid: u32, mode: u32) -> (r: bool)
    ensures
        r == root_only(uid, mode),
{
    uid == 0 && mode & 0o022 == 0
}

/// Refuse rather than install a root-executed binary somewhere another user could
/// overwrite it.
pub fn check_directory(dir: &str, uid: u32, mode: u32) -> (r: Result<(), String>)
    ensures
        r is Ok <==> root_only(uid, mode),
        match r {
            Ok(_) => true,
            Err(s) => s@ == dir@ + " is not root-owned and root-writable-only (uid "@ + decimal(
                uid as nat,
            ) + ", mode "@ + octal((mode & 0o777) as nat) + "); refusing to install"@,
        },
{
    if is_root_only(uid, mode) {
        return Ok(());
    }
    let mut s = dir.to_owned();
    s.append(" is not root-owned and root-writable-only (uid ");
    push_decimal(&mut s, uid as u64);
    s.append(", mode ");
    push_octal(&mut s, mode & 0o777);
    s.append("); refusing to install");
    Err(s)
}

/// The name launchd knows the service by.
pub open spec fn service_target() -> Seq<char> {
    "system/"@ + LABEL@
}

/// A request to launchd.
#[derive(Clone, Copy, Debug, PartialEq, Eq, Structural)]
pub enum Request {
    /// Stop the service.
    Bootout,
    /// Load it from its job description.
    Bootstrap,
    /// Let it run; a previous stop can leave it disabled.
    Enable,
}

impl Request {
    pub open spec fn args(self) -> Seq<Seq<char>> {
        match self {
            Request::Bootout => seq!["bootout"@, service_target()],
            Request::Bootstrap => seq!["bootstrap"@, "system"@, PLIST_PATH@],
            Request::Enable => seq!["enable"@, service_target()],
        }
    }

    /// The command that makes the request.
    pub fn command(self) -> (r: Command)
        ensures
            r@ == (CommandView { program: LAUNCHCTL@, args: self.args() }),
    {
        let mut target = "system/".to_owned();
        target.append(LABEL);
        let args = match self {
            Request::Bootout => {
                let ws: [&str; 2] = ["bootout", target.as_str()];
                owned(&ws)
            },
            Request::Bootstrap => {
                let ws: [&str; 3] = ["bootstrap", "system", PLIST_PATH];
                owned(&ws)
            },
            Request::Enable => {
                let ws: [&str; 2] = ["enable", target.as_str()];
                owned(&ws)
            },
        };
        let r = Command { program: LAUNCHCTL.to_owned(), args };
        assert(r@ =~= (CommandView { program: LAUNCHCTL@, args: self.args() }));
        r
    }

    /// What is reported when the request fails.
    pub fn failure(self, stderr: &str) -> (s: String)
        ensures
            s@ == "launchctl "@ + spaced(self.args()) + " failed: "@ + trimmed(stderr@),
    {
        let command = self.command();
        let mut s = "launchctl ".to_owned();
        push_spaced(&mut s, &command.args);
        s.append(" failed: ");
        s.append(trim(stderr).as_str());
        s
    }
}

/// How often loading the service is tried.
pub const LOAD_ATTEMPTS: u32 = 10;

/// How long to let pass after try `attempt` (from 0) to load the service failed,
/// and whether to try again. launchd rejects a load while the previous job is still
/// exiting, so give it a moment, each time a longer one, rather than failing a
/// reinstall.
pub fn after_failed_load(attempt: u32) -> (r: (Duration, bool))
    requires
        attempt < LOAD_ATTEMPTS,
    ensures
        r.0 == millis(200 * (attempt + 1)),
        r.1 <==> attempt + 1 < LOAD_ATTEMPTS,
{
    (Duration::from_millis(200 * (attempt as u64 + 1)), attempt + 1 < LOAD_ATTEMPTS)
}

/// One step of installing or removing the service.
#[derive(Debug)]
pub enum Step {
    /// Make a request of launchd. Whether it succeeds does not matter.
    Ask(Request),
    /// Load the service, trying again while it fails.
    Load,
    /// Create the install directory and verify that it is root's alone.
    SecureDirectory,
    /// Copy the running executable beside its place and rename it, so a failed copy
    /// cannot leave a half-written binary that launchd would try to run.
    PlaceBinary,
    /// Write the job description.
    WritePlist,
    /// Write the log rotation.
    WriteNewsyslog,
    /// Remove a file. It is fine if there is none.
    Remove(String),
    /// Remove the install directory if it is empty; never one someone else put
    /// things in.
    RemoveDirectory,
}

/// A step as plain values.
pub enum StepView {
    Ask(Request),
    Load,
    SecureDirectory,
    PlaceBinary,
    WritePlist,
    WriteNewsyslog,
    Remove(Seq<char>),
    RemoveDirectory,
}

impl View for Step {
    type V = StepView;

    open spec fn view(&self) -> StepView {
        match *self {
            Step::Ask(request) => StepView::Ask(request),
            Step::Load => StepView::Load,
            Step::SecureDirectory => StepView::SecureDirectory,
            Step::PlaceBinary => StepView::PlaceBinary,
            Step::WritePlist => StepView::WritePlist,
            Step::WriteNewsyslog => StepView::WriteNewsyslog,
            Step::Remove(path) => StepView::Remove(path@),
            Step::RemoveDirectory => StepView::RemoveDirectory,
        }
    }
}

/// Steps as plain values.
pub open spec fn steps_of(v: Seq<Step>) -> Seq<StepView> {
    v.map_values(|s: Step| s@)
}

/// The steps, if wanted.
pub open spec fn only_if(wanted: bool, steps: Seq<StepView>) -> Seq<StepView> {
    if wanted {
        steps
    } else {
        Seq::empty()
    }
}

/// How the service is installed. One that is installed already is stopped before its
/// binary is replaced, and the binary is not copied onto itself.
pub open spec fn install_plan(present: bool, in_place: bool) -> Seq<StepView> {
    only_if(present, seq![StepView::Ask(Request::Bootout)]) + seq![StepView::SecureDirectory]
        + only_if(!in_place, seq![StepView::PlaceBinary]) + seq![
        StepView::WritePlist,
        StepView::WriteNewsyslog,
        StepView::Load,
        StepView::Ask(Request::Enable),
    ]
}

/// How the service is installed: `present` says whether a job description is there
/// already, `in_place` whether the running executable is the installed one.
pub fn install_steps(present: bool, in_place: bool) -> (r: Vec<Step>)
    ensures
        steps_of(r@) == install_plan(present, in_place),
{
    let mut r: Vec<Step> = Vec::new();
    if present {
        r.push(Step::Ask(Request::Bootout));
    }
    r.push(Step::SecureDirectory);
    if !in_place {
        r.push(Step::PlaceBinary);
    }
    r.push(Step::WritePlist);
    r.push(Step::WriteNewsyslog);
    r.push(Step::Load);
    r.push(Step::Ask(Request::Enable));
    assert(steps_of(r@) =~= install_plan(present, in_place));
    r
}

/// How the service is removed: it is stopped, then all it left behind goes.
pub open spec fn uninstall_plan(present: bool) -> Seq<StepView> {
    only_if(present, seq![StepView::Ask(Request::Bootout)]) + seq![
        StepView::Remove(PLIST_PATH@),
        StepView::Remove(NEWSYSLOG_PATH@),
        StepView::Remove(LOG_PATH@),
        StepView::Remove(SOCKET_PATH@),
        StepView::Remove(binary_path()),
        StepView::RemoveDirectory,
    ]
}

/// How the service is removed: `present` says whether its job description is there.
pub fn uninstall_steps(present: bool) -> (r: Vec<Step>)
    ensures
        steps_of(r@) == uninstall_plan(present),
{
    let mut r: Vec<Step> = Vec::new();
    if present {
        r.push(Step::Ask(Request::Bootout));
    }
    r.push(Step::Remove(PLIST_PATH.to_owned()));
    r.push(Step::Remove(NEWSYSLOG_PATH.to_owned()));
    r.push(Step::Remove(LOG_PATH.to_owned()));
    r.push(Step::Remove(SOCKET_PATH.to_owned()));
    r.push(Step::Remove(installed_binary()));
    r.push(Step::RemoveDirectory);
    assert(steps_of(r@) =~= uninstall_plan(present));
    r
}

/// The directory is verified before anything is placed in it, and everything is in
/// place before the service is loaded.
pub proof fn nothing_is_placed_unverified(present: bool, in_place: bool)
    ensures
        ({
            let plan = install_plan(present, in_place);
            &&& plan.contains(StepView::SecureDirectory)
            &&& plan.contains(StepView::Load)
            &&& forall|i: int, j: int|
                0 <= i < plan.len() && 0 <= j < plan.len() && plan[i] is SecureDirectory
                    && plan[j] is PlaceBinary ==> i < j
            &&& forall|i: int, j: int|
                0 <= i < plan.len() && 0 <= j < plan.len() && plan[i] is Load && (
                plan[j] is PlaceBinary || plan[j] is WritePlist || plan[j] is SecureDirectory)
                    ==> j < i
        }),
{
    let plan = install_plan(present, in_place);
    let at = if present {
        1int
    } else {
        0int
    };
    assert(plan[at] is SecureDirectory);
    assert(plan[plan.len() - 2] is Load);
}

/// A directory that its group or others can write to is never accepted, whoever
/// owns it.
pub proof fn shared_directories_are_refused(uid: u32, mode: u32)
    requires
        mode & 0o020 != 0 || mode & 0o002 != 0,
    ensures
        !root_only(uid, mode),
{
    assert(mode & 0o022 == 0 ==> mode & 0o020 == 0 && mode & 0o002 == 0) by (bit_vector);
}

/// A directory is accepted exactly if root owns it and neither its group nor others can
/// write to it.
pub proof fn only_root_directories_are_accepted(uid: u32, mode: u32)
    ensures
        root_only(uid, mode) <==> uid == 0 && mode & 0o020 == 0 && mode & 0o002 == 0,
{
    assert(mode & 0o022 == 0 <==> mode & 0o020 == 0 && mode & 0o002 == 0) by (bit_vector);
}

/// Installing, step by step. A service that is there is stopped first; a binary that is
/// in its place stays there.
pub proof fn installing_goes_step_by_step(present: bool, in_place: bool)
    ensures
        ({
            let plan = install_plan(present, in_place);
            let a: int = if present {
                1
            } else {
                0
            };
            let b: int = if in_place {
                0
            } else {
                1
            };
            &&& plan.len() == a + b + 5
            &&& present ==> plan[0] == StepView::Ask(Request::Bootout)
            &&& plan[a] is SecureDirectory
            &&& !in_place ==> plan[a + 1] is PlaceBinary
            &&& plan[a + b + 1] is WritePlist
            &&& plan[a + b + 2] is WriteNewsyslog
            &&& plan[a + b + 3] is Load
            &&& plan[a + b + 4] == StepView::Ask(Request::Enable)
        }),
{
}

/// Removing leaves nothing behind: the service is stopped if it is there, then its job
/// description, the log rotation, the log, the socket and the binary go, and last its
/// directory.
pub proof fn removing_leaves_nothing_behind(present: bool)
    ensures
        ({
            let plan = uninstall_plan(present);
            let a: int = if present {
                1
            } else {
                0
            };
            &&& plan.len() == a + 6
            &&& present ==> plan[0] == StepView::Ask(Request::Bootout)
            &&& plan[a] == StepView::Remove("/Library/LaunchDaemons/dev.jost.muta.plist"@)
            &&& plan[a + 1] == StepView::Remove("/etc/newsyslog.d/muta.conf"@)
            &&& plan[a + 2] == StepView::Remove("/var/log/muta.log"@)
            &&& plan[a + 3] == StepView::Remove("/var/run/rndis-tether.sock"@)
            &&& plan[a + 4] == StepView::Remove("/usr/local/libexec/muta"@ + "/muta"@)
            &&& plan[a + 5] is RemoveDirectory
        }),
{
}

/// The requests to launchd, word by word.
pub proof fn requests_are_worded()
    ensures
        Request::Bootout.args() == seq!["bootout"@, "system/"@ + "dev.jost.muta"@],
        Request::Bootstrap.args() == seq![
            "bootstrap"@,
            "system"@,
            "/Library/LaunchDaemons/dev.jost.muta.plist"@,
        ],
        Request::Enable.args() == seq!["enable"@, "system/"@ + "dev.jost.muta"@],
{
}

/// A job description holds the binary it is for, the same text in front of it and behind
/// it whatever that is.
pub proof fn job_descriptions_differ_only_in_the_binary(a: Seq<char>, b: Seq<char>)
    ensures
        exists|front: Seq<char>, back: Seq<char>|
            plist_text(a) == #[trigger] (front + a + back) && plist_text(b) == front + b + back,
{
    let front = PLIST_HEAD@ + LABEL@ + PLIST_PROGRAM@;
    let back = PLIST_OUTPUT@ + LOG_PATH@ + PLIST_ERRORS@ + LOG_PATH@ + PLIST_TAIL@;
    assert(plist_text(a) =~= front + a + back);
    assert(plist_text(b) =~= front + b + back);
}

} // verus!
