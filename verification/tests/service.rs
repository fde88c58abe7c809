use muta::cli::{default_filter, parse, unknown_command, Invocation, USAGE};
use muta::service::{
    after_failed_load, check_directory, install_steps, installed_binary, plist, uninstall_steps,
    Request, Step, NEWSYSLOG_CONF,
};
use muta::time::Duration;

fn cli(args: &[&str]) -> Invocation {
    parse(&args.iter().map(|a| a.to_string()).collect())
}

#[test]
fn commands_are_recognised() {
    assert!(matches!(cli(&[]), Invocation::Help));
    assert!(matches!(cli(&["help"]), Invocation::Help));
    assert!(matches!(cli(&["--help"]), Invocation::Help));
    assert!(matches!(cli(&["-h"]), Invocation::Help));
    assert!(matches!(cli(&["run"]), Invocation::Run { verbose: false }));
    assert!(matches!(cli(&["run", "-v"]), Invocation::Run { verbose: true }));
    assert!(matches!(
        cli(&["run", "x", "--verbose"]),
        Invocation::Run { verbose: true }
    ));
    assert!(matches!(cli(&["status"]), Invocation::Status));
    assert!(matches!(
        cli(&["probe", "--watch"]),
        Invocation::Probe { verbose: false, watch: true }
    ));
    assert!(matches!(cli(&["install"]), Invocation::Install));
    assert!(matches!(cli(&["uninstall"]), Invocation::Uninstall));
    assert!(matches!(cli(&["--version"]), Invocation::Version));
    assert!(matches!(cli(&["-V"]), Invocation::Version));
    assert!(matches!(cli(&["-v"]), Invocation::Unknown(s) if s == "-v"));
}

#[test]
fn only_what_needs_root_is_refused_to_others() {
    assert_eq!(
        cli(&["install"]).require_root(501).unwrap_err(),
        "`muta install` must run as root (try: sudo muta install)"
    );
    assert!(cli(&["run"]).require_root(1).is_err());
    assert!(cli(&["uninstall"]).require_root(1).is_err());
    assert!(cli(&["run"]).require_root(0).is_ok());
    assert!(cli(&["status"]).require_root(501).is_ok());
    assert!(cli(&["probe"]).require_root(501).is_ok());
}

#[test]
fn logging_and_unknown_commands() {
    assert_eq!(default_filter(true), "debug,nusb=info");
    assert_eq!(default_filter(false), "info,nusb=warn");
    assert_eq!(
        unknown_command("tether"),
        format!("muta: unknown command `tether`\n\n{USAGE}")
    );
    assert!(USAGE.contains("\n  muta run [-v]      bring up tethering in the foreground (needs root)\n"));
}

#[test]
fn the_job_description_names_the_binary() {
    assert_eq!(installed_binary(), "/usr/local/libexec/muta/muta");
    let text = plist(&installed_binary());
    assert!(text.starts_with("<?xml version=\"1.0\" encoding=\"UTF-8\"?>\n<!DOCTYPE plist"));
    assert!(text.contains("    <key>Label</key>\n    <string>dev.jost.muta</string>\n"));
    assert!(text.contains(
        "    <array>\n        <string>/usr/local/libexec/muta/muta</string>\n        <string>run</string>\n    </array>\n"
    ));
    assert!(text.contains("    <key>StandardErrorPath</key>\n    <string>/var/log/muta.log</string>\n"));
    assert!(text.ends_with("    <string>Background</string>\n</dict>\n</plist>\n"));
    assert!(NEWSYSLOG_CONF.ends_with("644   5     1000  *    J\n"));
}

#[test]
fn a_shared_directory_is_refused() {
    assert!(check_directory("/d", 0, 0o40755).is_ok());
    assert_eq!(
        check_directory("/d", 501, 0o40755).unwrap_err(),
        "/d is not root-owned and root-writable-only (uid 501, mode 755); refusing to install"
    );
    assert_eq!(
        check_directory("/d", 0, 0o40775).unwrap_err(),
        "/d is not root-owned and root-writable-only (uid 0, mode 775); refusing to install"
    );
    assert!(check_directory("/d", 0, 0o40757).is_err());
}

#[test]
fn launchd_is_asked_in_its_own_words() {
    let bootout = Request::Bootout.command();
    assert_eq!(bootout.program, "/bin/launchctl");
    assert_eq!(bootout.args, ["bootout", "system/dev.jost.muta"]);
    assert_eq!(
        Request::Bootstrap.command().args,
        [
            "bootstrap",
            "system",
            "/Library/LaunchDaemons/dev.jost.muta.plist"
        ]
    );
    assert_eq!(
        Request::Enable.failure(" denied\n"),
        "launchctl enable system/dev.jost.muta failed: denied"
    );
}

#[test]
fn loading_is_tried_ten_times() {
    assert_eq!(after_failed_load(0), (Duration::from_millis(200), true));
    assert_eq!(after_failed_load(8), (Duration::from_millis(1800), true));
    assert_eq!(after_failed_load(9), (Duration::from_millis(2000), false));
}

#[test]
fn installing_goes_step_by_step() {
    let fresh = install_steps(false, false);
    assert!(matches!(
        fresh.as_slice(),
        [
            Step::SecureDirectory,
            Step::PlaceBinary,
            Step::WritePlist,
            Step::WriteNewsyslog,
            Step::Load,
            Step::Ask(Request::Enable)
        ]
    ));
    let again = install_steps(true, true);
    assert!(matches!(
        again.as_slice(),
        [
            Step::Ask(Request::Bootout),
            Step::SecureDirectory,
            Step::WritePlist,
            Step::WriteNewsyslog,
            Step::Load,
            Step::Ask(Request::Enable)
        ]
    ));
}

#[test]
fn removing_leaves_nothing_behind() {
    let steps = uninstall_steps(true);
    let paths: Vec<&str> = steps
        .iter()
        .filter_map(|s| match s {
            Step::Remove(path) => Some(path.as_str()),
            _ => None,
        })
        .collect();
    assert_eq!(
        paths,
        [
            "/Library/LaunchDaemons/dev.jost.muta.plist",
            "/etc/newsyslog.d/muta.conf",
            "/var/log/muta.log",
            "/var/run/rndis-tether.sock",
            "/usr/local/libexec/muta/muta"
        ]
    );
    assert!(matches!(steps[0], Step::Ask(Request::Bootout)));
    assert!(matches!(steps[6], Step::RemoveDirectory));
    assert!(matches!(uninstall_steps(false)[0], Step::Remove(_)));
}
