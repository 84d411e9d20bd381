use precommit_cargo::action::Cmd;
use precommit_cargo::dispatch::{Dispatcher, Outcome};
use precommit_cargo::path::RepoPath;

fn p(parts: &[&str]) -> RepoPath {
    RepoPath { parts: parts.iter().map(|s| s.to_string()).collect() }
}

fn fmt_plain() -> Cmd {
    Cmd::Fmt { config: None }
}

#[test]
fn subcommand_names() {
    assert_eq!(fmt_plain().subcommand(), "fmt");
    assert_eq!(Cmd::Check { features: None, all_features: false }.subcommand(), "check");
    assert_eq!(Cmd::Clippy.subcommand(), "clippy");
}

#[test]
fn fmt_args() {
    assert_eq!(fmt_plain().args(), vec!["fmt"]);
    let with_config = Cmd::Fmt { config: Some("tab_spaces=2".to_string()) };
    assert_eq!(with_config.args(), vec!["fmt", "--", "--config", "tab_spaces=2"]);
}

#[test]
fn check_args() {
    assert_eq!(Cmd::Check { features: None, all_features: false }.args(), vec!["check"]);
    let with_features = Cmd::Check { features: Some("serde,extra".to_string()), all_features: false };
    assert_eq!(with_features.args(), vec!["check", "--features", "serde,extra"]);
    let all = Cmd::Check { features: None, all_features: true };
    assert_eq!(all.args(), vec!["check", "--all-features"]);
}

#[test]
fn all_features_takes_precedence() {
    let both = Cmd::Check { features: Some("serde".to_string()), all_features: true };
    assert_eq!(both.args(), vec!["check", "--all-features"]);
}

#[test]
fn clippy_args_escalate_warnings() {
    assert_eq!(Cmd::Clippy.args(), vec!["clippy", "--", "-D", "warnings"]);
}

#[test]
fn missing_messages() {
    assert_eq!(
        fmt_plain().missing().message,
        "Missing `cargo fmt`, try installing with `rustup component add rustfmt`"
    );
    assert_eq!(
        Cmd::Check { features: None, all_features: false }.missing().message,
        "Missing `cargo check`, you may need to update or reinstall rust."
    );
    assert_eq!(
        Cmd::Clippy.missing().message,
        "Missing `cargo clippy`, try installing with `rustup component add clippy`"
    );
}

#[test]
fn check_subcommand_decision() {
    assert!(fmt_plain().check_subcommand(Some(true)).is_ok());
    let failed = Cmd::Clippy.check_subcommand(Some(false)).unwrap_err();
    assert_eq!(failed.message, "Missing `cargo clippy`, try installing with `rustup component add clippy`");
    let not_run = Cmd::Clippy.check_subcommand(None).unwrap_err();
    assert_eq!(not_run.message, "Missing `cargo clippy`, try installing with `rustup component add clippy`");
}

#[test]
fn run_outcomes() {
    assert!(fmt_plain().run(Some(true)).is_ok());
    assert_eq!(fmt_plain().run(Some(false)).unwrap_err().message, "`cargo fmt` found errors");
    assert_eq!(fmt_plain().run(None).unwrap_err().message, "failed to exec `cargo fmt`");
    assert_eq!(
        Cmd::Check { features: None, all_features: false }.run(Some(false)).unwrap_err().message,
        "`cargo check` found errors"
    );
    assert_eq!(Cmd::Clippy.run(None).unwrap_err().message, "failed to exec `cargo clippy`");
}

#[test]
fn dispatcher_visits_each_root_once_in_order() {
    let roots = vec![p(&["a"]), p(&["b"]), p(&["c"])];
    let mut d = Dispatcher::new(roots);
    let mut visited: Vec<Vec<String>> = Vec::new();
    loop {
        let parts = match d.current() {
            Some(root) => root.parts.clone(),
            None => break,
        };
        visited.push(parts);
        d.record(&Outcome::Success);
    }
    assert!(d.is_done());
    assert_eq!(visited, vec![vec!["a".to_string()], vec!["b".to_string()], vec!["c".to_string()]]);
    assert_eq!(d.failure_count(), 0);
    assert!(d.succeeded());
}

#[test]
fn partial_failure_processes_all_roots() {
    let roots = vec![p(&["one"]), p(&["two"]), p(&["three"])];
    let cmd = Cmd::Clippy;
    let mut d = Dispatcher::new(roots);
    let mut visited = 0usize;
    loop {
        // the middle root's run fails; the others succeed
        let status = match d.current() {
            Some(root) => Some(root.parts != vec!["two".to_string()]),
            None => break,
        };
        visited += 1;
        match cmd.run(status) {
            Ok(()) => d.record(&Outcome::Success),
            Err(e) => d.record(&Outcome::Failure(e)),
        }
    }
    assert_eq!(visited, 3);
    assert!(d.is_done());
    assert_eq!(d.failure_count(), 1);
    assert!(!d.succeeded());
}

#[test]
fn empty_dispatch_is_immediate_success() {
    let mut d = Dispatcher::new(Vec::new());
    assert!(d.current().is_none());
    assert!(d.is_done());
    assert_eq!(d.failure_count(), 0);
    assert!(d.succeeded());
    let _ = &mut d;
}
