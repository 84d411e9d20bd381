use vstd::prelude::*;
use crate::path::part_views;

verus! {

/// A diagnostic for the user. Messages are surfaced, never inspected
/// programmatically.
#[derive(Debug)]
pub struct HookError {
    pub message: String,
}

/// The selected check, with its options: the formatter with an optional
/// inline configuration override, the type-check with an optional feature
/// list or an all-features toggle, or the linter.
pub enum Cmd {
    Fmt { config: Option<String> },
    Check { features: Option<String>, all_features: bool },
    Clippy,
}

impl Cmd {
    /// The cargo subcommand this check runs.
    pub open spec fn spec_subcommand(&self) -> Seq<char> {
        match self {
            Cmd::Fmt { .. } => "fmt"@,
            Cmd::Check { .. } => "check"@,
            Cmd::Clippy => "clippy"@,
        }
    }

    /// The arguments handed to cargo when this check runs against a root.
    pub open spec fn spec_args(&self) -> Seq<Seq<char>> {
        match self {
            Cmd::Fmt { config } => match config {
                Some(c) => seq!["fmt"@, "--"@, "--config"@, c@],
                None => seq!["fmt"@],
            },
            Cmd::Check { features, all_features } => if *all_features {
                seq!["check"@, "--all-features"@]
            } else {
                match features {
                    Some(f) => seq!["check"@, "--features"@, f@],
                    None => seq!["check"@],
                }
            },
            Cmd::Clippy => seq!["clippy"@, "--"@, "-D"@, "warnings"@],
        }
    }

    /// The diagnostic for a missing subcommand executable.
    pub open spec fn spec_missing_message(&self) -> Seq<char> {
        match self {
            Cmd::Fmt { .. } => "Missing `cargo fmt`, try installing with `rustup component add rustfmt`"@,
            Cmd::Check { .. } => "Missing `cargo check`, you may need to update or reinstall rust."@,
            Cmd::Clippy => "Missing `cargo clippy`, try installing with `rustup component add clippy`"@,
        }
    }

    /// The diagnostic when the tool process could not be started.
    pub open spec fn spec_exec_failure_message(&self) -> Seq<char> {
        match self {
            Cmd::Fmt { .. } => "failed to exec `cargo fmt`"@,
            Cmd::Check { .. } => "failed to exec `cargo check`"@,
            Cmd::Clippy => "failed to exec `cargo clippy`"@,
        }
    }

    /// The diagnostic when the tool ran and reported problems.
    pub open spec fn spec_found_errors_message(&self) -> Seq<char> {
        match self {
            Cmd::Fmt { .. } => "`cargo fmt` found errors"@,
            Cmd::Check { .. } => "`cargo check` found errors"@,
            Cmd::Clippy => "`cargo clippy` found errors"@,
        }
    }

    /// The cargo subcommand name for this check.
    pub fn subcommand(&self) -> (sub: String)
        ensures
            sub@ == self.spec_subcommand(),
    {
        match self {
            Cmd::Fmt { .. } => String::from_str("fmt"),
            Cmd::Check { .. } => String::from_str("check"),
            Cmd::Clippy => String::from_str("clippy"),
        }
    }

    /// The argument list after `cargo` for one run of this check. The
    /// all-features toggle takes precedence over an explicit feature list.
    pub fn args(&self) -> (argv: Vec<String>)
        ensures
            part_views(argv@) == self.spec_args(),
    {
        let mut argv: Vec<String> = Vec::new();
        match self {
            Cmd::Fmt { config } => {
                argv.push(String::from_str("fmt"));
                if let Some(c) = config {
                    argv.push(String::from_str("--"));
                    argv.push(String::from_str("--config"));
                    argv.push(c.clone());
                    assert(part_views(argv@) =~= self.spec_args());
                } else {
                    assert(part_views(argv@) =~= self.spec_args());
                }
            },
            Cmd::Check { features, all_features } => {
                argv.push(String::from_str("check"));
                if *all_features {
                    argv.push(String::from_str("--all-features"));
                    assert(part_views(argv@) =~= self.spec_args());
                } else if let Some(f) = features {
                    argv.push(String::from_str("--features"));
                    argv.push(f.clone());
                    assert(part_views(argv@) =~= self.spec_args());
                } else {
                    assert(part_views(argv@) =~= self.spec_args());
                }
            },
            Cmd::Clippy => {
                argv.push(String::from_str("clippy"));
                argv.push(String::from_str("--"));
                argv.push(String::from_str("-D"));
                argv.push(String::from_str("warnings"));
                assert(part_views(argv@) =~= self.spec_args());
            },
        }
        argv
    }

    /// The error reported when the subcommand's executable is missing.
    pub fn missing(&self) -> (e: HookError)
        ensures
            e.message@ == self.spec_missing_message(),
    {
        let message = match self {
            Cmd::Fmt { .. } => String::from_str(
                "Missing `cargo fmt`, try installing with `rustup component add rustfmt`",
            ),
            Cmd::Check { .. } => String::from_str(
                "Missing `cargo check`, you may need to update or reinstall rust.",
            ),
            Cmd::Clippy => String::from_str(
                "Missing `cargo clippy`, try installing with `rustup component add clippy`",
            ),
        };
        HookError { message }
    }

    /// Decide from the outcome of probing `cargo <sub> --help` whether the
    /// subcommand can run at all: `probe` is `None` when the probe process
    /// could not be started, otherwise whether it exited successfully.
    pub fn check_subcommand(&self, probe: Option<bool>) -> (r: Result<(), HookError>)
        ensures
            match r {
                Result::Ok(_) => probe == Some(true),
                Result::Err(e) => probe != Some(true) && e.message@
                    == self.spec_missing_message(),
            },
    {
        match probe {
            Some(true) => Ok(()),
            _ => Err(self.missing()),
        }
    }

    /// Interpret one run of this check against one root: `status` is `None`
    /// when the tool process could not be started, otherwise whether it
    /// exited successfully. Success of the run is exactly a successful exit.
    pub fn run(&self, status: Option<bool>) -> (r: Result<(), HookError>)
        ensures
            match r {
                Result::Ok(_) => status == Some(true),
                Result::Err(e) => match status {
                    Some(ok) => !ok && e.message@ == self.spec_found_errors_message(),
                    None => e.message@ == self.spec_exec_failure_message(),
                },
            },
    {
        match status {
            Some(true) => Ok(()),
            Some(false) => {
                let message = match self {
                    Cmd::Fmt { .. } => String::from_str("`cargo fmt` found errors"),
                    Cmd::Check { .. } => String::from_str("`cargo check` found errors"),
                    Cmd::Clippy => String::from_str("`cargo clippy` found errors"),
                };
                Err(HookError { message })
            },
            None => {
                let message = match self {
                    Cmd::Fmt { .. } => String::from_str("failed to exec `cargo fmt`"),
                    Cmd::Check { .. } => String::from_str("failed to exec `cargo check`"),
                    Cmd::Clippy => String::from_str("failed to exec `cargo clippy`"),
                };
                Err(HookError { message })
            },
        }
    }
}

} // verus!
