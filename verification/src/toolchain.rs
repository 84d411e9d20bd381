use vstd::prelude::*;
use crate::action::HookError;

verus! {

/// What the version pattern `cargo (\d+\.\d+\.\S+)` captures from
/// `cargo --version` output: the first capture group of the leftmost match,
/// when the pattern matches at all.
pub uninterp spec fn version_capture_of(out: Seq<char>) -> Option<Seq<char>>;

/// Whether semver accepts the string as a version.
pub uninterp spec fn semver_accepts(s: Seq<char>) -> bool;

/// How semver orders two version strings: `None` when either fails to
/// parse, otherwise whether the first orders strictly before the second.
pub uninterp spec fn semver_lt_of(a: Seq<char>, b: Seq<char>) -> Option<bool>;

/// Relies on regex::Regex::new and regex::Regex::captures with the fixed
/// pattern above: the captured text is a function of the haystack alone.
#[verifier::external_body]
fn capture_version(out: &str) -> (r: Option<String>)
    ensures
        match r {
            Some(v) => version_capture_of(out@) == Some(v@),
            None => version_capture_of(out@) == Option::<Seq<char>>::None,
        },
{
    let re = regex::Regex::new(r"cargo (\d+\.\d+\.\S+)").unwrap();
    re.captures(out).map(|caps| caps[1].to_string())
}

/// Relies on semver::Version::parse: whether it accepts the string.
#[verifier::external_body]
fn is_valid_semver(s: &str) -> (ok: bool)
    ensures
        ok == semver_accepts(s@),
{
    semver::Version::parse(s).is_ok()
}

/// Relies on semver::Version::parse and the `Ord` impl of semver::Version:
/// the order of two version strings, defined exactly when both parse.
#[verifier::external_body]
fn semver_lt(a: &str, b: &str) -> (r: Option<bool>)
    ensures
        match r {
            Some(lt) => semver_lt_of(a@, b@) == Some(lt),
            None => semver_lt_of(a@, b@) == Option::<bool>::None,
        },
        semver_accepts(a@) && semver_accepts(b@) ==> r != Option::<bool>::None,
{
    match (semver::Version::parse(a), semver::Version::parse(b)) {
        (Ok(va), Ok(vb)) => Some(va < vb),
        _ => None,
    }
}

pub open spec fn unexpected_output_message(out: Seq<char>) -> Seq<char> {
    "Unexpected `cargo --version` output: "@ + out
}

pub open spec fn unparsable_version_message(cap: Seq<char>) -> Seq<char> {
    "could not parse cargo version: "@ + cap
}

pub open spec fn invalid_minimum_message(msrv: Seq<char>) -> Seq<char> {
    "could not parse minimum rust version: "@ + msrv
}

pub open spec fn version_too_old_message(ver: Seq<char>, msrv: Seq<char>) -> Seq<char> {
    "Rust toolchain "@ + ver + " does not meet minimum required version "@ + msrv
        + ". You may need to run `rustup update`."@
}

pub open spec fn default_not_found_message() -> Seq<char> {
    "Could not locate `cargo` binary. See https://www.rust-lang.org/tools/install to install rust"@
}

/// Read the toolchain version out of `cargo --version` output: the text the
/// version pattern captures, provided semver accepts it.
pub fn parse_toolchain_version(out: &str) -> (r: Result<String, HookError>)
    ensures
        match r {
            Result::Ok(v) => version_capture_of(out@) == Some(v@) && semver_accepts(v@),
            Result::Err(e) => match version_capture_of(out@) {
                Some(cap) => !semver_accepts(cap) && e.message@ == unparsable_version_message(cap),
                None => e.message@ == unexpected_output_message(out@),
            },
        },
{
    match capture_version(out) {
        Some(cap) => {
            if is_valid_semver(cap.as_str()) {
                Ok(cap)
            } else {
                let message = String::from_str("could not parse cargo version: ").concat(
                    cap.as_str(),
                );
                Err(HookError { message })
            }
        },
        None => {
            let message = String::from_str("Unexpected `cargo --version` output: ").concat(out);
            Err(HookError { message })
        },
    }
}

/// Configuration of the toolchain pre-flight. The minimum version, when
/// set, is a version string; a custom message may replace the default
/// diagnostic for a missing cargo binary.
pub struct CargoOpts {
    pub rust_version: Option<String>,
    pub auto_update: bool,
    pub not_found_message: Option<String>,
}

/// What the pre-flight decided.
pub enum ToolchainPlan {
    /// The toolchain satisfies every requirement: run the hook.
    Proceed,
    /// The toolchain is older than the configured minimum and updating was
    /// requested: run `rustup update`, then run the hook. The variant
    /// carries the version found and the configured minimum, for the
    /// caller's notice to the user.
    Update { found: String, minimum: String },
    /// Abort with the diagnostic before any root is touched.
    Fail(HookError),
}

pub open spec fn plan_fails_with(plan: ToolchainPlan, message: Seq<char>) -> bool {
    match plan {
        ToolchainPlan::Fail(e) => e.message@ == message,
        _ => false,
    }
}

pub open spec fn plan_updates_with(plan: ToolchainPlan, found: Seq<char>, minimum: Seq<char>) -> bool {
    match plan {
        ToolchainPlan::Update { found: f, minimum: m } => f@ == found && m@ == minimum,
        _ => false,
    }
}

pub open spec fn spec_not_found_text(opts: CargoOpts) -> Seq<char> {
    match opts.not_found_message {
        Some(m) => m@,
        None => default_not_found_message(),
    }
}

/// The decision of the toolchain pre-flight, from the output of
/// `cargo --version` (`None` when the cargo binary could not be run) and
/// the configured requirements: proceed, update first, or abort with a
/// diagnostic that tells a missing tool from a version that is too old.
pub fn check_toolchain(version_output: Option<&str>, opts: &CargoOpts) -> (plan: ToolchainPlan)
    ensures
        match version_output {
            None => plan_fails_with(plan, spec_not_found_text(*opts)),
            Some(out) => match version_capture_of(out@) {
                None => plan_fails_with(plan, unexpected_output_message(out@)),
                Some(cap) => if !semver_accepts(cap) {
                    plan_fails_with(plan, unparsable_version_message(cap))
                } else {
                    match opts.rust_version {
                        None => plan == ToolchainPlan::Proceed,
                        Some(m) => if !semver_accepts(m@) {
                            plan_fails_with(plan, invalid_minimum_message(m@))
                        } else {
                            match semver_lt_of(cap, m@) {
                                Some(true) => if opts.auto_update {
                                    plan_updates_with(plan, cap, m@)
                                } else {
                                    plan_fails_with(plan, version_too_old_message(cap, m@))
                                },
                                _ => plan == ToolchainPlan::Proceed,
                            }
                        },
                    }
                },
            },
        },
{
    match version_output {
        None => {
            let message = match &opts.not_found_message {
                Some(m) => m.clone(),
                None => String::from_str(
                    "Could not locate `cargo` binary. See https://www.rust-lang.org/tools/install to install rust",
                ),
            };
            ToolchainPlan::Fail(HookError { message })
        },
        Some(out) => match parse_toolchain_version(out) {
            Err(e) => ToolchainPlan::Fail(e),
            Ok(ver) => match &opts.rust_version {
                None => ToolchainPlan::Proceed,
                Some(m) => {
                    if !is_valid_semver(m.as_str()) {
                        let message = String::from_str(
                            "could not parse minimum rust version: ",
                        ).concat(m.as_str());
                        ToolchainPlan::Fail(HookError { message })
                    } else {
                        match semver_lt(ver.as_str(), m.as_str()) {
                            Some(true) => {
                                if opts.auto_update {
                                    ToolchainPlan::Update { found: ver, minimum: m.clone() }
                                } else {
                                    let message = String::from_str("Rust toolchain ").concat(
                                        ver.as_str(),
                                    ).concat(" does not meet minimum required version ").concat(
                                        m.as_str(),
                                    ).concat(". You may need to run `rustup update`.");
                                    ToolchainPlan::Fail(HookError { message })
                                }
                            },
                            _ => ToolchainPlan::Proceed,
                        }
                    }
                },
            },
        },
    }
}

/// Interpret one run of `rustup update`: `status` is `None` when the
/// process could not be run, otherwise whether it exited successfully.
pub fn update_rust(status: Option<bool>) -> (r: Result<(), HookError>)
    ensures
        match r {
            Result::Ok(_) => status == Some(true),
            Result::Err(e) => match status {
                Some(ok) => !ok && e.message@ == "failed to run `rustup update`, see above errors"@,
                None => e.message@ == "failed to run `rustup update`, is rust installed?"@,
            },
        },
{
    match status {
        Some(true) => Ok(()),
        Some(false) => Err(
            HookError { message: String::from_str("failed to run `rustup update`, see above errors") },
        ),
        None => Err(
            HookError { message: String::from_str("failed to run `rustup update`, is rust installed?") },
        ),
    }
}

} // verus!
