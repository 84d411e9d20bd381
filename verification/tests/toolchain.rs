use precommit_cargo::toolchain::{
    CargoOpts, ToolchainPlan, check_toolchain, parse_toolchain_version, update_rust,
};

fn opts(rust_version: Option<&str>, auto_update: bool, not_found_message: Option<&str>) -> CargoOpts {
    CargoOpts {
        rust_version: rust_version.map(|s| s.to_string()),
        auto_update,
        not_found_message: not_found_message.map(|s| s.to_string()),
    }
}

fn fail_message(plan: ToolchainPlan) -> String {
    match plan {
        ToolchainPlan::Fail(e) => e.message,
        ToolchainPlan::Proceed => panic!("expected a failing plan, got Proceed"),
        ToolchainPlan::Update { .. } => panic!("expected a failing plan, got Update"),
    }
}

#[test]
fn version_is_captured_from_cargo_output() {
    let v = parse_toolchain_version("cargo 1.75.0 (1d8b05cdd 2023-11-20)").unwrap();
    assert_eq!(v, "1.75.0");
}

#[test]
fn prerelease_version_is_captured() {
    let v = parse_toolchain_version("cargo 1.82.0-nightly (abc 2024-08-01)").unwrap();
    assert_eq!(v, "1.82.0-nightly");
}

#[test]
fn unexpected_output_is_an_error() {
    let e = parse_toolchain_version("rustup 1.27.0").unwrap_err();
    assert_eq!(e.message, "Unexpected `cargo --version` output: rustup 1.27.0");
}

#[test]
fn captured_text_must_be_a_version() {
    let e = parse_toolchain_version("cargo 1.2.x").unwrap_err();
    assert_eq!(e.message, "could not parse cargo version: 1.2.x");
}

#[test]
fn missing_cargo_uses_default_message() {
    let plan = check_toolchain(None, &opts(None, false, None));
    assert_eq!(
        fail_message(plan),
        "Could not locate `cargo` binary. See https://www.rust-lang.org/tools/install to install rust"
    );
}

#[test]
fn missing_cargo_uses_custom_message() {
    let plan = check_toolchain(None, &opts(None, false, Some("install rust first")));
    assert_eq!(fail_message(plan), "install rust first");
}

#[test]
fn no_minimum_version_proceeds() {
    let plan = check_toolchain(Some("cargo 1.70.0"), &opts(None, false, None));
    assert!(matches!(plan, ToolchainPlan::Proceed));
}

#[test]
fn satisfied_minimum_proceeds() {
    let plan = check_toolchain(Some("cargo 1.80.1 (abc)"), &opts(Some("1.75.0"), false, None));
    assert!(matches!(plan, ToolchainPlan::Proceed));
    let equal = check_toolchain(Some("cargo 1.75.0"), &opts(Some("1.75.0"), false, None));
    assert!(matches!(equal, ToolchainPlan::Proceed));
}

#[test]
fn old_toolchain_fails_without_auto_update() {
    let plan = check_toolchain(Some("cargo 1.70.0"), &opts(Some("1.75.0"), false, None));
    assert_eq!(
        fail_message(plan),
        "Rust toolchain 1.70.0 does not meet minimum required version 1.75.0. You may need to run `rustup update`."
    );
}

#[test]
fn old_toolchain_updates_with_auto_update() {
    let plan = check_toolchain(Some("cargo 1.70.0"), &opts(Some("1.75.0"), true, None));
    match plan {
        ToolchainPlan::Update { found, minimum } => {
            assert_eq!(found, "1.70.0");
            assert_eq!(minimum, "1.75.0");
        }
        ToolchainPlan::Proceed => panic!("expected Update, got Proceed"),
        ToolchainPlan::Fail(e) => panic!("expected Update, got Fail: {}", e.message),
    }
}

#[test]
fn prerelease_orders_before_its_release() {
    let plan = check_toolchain(Some("cargo 1.75.0-beta.3"), &opts(Some("1.75.0"), true, None));
    assert!(matches!(plan, ToolchainPlan::Update { .. }));
}

#[test]
fn unparsable_minimum_fails() {
    let plan = check_toolchain(Some("cargo 1.70.0"), &opts(Some("latest"), false, None));
    assert_eq!(fail_message(plan), "could not parse minimum rust version: latest");
}

#[test]
fn update_outcomes() {
    assert!(update_rust(Some(true)).is_ok());
    assert_eq!(
        update_rust(Some(false)).unwrap_err().message,
        "failed to run `rustup update`, see above errors"
    );
    assert_eq!(
        update_rust(None).unwrap_err().message,
        "failed to run `rustup update`, is rust installed?"
    );
}
