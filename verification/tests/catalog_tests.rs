use arewefastyet::cargo::cargo_args;
use arewefastyet::cargo::CompilerMode;
use arewefastyet::cargo::ProfileMode;
use arewefastyet::rustup::catalog;
use arewefastyet::rustup::minimal_profile_args;
use arewefastyet::rustup::switch_commands;
use arewefastyet::rustup::version_from_str;
use arewefastyet::rustup::Version;

#[test]
fn catalog_is_ordered_and_complete() {
    let cat = catalog();
    assert_eq!(cat.len(), 20);
    assert_eq!(cat[0], Version::V1_34);
    assert_eq!(cat[19], Version::V1_53);
    for w in cat.windows(2) {
        assert!(w[0].ordinal() + 1 == w[1].ordinal());
    }
}

#[test]
fn version_strings_round_trip() {
    for v in catalog() {
        assert_eq!(version_from_str(v.get_string()), Some(v));
    }
    assert_eq!(Version::V1_45.get_string(), "1.45.0");
    assert_eq!(version_from_str("1.99.0"), None);
    assert_eq!(version_from_str(""), None);
}

#[test]
fn build_tool_arguments_per_mode() {
    assert_eq!(cargo_args(CompilerMode::Check), vec!["check".to_string()]);
    assert_eq!(cargo_args(CompilerMode::Debug), vec!["build".to_string()]);
    assert_eq!(
        cargo_args(CompilerMode::Release),
        vec!["build".to_string(), "--release".to_string()]
    );
}

#[test]
fn toolchain_commands_install_then_activate() {
    let cmds = switch_commands(Version::V1_47);
    assert_eq!(cmds.len(), 2);
    assert_eq!(
        cmds[0],
        vec!["toolchain".to_string(), "install".to_string(), "1.47.0".to_string()]
    );
    assert_eq!(cmds[1], vec!["default".to_string(), "1.47.0".to_string()]);
    assert_eq!(
        minimal_profile_args(),
        vec!["set".to_string(), "profile".to_string(), "minimal".to_string()]
    );
}

#[test]
fn mode_names_round_trip() {
    assert_eq!(CompilerMode::from_str("Check"), Some(CompilerMode::Check));
    assert_eq!(CompilerMode::from_str("Debug"), Some(CompilerMode::Debug));
    assert_eq!(CompilerMode::from_str("Release"), Some(CompilerMode::Release));
    assert_eq!(CompilerMode::from_str("release"), None);
    assert_eq!(ProfileMode::from_str("Clean"), Some(ProfileMode::Clean));
    assert_eq!(ProfileMode::from_str("Incremental"), Some(ProfileMode::Incremental));
    assert_eq!(
        ProfileMode::from_str("PatchIncremental"),
        Some(ProfileMode::PatchIncremental)
    );
    assert_eq!(ProfileMode::from_str(""), None);
    assert_eq!(CompilerMode::Check.name(), "Check");
    assert_eq!(ProfileMode::PatchIncremental.name(), "PatchIncremental");
}
