use std::sync::Arc;

use lingo::package::version::{Requirement, Versioning};
use lingo::util::errors::{join_names, LingoError};

#[test]
fn error_messages() {
    let cases: Vec<(LingoError, &str)> = vec![
        (
            LingoError::CommandFailed("cmake --build .".to_string(), "exit status: 2".to_string()),
            "Command exited with status exit status: 2: cmake --build .",
        ),
        (
            LingoError::UnknownAppNames(vec!["a".to_string(), "b".to_string(), "c".to_string()]),
            "Unknown app names: a, b, c",
        ),
        (LingoError::UnknownAppNames(vec!["solo".to_string()]), "Unknown app names: solo"),
        (LingoError::InvalidProjectLocation("/tmp/x".to_string()), "Cannot initialize repository in /tmp/x"),
        (LingoError::UseWestBuildToBuildApp, "Use `west lf-build` to build and run Zephyr programs."),
        (LingoError::InvalidMainReactor, "Not a valid path path to a file that contains a main reactor"),
        (
            LingoError::NoLibraryInLingoToml("libs/x".to_string()),
            "A dependency was specified that doesn't export a library see libs/x",
        ),
        (
            LingoError::LingoVersionMismatch("requested version ^2 got version 1.0.0".to_string()),
            "Version specified in Lingo.toml doesn't match the version in the location requested version ^2 got version 1.0.0",
        ),
        (
            LingoError::NoViableVersion("io".to_string()),
            "No version of the dependency satisfies every requirement: io",
        ),
        (
            LingoError::ChecksumMismatch("io".to_string()),
            "The checksum of the dependency does not match the lock: io",
        ),
        (LingoError::FetchFailed("clone failed".to_string()), "Fetching a dependency failed: clone failed"),
        (LingoError::ManifestParse("io".to_string()), "Cannot read the manifest or lock entry of io"),
        (LingoError::InvalidUrl("::".to_string()), "Not a valid url: ::"),
        (LingoError::UnsupportedSource("io".to_string()), "Cannot fetch from this kind of source: io"),
        (LingoError::MissingRevision("https://a/".to_string()), "Expected a revision for the git source https://a/"),
        (LingoError::UnwritableSource("https://a/#b".to_string()), "Cannot write this source to a lock: https://a/#b"),
        (LingoError::UnsupportedFileType(b"pipe".to_vec()), "Unsupported file type"),
        (LingoError::LfcNotFound, "LFC executable not found"),
        (LingoError::UnsupportedBuildSystem, "invalid combination of target and platform!"),
        (LingoError::Aborted, "The build was stopped by an earlier failure"),
    ];
    for (error, message) in cases {
        assert_eq!(error.to_string(), message);
    }
}

#[test]
fn shared_error_has_the_message_of_what_it_shares() {
    let inner = Arc::new(LingoError::InvalidMainReactor);
    let shared = LingoError::Shared(Arc::new(LingoError::Shared(inner)));
    assert_eq!(shared.to_string(), "Not a valid path path to a file that contains a main reactor");
}

#[test]
fn names_are_joined_with_commas() {
    assert_eq!(join_names(&Vec::new()), "");
    assert_eq!(join_names(&vec!["a".to_string()]), "a");
    assert_eq!(join_names(&vec!["a".to_string(), "".to_string(), "c".to_string()]), "a, , c");
}

#[test]
fn versions_are_parsed_by_the_versions_crate() {
    assert_eq!(Versioning::new("1.2.3").unwrap().as_str(), "1.2.3");
    assert_eq!(Versioning::new("1.2.3-rc1+build5").unwrap().as_str(), "1.2.3-rc1+build5");
    assert!(Versioning::new("").is_none());
    assert!(Versioning::new("1.2.3 ").is_none());
}

#[test]
fn versions_are_ordered_by_the_versions_crate() {
    let version = |text: &str| Versioning::new(text).unwrap();
    assert!(version("1.3.0").exceeds(&version("1.2.0")));
    assert!(!version("1.2.0").exceeds(&version("1.3.0")));
    assert!(!version("1.2.0").exceeds(&version("1.2.0")));
    assert!(version("1.10.0").exceeds(&version("1.9.0")));
    assert!(version("1.0.0").exceeds(&version("1.0.0-rc1")));
    assert!(version("1.2.0").same_text(&version("1.2.0")));
    assert!(!version("1.2.0").same_text(&version("1.2")));
}

#[test]
fn requirements_are_parsed_by_the_versions_crate() {
    assert_eq!(Requirement::new(">=1.0.0").unwrap().as_str(), ">=1.0.0");
    assert_eq!(Requirement::new("*").unwrap().as_str(), "*");
    assert!(Requirement::new("").is_none());
    assert!(Requirement::new("1.0.0").is_none());
    assert!(Requirement::new(">=2.0,<3.0").is_none());
    assert_eq!(Requirement::wildcard().as_str(), "*");
}

#[test]
fn requirements_are_matched_by_the_versions_crate() {
    let version = |text: &str| Versioning::new(text).unwrap();
    let requirement = |text: &str| Requirement::new(text).unwrap();
    assert!(requirement("^1.0.0").matches(&version("1.2.0")));
    assert!(requirement("^1.0.0").matches(&version("1.3.0")));
    assert!(!requirement("^1.0.0").matches(&version("2.0.0")));
    assert!(requirement("~1.2.0").matches(&version("1.2.9")));
    assert!(!requirement("~1.2.0").matches(&version("1.3.0")));
    assert!(requirement("=1.2.0").matches(&version("1.2.0")));
    assert!(!requirement("=1.2.0").matches(&version("1.2.1")));
    assert!(requirement(">1.2.0").matches(&version("1.2.1")));
    assert!(!requirement(">1.2.0").matches(&version("1.2.0")));
    assert!(requirement("<=1.2.0").matches(&version("1.2.0")));
    assert!(!requirement(">=2.0").matches(&version("1.9.0")));
    assert!(requirement("<3.0").matches(&version("1.9.0")));
    assert!(requirement("*").matches(&version("0.0.1")));
    assert!(Requirement::wildcard().matches(&version("7.1.0")));
}

#[test]
fn short_caret_requirement_does_not_match_full_versions() {
    // the versions crate compares `1.0` and `1.2.0` as different kinds of version
    let requirement = Requirement::new("^1.0").unwrap();
    assert!(!requirement.matches(&Versioning::new("1.2.0").unwrap()));
    assert!(requirement.matches(&Versioning::new("1.2").unwrap()));
}
