use lingo::package::lock::{
    DependencyLock, LockRecord, PackageLock, PackageLockSource, PackageLockSourceType,
};
use lingo::package::target_properties::LibraryTargetProperties;
use lingo::package::tree::{DependencyTreeNode, GitLock, PackageDetails, ProjectSource};
use lingo::package::version::{Requirement, Versioning};
use lingo::util::errors::LingoError;

fn node(name: &str, version: &str, source: ProjectSource, rev: Option<&str>, hash: &str) -> DependencyTreeNode {
    DependencyTreeNode {
        name: name.to_string(),
        version: Versioning::new(version).unwrap(),
        package: PackageDetails {
            version: Requirement::new("*").unwrap(),
            mutual_exclusive: source,
            git_tag: None,
            git_rev: rev.map(|rev| rev.to_string()),
        },
        location: format!("build/libraries/{}", hash),
        include_path: "src/lib".to_string(),
        hash: hash.to_string(),
        dependencies: Vec::new(),
        properties: LibraryTargetProperties::default(),
    }
}

fn git_node(name: &str, version: &str) -> DependencyTreeNode {
    node(
        name,
        version,
        ProjectSource::Git("https://example.org/repo.git".to_string()),
        Some("0123abc"),
        "a894b043e4289e24cded1263e31376e43e19cb78",
    )
}

#[test]
fn source_type_names() {
    assert_eq!(PackageLockSourceType::REGISTRY.as_str(), "registry");
    assert_eq!(PackageLockSourceType::GIT.as_str(), "git");
    assert_eq!(PackageLockSourceType::PATH.as_str(), "path");
    assert_eq!(PackageLockSourceType::TARBALL.as_str(), "tar");
}

#[test]
fn source_type_from_str() {
    assert_eq!(PackageLockSourceType::from_str("registry").ok(), Some(PackageLockSourceType::REGISTRY));
    assert_eq!(PackageLockSourceType::from_str("git").ok(), Some(PackageLockSourceType::GIT));
    assert_eq!(PackageLockSourceType::from_str("path").ok(), Some(PackageLockSourceType::PATH));
    assert_eq!(PackageLockSourceType::from_str("tar").ok(), Some(PackageLockSourceType::TARBALL));
    assert!(PackageLockSourceType::from_str("tarball").is_err());
    assert!(PackageLockSourceType::from_str("").is_err());
    assert!(PackageLockSourceType::from_str("Git").is_err());
}

#[test]
fn source_type_of_project_source() {
    assert_eq!(
        PackageLockSourceType::from(&ProjectSource::Git("https://a/".to_string())),
        PackageLockSourceType::GIT
    );
    assert_eq!(
        PackageLockSourceType::from(&ProjectSource::TarBall("https://a/x.tar".to_string())),
        PackageLockSourceType::TARBALL
    );
    assert_eq!(
        PackageLockSourceType::from(&ProjectSource::Path("../lib".to_string())),
        PackageLockSourceType::PATH
    );
}

#[test]
fn git_source_from_str() {
    let source = PackageLockSource::from_str("git+https://example.org/repo.git#0123abc").unwrap();
    assert_eq!(source.source_type, PackageLockSourceType::GIT);
    assert_eq!(source.uri, "https://example.org/repo.git");
    assert_eq!(source.rev, Some("0123abc".to_string()));
}

#[test]
fn path_source_from_str() {
    let source = PackageLockSource::from_str("path+../libs/io").unwrap();
    assert_eq!(source.source_type, PackageLockSourceType::PATH);
    assert_eq!(source.uri, "../libs/io");
    assert_eq!(source.rev, None);
}

#[test]
fn path_source_keeps_hash_and_plus_in_uri() {
    let source = PackageLockSource::from_str("tar+https://a/b+c#d").unwrap();
    assert_eq!(source.source_type, PackageLockSourceType::TARBALL);
    assert_eq!(source.uri, "https://a/b+c#d");
    assert_eq!(source.rev, None);
}

#[test]
fn git_source_splits_at_first_hash() {
    let source = PackageLockSource::from_str("git+https://a/b#c#d").unwrap();
    assert_eq!(source.uri, "https://a/b");
    assert_eq!(source.rev, Some("c#d".to_string()));
}

#[test]
fn source_without_type_is_refused() {
    assert!(PackageLockSource::from_str("https://example.org/repo.git").is_err());
    assert!(PackageLockSource::from_str("").is_err());
    assert!(PackageLockSource::from_str("svn+https://example.org").is_err());
}

#[test]
fn git_source_without_revision_is_refused() {
    assert!(PackageLockSource::from_str("git+https://example.org/repo.git").is_err());
}

#[test]
fn source_serializes_to_descriptor() {
    let git = PackageLockSource {
        source_type: PackageLockSourceType::GIT,
        uri: "https://example.org/repo.git".to_string(),
        rev: Some("0123abc".to_string()),
    };
    assert_eq!(git.serialize().unwrap(), "git+https://example.org/repo.git#0123abc");
    let path = PackageLockSource {
        source_type: PackageLockSourceType::PATH,
        uri: "../libs/io".to_string(),
        rev: None,
    };
    assert_eq!(path.serialize().unwrap(), "path+../libs/io");
    let tar = PackageLockSource {
        source_type: PackageLockSourceType::TARBALL,
        uri: "https://example.org/io.tar".to_string(),
        rev: None,
    };
    assert_eq!(tar.serialize().unwrap(), "tar+https://example.org/io.tar");
}

#[test]
fn git_source_without_revision_does_not_serialize() {
    let git = PackageLockSource {
        source_type: PackageLockSourceType::GIT,
        uri: "https://example.org/repo.git".to_string(),
        rev: None,
    };
    match git.serialize() {
        Err(LingoError::MissingRevision(uri)) => assert_eq!(uri, "https://example.org/repo.git"),
        _ => panic!("a git source without revision cannot be locked"),
    }
}

#[test]
fn source_round_trip() {
    for text in ["git+https://example.org/repo.git#0123abc", "path+../libs/io", "tar+https://a/x.tar", "registry+io"] {
        let source = PackageLockSource::from_str(text).unwrap();
        assert_eq!(source.serialize().unwrap(), text);
        let again = PackageLockSource::from_str(&source.serialize().unwrap()).unwrap();
        assert_eq!(again.source_type, source.source_type);
        assert_eq!(again.uri, source.uri);
        assert_eq!(again.rev, source.rev);
    }
}

#[test]
fn lock_of_git_node() {
    let lock = PackageLock::from(git_node("io", "1.2.0"));
    assert_eq!(lock.name, "io");
    assert_eq!(lock.version.as_str(), "1.2.0");
    assert_eq!(lock.source.source_type, PackageLockSourceType::GIT);
    assert_eq!(lock.source.uri, "https://example.org/repo.git");
    assert_eq!(lock.source.rev, Some("0123abc".to_string()));
    assert_eq!(lock.checksum, "a894b043e4289e24cded1263e31376e43e19cb78");
}

#[test]
fn lock_of_path_node() {
    let lock = PackageLock::from(node(
        "io",
        "0.3.1",
        ProjectSource::Path("../libs/io".to_string()),
        None,
        "df65f369e2b00151accb842587a1f7f35b39e206",
    ));
    assert_eq!(lock.source.source_type, PackageLockSourceType::PATH);
    assert_eq!(lock.source.uri, "../libs/io");
    assert_eq!(lock.source.rev, None);
    assert_eq!(lock.source.serialize().unwrap(), "path+../libs/io");
}

#[test]
fn lock_entry_round_trip() {
    let lock = PackageLock::from(git_node("io", "1.2.0"));
    let record = lock.serialize().unwrap();
    assert_eq!(record.name, "io");
    assert_eq!(record.version, "1.2.0");
    assert_eq!(record.source, "git+https://example.org/repo.git#0123abc");
    assert_eq!(record.checksum, "a894b043e4289e24cded1263e31376e43e19cb78");
    let again = PackageLock::deserialize(&record).unwrap();
    assert_eq!(again.name, lock.name);
    assert_eq!(again.version.as_str(), lock.version.as_str());
    assert_eq!(again.source.source_type, lock.source.source_type);
    assert_eq!(again.source.uri, lock.source.uri);
    assert_eq!(again.source.rev, lock.source.rev);
    assert_eq!(again.checksum, lock.checksum);
}

#[test]
fn record_with_bad_version_is_refused() {
    let record = LockRecord {
        name: "io".to_string(),
        version: "".to_string(),
        source: "path+../io".to_string(),
        checksum: "00".to_string(),
    };
    match PackageLock::deserialize(&record) {
        Err(LingoError::ManifestParse(name)) => assert_eq!(name, "io"),
        _ => panic!("an empty version must be refused"),
    }
}

#[test]
fn record_with_bad_source_is_refused() {
    let record = LockRecord {
        name: "io".to_string(),
        version: "1.0.0".to_string(),
        source: "git+https://example.org/repo.git".to_string(),
        checksum: "00".to_string(),
    };
    match PackageLock::deserialize(&record) {
        Err(LingoError::ManifestParse(name)) => assert_eq!(name, "io"),
        _ => panic!("a git source without revision must be refused"),
    }
}

#[test]
fn create_holds_one_entry_per_node() {
    let lock = DependencyLock::create(vec![
        git_node("io", "1.2.0"),
        node("net", "0.1.0", ProjectSource::Path("../net".to_string()), None, "ab"),
    ]);
    assert_eq!(lock.len(), 2);
    assert_eq!(lock.get(0).name, "io");
    assert_eq!(lock.get(1).name, "net");
    assert_eq!(lock.find("net").unwrap().checksum, "ab");
    assert_eq!(lock.find("io").unwrap().version.as_str(), "1.2.0");
    assert!(lock.find("missing").is_none());
}

#[test]
fn create_lets_later_node_of_same_name_win() {
    let lock = DependencyLock::create(vec![git_node("io", "1.2.0"), git_node("io", "1.3.0")]);
    assert_eq!(lock.len(), 1);
    assert_eq!(lock.find("io").unwrap().version.as_str(), "1.3.0");
}

#[test]
fn empty_lock() {
    let lock = DependencyLock::new();
    assert_eq!(lock.len(), 0);
    assert!(lock.find("io").is_none());
    assert!(lock.serialize().unwrap().is_empty());
}

#[test]
fn lock_round_trip() {
    let lock = DependencyLock::create(vec![
        git_node("io", "1.2.0"),
        node("net", "0.1.0", ProjectSource::Path("../net".to_string()), None, "ab"),
        node("zip", "2.0.0-rc1", ProjectSource::TarBall("https://a/z.tar".to_string()), None, "cd"),
    ]);
    let records = lock.serialize().unwrap();
    assert_eq!(records.len(), 3);
    let again = DependencyLock::deserialize(&records).unwrap();
    assert_eq!(again.len(), lock.len());
    for i in 0..lock.len() {
        let before = lock.get(i);
        let after = again.find(&before.name).unwrap();
        assert_eq!(after.name, before.name);
        assert_eq!(after.version.as_str(), before.version.as_str());
        assert_eq!(after.source.source_type, before.source.source_type);
        assert_eq!(after.source.uri, before.source.uri);
        assert_eq!(after.source.rev, before.source.rev);
        assert_eq!(after.checksum, before.checksum);
    }
}

#[test]
fn lock_with_unlockable_git_source_does_not_serialize() {
    let mut unpinned = git_node("io", "1.2.0");
    unpinned.package.git_rev = None;
    let lock = DependencyLock::create(vec![unpinned]);
    assert!(matches!(lock.serialize(), Err(LingoError::MissingRevision(_))));
}

#[test]
fn deserialize_names_first_bad_record() {
    let records = vec![
        LockRecord {
            name: "io".to_string(),
            version: "1.0.0".to_string(),
            source: "path+../io".to_string(),
            checksum: "00".to_string(),
        },
        LockRecord {
            name: "net".to_string(),
            version: "1.0.0".to_string(),
            source: "nowhere".to_string(),
            checksum: "00".to_string(),
        },
    ];
    match DependencyLock::deserialize(&records) {
        Err(LingoError::ManifestParse(name)) => assert_eq!(name, "net"),
        _ => panic!("the second record must be refused"),
    }
}

#[test]
fn library_folder_copies() {
    let lock = DependencyLock::create(vec![
        git_node("io", "1.2.0"),
        node("net", "0.1.0", ProjectSource::Path("../net".to_string()), None, "ab"),
    ]);
    let copies = lock.create_library_folder("build/libraries", "build/lfc_include");
    assert_eq!(
        copies,
        vec![
            (
                "build/libraries/a894b043e4289e24cded1263e31376e43e19cb78".to_string(),
                "build/lfc_include/io".to_string()
            ),
            ("build/libraries/ab".to_string(), "build/lfc_include/net".to_string()),
        ]
    );
}

#[test]
fn details_from_lock_source() {
    let path = PackageLockSource::from_str("path+../libs/io").unwrap();
    let details = PackageDetails::try_from(&path).unwrap();
    assert_eq!(details.version.as_str(), "*");
    assert!(matches!(details.mutual_exclusive, ProjectSource::Path(ref p) if p == "../libs/io"));
    assert!(details.git_tag.is_none());
    assert!(details.git_rev.is_none());

    let git = PackageLockSource::from_str("git+https://example.org/repo.git#0123abc").unwrap();
    let details = PackageDetails::try_from(&git).unwrap();
    assert!(
        matches!(details.mutual_exclusive, ProjectSource::Git(ref url) if url == "https://example.org/repo.git")
    );
    assert!(matches!(details.git_tag, Some(GitLock::Rev(ref rev)) if rev == "0123abc"));
    assert_eq!(details.git_rev, Some("0123abc".to_string()));
}

#[test]
fn details_from_lock_source_normalise_the_url() {
    let git = PackageLockSource::from_str("git+HTTPS://Example.org#0123abc").unwrap();
    let details = PackageDetails::try_from(&git).unwrap();
    assert!(
        matches!(details.mutual_exclusive, ProjectSource::Git(ref url) if url == "https://example.org/")
    );
}

#[test]
fn details_from_bad_url_are_refused() {
    let git = PackageLockSource::from_str("git+not a url#0123abc").unwrap();
    match PackageDetails::try_from(&git) {
        Err(LingoError::InvalidUrl(uri)) => assert_eq!(uri, "not a url"),
        _ => panic!("a text that is no url must be refused"),
    }
    let tar = PackageLockSource::from_str("tar+::").unwrap();
    assert!(matches!(PackageDetails::try_from(&tar), Err(LingoError::InvalidUrl(_))));
}

#[test]
fn details_from_registry_source_are_refused() {
    let registry = PackageLockSource::from_str("registry+io").unwrap();
    match PackageDetails::try_from(&registry) {
        Err(LingoError::UnsupportedSource(uri)) => assert_eq!(uri, "io"),
        _ => panic!("a registry source cannot be fetched"),
    }
}

#[test]
fn source_that_would_not_read_back_is_refused() {
    let marked = PackageLockSource {
        source_type: PackageLockSourceType::GIT,
        uri: "https://example.org/repo.git#main".to_string(),
        rev: Some("abc123".to_string()),
    };
    match marked.serialize() {
        Err(LingoError::UnwritableSource(uri)) => assert_eq!(uri, "https://example.org/repo.git#main"),
        _ => panic!("the text would read back with another uri"),
    }
    let pinned_path = PackageLockSource {
        source_type: PackageLockSourceType::PATH,
        uri: "libs/io".to_string(),
        rev: Some("abc123".to_string()),
    };
    match pinned_path.serialize() {
        Err(LingoError::UnwritableSource(uri)) => assert_eq!(uri, "libs/io"),
        _ => panic!("the text would read back without the revision"),
    }
    let plain = PackageLockSource {
        source_type: PackageLockSourceType::PATH,
        uri: "libs/io#1+2".to_string(),
        rev: None,
    };
    let text = plain.serialize().unwrap();
    assert_eq!(text, "path+libs/io#1+2");
    let read = PackageLockSource::from_str(&text).unwrap();
    assert_eq!(read.source_type, PackageLockSourceType::PATH);
    assert_eq!(read.uri, "libs/io#1+2");
    assert_eq!(read.rev, None);
}

#[test]
fn lock_with_unwritable_source_is_not_written() {
    let mut marked = git_node("io", "1.2.0");
    marked.package.mutual_exclusive = ProjectSource::Git("https://example.org/io.git#v1".to_string());
    let lock = DependencyLock::create(vec![marked]);
    assert!(matches!(lock.serialize(), Err(LingoError::UnwritableSource(_))));
}
