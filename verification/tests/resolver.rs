use std::cell::RefCell;

use lingo::args::{Platform, TargetLanguage};
use lingo::package::lock::{DependencyLock, PackageLock};
use lingo::package::management::{DependencyManager, Resolution};
use lingo::package::target_properties::{AutoCmakeLoad, LibraryTargetProperties};
use lingo::package::tree::{DependencyTreeNode, GitLock, PackageDetails, ProjectSource};
use lingo::package::version::{Requirement, Versioning};
use lingo::package::{Config, Library, PackageDescription, PackageDirectory};
use lingo::util::errors::{BuildResult, LingoError};
use lingo::util::sha1dir::{checksum_current_dir, DirEntry, EntryKind};
use lingo::util::Action;
use lingo::{GitCloneError, GitUrl};

fn details(requirement: &str, source: ProjectSource) -> PackageDetails {
    PackageDetails {
        version: Requirement::new(requirement).unwrap(),
        mutual_exclusive: source,
        git_tag: None,
        git_rev: None,
    }
}

fn path_source(path: &str) -> ProjectSource {
    ProjectSource::Path(path.to_string())
}

fn candidate(name: &str, version: &str, requirement: &str, source: &str) -> DependencyTreeNode {
    DependencyTreeNode {
        name: name.to_string(),
        version: Versioning::new(version).unwrap(),
        package: details(requirement, path_source(source)),
        location: format!("libraries/{}-{}", name, version),
        include_path: "src/lib".to_string(),
        hash: format!("{}-{}", name, version),
        dependencies: Vec::new(),
        properties: LibraryTargetProperties::default(),
    }
}

fn names(nodes: &[DependencyTreeNode]) -> Vec<(String, String)> {
    nodes.iter().map(|node| (node.name.clone(), node.version.as_str().to_string())).collect()
}

fn pair(name: &str, version: &str) -> (String, String) {
    (name.to_string(), version.to_string())
}

#[test]
fn flatten_of_nothing_selects_nothing() {
    assert!(DependencyManager::flatten(Vec::new()).unwrap().is_empty());
}

#[test]
fn flatten_selects_newest_of_two_versions() {
    let selection = DependencyManager::flatten(vec![
        candidate("io", "1.2.0", "^1.0.0", "a"),
        candidate("io", "1.3.0", "^1.0.0", "b"),
    ])
    .unwrap();
    assert_eq!(names(&selection), vec![pair("io", "1.3.0")]);
    assert_eq!(selection[0].hash, "io-1.3.0");
}

#[test]
fn flatten_selects_newest_for_two_component_versions() {
    let selection = DependencyManager::flatten(vec![
        candidate("io", "1.2", "^1.0", "a"),
        candidate("io", "1.3", "^1.0", "b"),
    ])
    .unwrap();
    assert_eq!(names(&selection), vec![pair("io", "1.3")]);
}

#[test]
fn flatten_selects_newest_whatever_the_order() {
    let selection = DependencyManager::flatten(vec![
        candidate("io", "1.3.0", "^1.0.0", "b"),
        candidate("io", "1.2.0", "^1.0.0", "a"),
    ])
    .unwrap();
    assert_eq!(names(&selection), vec![pair("io", "1.3.0")]);
}

#[test]
fn flatten_fails_without_viable_version() {
    let result = DependencyManager::flatten(vec![
        candidate("x", "1.9.0", ">=2.0", "a"),
        candidate("x", "1.9.0", "<3.0", "a"),
    ]);
    match result {
        Err(LingoError::NoViableVersion(name)) => assert_eq!(name, "x"),
        _ => panic!("no version of x lies in the range"),
    }
}

#[test]
fn flatten_fails_on_empty_intersection() {
    let result = DependencyManager::flatten(vec![
        candidate("x", "1.5.0", "<2.0.0", "a"),
        candidate("x", "2.5.0", ">=2.0.0", "b"),
    ]);
    assert!(matches!(result, Err(LingoError::NoViableVersion(ref name)) if name == "x"));
}

#[test]
fn flatten_reports_first_package_without_selection() {
    let result = DependencyManager::flatten(vec![
        candidate("fine", "1.0.0", "*", "a"),
        candidate("second", "1.0.0", ">=2.0.0", "b"),
        candidate("third", "1.0.0", ">=3.0.0", "c"),
    ]);
    assert!(matches!(result, Err(LingoError::NoViableVersion(ref name)) if name == "second"));
}

#[test]
fn flatten_filters_by_every_requirement() {
    let selection = DependencyManager::flatten(vec![
        candidate("io", "1.2.0", ">=1.0.0", "a"),
        candidate("io", "2.1.0", ">=1.0.0", "b"),
        candidate("io", "1.4.0", "<2.0.0", "c"),
    ])
    .unwrap();
    assert_eq!(names(&selection), vec![pair("io", "1.4.0")]);
}

#[test]
fn flatten_selects_one_node_per_name_in_order_of_first_occurrence() {
    let selection = DependencyManager::flatten(vec![
        candidate("net", "0.1.0", "*", "n"),
        candidate("io", "1.2.0", "*", "a"),
        candidate("net", "0.2.0", "*", "m"),
        candidate("io", "1.1.0", "*", "b"),
        candidate("zip", "3.0.0", "=3.0.0", "z"),
    ])
    .unwrap();
    assert_eq!(names(&selection), vec![pair("net", "0.2.0"), pair("io", "1.2.0"), pair("zip", "3.0.0")]);
}

#[test]
fn flatten_breaks_ties_by_taking_the_last() {
    let selection = DependencyManager::flatten(vec![
        candidate("io", "1.2.0", "*", "first"),
        candidate("io", "1.2.0", "*", "second"),
    ])
    .unwrap();
    assert_eq!(selection.len(), 1);
    assert!(matches!(selection[0].package.mutual_exclusive, ProjectSource::Path(ref p) if p == "second"));
}

#[test]
fn flatten_walks_whole_trees() {
    let mut root = candidate("app-lib", "1.0.0", "*", "r");
    let mut child = candidate("io", "1.2.0", "^1.0.0", "a");
    child.dependencies.push(candidate("net", "0.3.0", "*", "n"));
    root.dependencies.push(child);
    root.dependencies.push(candidate("io", "1.3.0", "^1.0.0", "b"));
    let selection = DependencyManager::flatten(vec![root]).unwrap();
    assert_eq!(
        names(&selection),
        vec![pair("app-lib", "1.0.0"), pair("io", "1.3.0"), pair("net", "0.3.0")]
    );
    assert!(selection.iter().all(|node| node.dependencies.is_empty()));
}

#[test]
fn aggregate_lists_node_then_subtrees() {
    let mut root = candidate("root", "1.0.0", "*", "r");
    let mut left = candidate("left", "1.0.0", "*", "l");
    left.dependencies.push(candidate("leaf", "1.0.0", "*", "f"));
    root.dependencies.push(left);
    root.dependencies.push(candidate("right", "1.0.0", "*", "g"));
    let flat = root.aggregate();
    let order: Vec<&str> = flat.iter().map(|node| node.name.as_str()).collect();
    assert_eq!(order, vec!["root", "left", "leaf", "right"]);
    assert!(flat.iter().all(|node| node.dependencies.is_empty()));
}

#[test]
fn shallow_clone_drops_children_and_keeps_properties() {
    let mut node = candidate("root", "1.0.0", "*", "r");
    node.properties.cmake_include = AutoCmakeLoad::new("set(X 1)".to_string());
    node.dependencies.push(candidate("leaf", "1.0.0", "*", "f"));
    let copy = node.shallow_clone();
    assert_eq!(copy.name, "root");
    assert_eq!(copy.hash, node.hash);
    assert_eq!(copy.location, node.location);
    assert!(copy.dependencies.is_empty());
    assert_eq!(copy.properties.cmake_include.as_str(), "set(X 1)");
}

// The world that the capabilities of the tests below act on: packages by
// the path that they are fetched from.
struct Package {
    source: &'static str,
    name: &'static str,
    version: &'static str,
    library: bool,
    dependencies: Vec<(&'static str, &'static str, &'static str)>,
}

fn package_entries(package: &Package) -> Vec<DirEntry> {
    vec![DirEntry {
        kind: EntryKind::File,
        path: b"Lingo.toml".to_vec(),
        content: format!("{} {}", package.name, package.version).into_bytes(),
    }]
}

fn package_directory(package: &Package) -> PackageDirectory {
    PackageDirectory {
        entries: package_entries(package),
        config: Config {
            package: PackageDescription {
                name: package.name.to_string(),
                version: Versioning::new(package.version).unwrap(),
                authors: None,
                website: None,
                license: None,
                description: None,
            },
            apps: Vec::new(),
            library: if package.library {
                Some(Library {
                    name: package.name.to_string(),
                    location: "src/lib".to_string(),
                    target: TargetLanguage::Cpp,
                    platform: Platform::Native,
                    properties: LibraryTargetProperties {
                        cmake_include: AutoCmakeLoad::new(format!("# {}", package.name)),
                        sources: Vec::new(),
                        artifacts: Vec::new(),
                    },
                    output_root: "build".to_string(),
                })
            } else {
                None
            },
            dependencies: package
                .dependencies
                .iter()
                .map(|(name, requirement, source)| {
                    (name.to_string(), details(requirement, path_source(source)))
                })
                .collect(),
        },
    }
}

fn world() -> Vec<Package> {
    vec![
        Package { source: "libs/a", name: "a", version: "1.0.0", library: true, dependencies: vec![("c", "^1.0.0", "libs/c12")] },
        Package { source: "libs/b", name: "b", version: "2.0.0", library: true, dependencies: vec![("c", "^1.0.0", "libs/c13")] },
        Package { source: "libs/c12", name: "c", version: "1.2.0", library: true, dependencies: vec![] },
        Package { source: "libs/c13", name: "c", version: "1.3.0", library: true, dependencies: vec![] },
        Package { source: "libs/loop", name: "loop", version: "1.0.0", library: true, dependencies: vec![("pool", "*", "libs/pool")] },
        Package { source: "libs/pool", name: "pool", version: "1.0.0", library: true, dependencies: vec![("loop", "*", "libs/loop")] },
        Package { source: "libs/app-only", name: "app-only", version: "1.0.0", library: false, dependencies: vec![] },
    ]
}

struct Disk {
    // what lies in a directory: the index of a package of the world
    directories: RefCell<Vec<(String, usize)>>,
    copies: RefCell<usize>,
    clones: RefCell<usize>,
}

impl Disk {
    fn new() -> Disk {
        Disk { directories: RefCell::new(Vec::new()), copies: RefCell::new(0), clones: RefCell::new(0) }
    }

    fn place(&self, directory: &str, package: usize) {
        let mut directories = self.directories.borrow_mut();
        directories.retain(|(at, _)| at != directory);
        directories.push((directory.to_string(), package));
    }

    fn at(&self, directory: &str) -> Option<usize> {
        self.directories.borrow().iter().find(|(at, _)| at == directory).map(|(_, package)| *package)
    }

    fn run(&self, action: &Action) -> BuildResult {
        match action {
            Action::CopyDirAll { from, to } => {
                let world = world();
                let package = match world.iter().position(|package| package.source == from) {
                    Some(package) => Some(package),
                    None => self.at(from),
                };
                match package {
                    Some(package) => {
                        *self.copies.borrow_mut() += 1;
                        self.place(to, package);
                        Ok(())
                    }
                    None => Err(LingoError::FetchFailed(format!("nothing at {}", from))),
                }
            }
            Action::RemoveDirAll(directory) => {
                self.directories.borrow_mut().retain(|(at, _)| at != directory);
                Ok(())
            }
            _ => Ok(()),
        }
    }

    fn load(&self, directory: &str) -> Result<PackageDirectory, LingoError> {
        match self.at(directory) {
            Some(package) => Ok(package_directory(&world()[package])),
            None => Err(LingoError::ManifestParse(directory.to_string())),
        }
    }

    fn probe(&self, manifest: &str) -> bool {
        match manifest.strip_suffix("/Lingo.toml") {
            Some(directory) => self.at(directory).is_some(),
            None => false,
        }
    }

    fn clone(&self, _url: GitUrl, _target: &str, _lock: Option<GitLock>) -> Result<Option<String>, GitCloneError> {
        *self.clones.borrow_mut() += 1;
        Err(GitCloneError("no network".to_string()))
    }
}

fn checksum_of(package: &Package) -> String {
    checksum_current_dir(&package_entries(package), false).unwrap().to_hex()
}

fn pull(disk: &Disk, roots: Vec<(&str, &str, &str)>) -> Result<Vec<DependencyTreeNode>, LingoError> {
    let mut manager = DependencyManager::default();
    let dependencies = roots
        .into_iter()
        .map(|(name, requirement, source)| (name.to_string(), details(requirement, path_source(source))))
        .collect();
    let result = manager.pull(
        dependencies,
        "build",
        &|url: GitUrl, target: &str, lock: Option<GitLock>| disk.clone(url, target, lock),
        &|action: &Action| disk.run(action),
        &|directory: &str| disk.load(directory),
    );
    if result.is_ok() {
        assert!(manager.pulling_queue.is_empty());
    }
    result
}

#[test]
fn pull_of_nothing_gives_no_nodes() {
    let disk = Disk::new();
    assert!(pull(&disk, Vec::new()).unwrap().is_empty());
}

#[test]
fn pull_fetches_transitive_dependencies() {
    let disk = Disk::new();
    let nodes = pull(&disk, vec![("a", "*", "libs/a"), ("b", "*", "libs/b")]).unwrap();
    let mut found = names(&nodes);
    found.sort();
    assert_eq!(found, vec![pair("a", "1.0.0"), pair("b", "2.0.0"), pair("c", "1.2.0"), pair("c", "1.3.0")]);
    assert!(nodes.iter().all(|node| node.dependencies.is_empty()));
}

#[test]
fn pull_stores_packages_under_their_checksum() {
    let disk = Disk::new();
    let nodes = pull(&disk, vec![("a", "*", "libs/a")]).unwrap();
    let world = world();
    let a = nodes.iter().find(|node| node.name == "a").unwrap();
    assert_eq!(a.hash, checksum_of(&world[0]));
    assert_eq!(a.hash.len(), 40);
    assert_eq!(a.location, format!("build/libraries/{}", a.hash));
    assert_eq!(a.include_path, "src/lib");
    assert_eq!(a.properties.cmake_include.as_str(), "# a");
    assert_eq!(disk.at(&a.location), Some(0));
    let c = nodes.iter().find(|node| node.name == "c").unwrap();
    assert_eq!(c.package.version.as_str(), "^1.0.0");
    assert_eq!(c.hash, checksum_of(&world[2]));
}

#[test]
fn pull_then_flatten_selects_one_node_per_name() {
    let disk = Disk::new();
    let nodes = pull(&disk, vec![("a", "*", "libs/a"), ("b", "*", "libs/b")]).unwrap();
    let selection = DependencyManager::flatten(nodes).unwrap();
    let mut found = names(&selection);
    found.sort();
    assert_eq!(found, vec![pair("a", "1.0.0"), pair("b", "2.0.0"), pair("c", "1.3.0")]);
}

#[test]
fn pull_ends_on_cyclic_dependencies() {
    let disk = Disk::new();
    let nodes = pull(&disk, vec![("loop", "*", "libs/loop")]).unwrap();
    let found = names(&nodes);
    assert_eq!(found.iter().filter(|(name, _)| name == "pool").count(), 1);
    assert_eq!(found.iter().filter(|(name, _)| name == "loop").count(), 2);
    // each package was fetched once: one copy in, one copy to the store
    assert_eq!(*disk.copies.borrow(), 4);
    let selection = DependencyManager::flatten(nodes).unwrap();
    let mut selected = names(&selection);
    selected.sort();
    assert_eq!(selected, vec![pair("loop", "1.0.0"), pair("pool", "1.0.0")]);
}

#[test]
fn pull_does_not_fetch_a_package_twice_but_keeps_every_requirement() {
    let disk = Disk::new();
    let nodes = pull(&disk, vec![("c", ">=1.0.0", "libs/c12"), ("c", "<2.0.0", "libs/c12")]).unwrap();
    assert_eq!(nodes.len(), 2);
    assert_eq!(*disk.copies.borrow(), 2);
    let mut requirements: Vec<String> =
        nodes.iter().map(|node| node.package.version.as_str().to_string()).collect();
    requirements.sort();
    assert_eq!(requirements, vec!["<2.0.0".to_string(), ">=1.0.0".to_string()]);
    assert_eq!(nodes[0].hash, nodes[1].hash);
}

#[test]
fn pull_fails_on_version_mismatch() {
    let disk = Disk::new();
    match pull(&disk, vec![("c", ">=2.0.0", "libs/c12")]) {
        Err(LingoError::LingoVersionMismatch(message)) => {
            assert_eq!(message, "requested version >=2.0.0 got version 1.2.0")
        }
        _ => panic!("version 1.2.0 does not satisfy >=2.0.0"),
    }
}

#[test]
fn pull_fails_on_version_mismatch_of_a_repeated_package() {
    let disk = Disk::new();
    let result = pull(&disk, vec![("c", ">=2.0.0", "libs/c12"), ("c", "*", "libs/c12")]);
    assert!(matches!(result, Err(LingoError::LingoVersionMismatch(_))));
}

#[test]
fn pull_fails_without_library() {
    let disk = Disk::new();
    match pull(&disk, vec![("app-only", "*", "libs/app-only")]) {
        Err(LingoError::NoLibraryInLingoToml(path)) => assert_eq!(path, "build/libraries"),
        _ => panic!("a dependency must export a library"),
    }
}

#[test]
fn pull_fails_when_fetch_fails() {
    let disk = Disk::new();
    assert!(matches!(pull(&disk, vec![("gone", "*", "libs/gone")]), Err(LingoError::FetchFailed(_))));
}

#[test]
fn pull_reports_failed_clone() {
    let disk = Disk::new();
    let mut manager = DependencyManager::default();
    let git = details("*", ProjectSource::Git("https://example.org/repo.git".to_string()));
    let result = manager.pull(
        vec![("remote".to_string(), git)],
        "build",
        &|url: GitUrl, target: &str, lock: Option<GitLock>| disk.clone(url, target, lock),
        &|action: &Action| disk.run(action),
        &|directory: &str| disk.load(directory),
    );
    match result {
        Err(LingoError::FetchFailed(reason)) => assert_eq!(reason, "no network"),
        _ => panic!("the clone fails"),
    }
    assert_eq!(*disk.clones.borrow(), 1);
}

#[test]
fn fetch_records_resolved_revision() {
    let mut git = details("*", ProjectSource::Git("https://example.org/repo.git".to_string()));
    git.git_tag = Some(GitLock::Branch("main".to_string()));
    let seen = RefCell::new(Vec::new());
    let result = git.fetch(
        "build/libraries/temporary",
        &|url: GitUrl, target: &str, lock: Option<GitLock>| {
            let branch = match lock {
                Some(GitLock::Branch(name)) => name,
                _ => String::new(),
            };
            seen.borrow_mut().push((url.as_str().to_string(), target.to_string(), branch));
            Ok(Some("0123abc".to_string()))
        },
        &|_action: &Action| Ok(()),
    );
    assert!(result.is_ok());
    assert_eq!(git.git_rev, Some("0123abc".to_string()));
    assert_eq!(
        seen.into_inner(),
        vec![(
            "https://example.org/repo.git".to_string(),
            "build/libraries/temporary".to_string(),
            "main".to_string()
        )]
    );
}

#[test]
fn fetch_copies_a_path() {
    let mut local = details("*", path_source("../libs/io"));
    let seen = RefCell::new(Vec::new());
    let result = local.fetch(
        "build/libraries/temporary",
        &|_url: GitUrl, _target: &str, _lock: Option<GitLock>| Err(GitCloneError("unused".to_string())),
        &|action: &Action| {
            if let Action::CopyDirAll { from, to } = action {
                seen.borrow_mut().push((from.clone(), to.clone()));
            }
            Ok(())
        },
    );
    assert!(result.is_ok());
    assert_eq!(local.git_rev, None);
    assert_eq!(
        seen.into_inner(),
        vec![("../libs/io".to_string(), "build/libraries/temporary".to_string())]
    );
}

#[test]
fn fetch_of_tarball_does_nothing() {
    let mut tar = details("*", ProjectSource::TarBall("https://example.org/io.tar".to_string()));
    let result = tar.fetch(
        "build/libraries/temporary",
        &|_url: GitUrl, _target: &str, _lock: Option<GitLock>| -> Result<Option<String>, GitCloneError> {
            panic!("a tarball is not cloned")
        },
        &|_action: &Action| -> BuildResult { panic!("a tarball is not copied") },
    );
    assert!(result.is_ok());
}

#[test]
fn evaluate_accepts_matching_package() {
    let world = world();
    let (node, dependencies) = DependencyManager::evaluate(
        "a",
        details("^1.0.0", path_source("libs/a")),
        "build/libraries",
        package_directory(&world[0]),
    )
    .unwrap();
    assert_eq!(node.name, "a");
    assert_eq!(node.version.as_str(), "1.0.0");
    assert_eq!(node.hash, checksum_of(&world[0]));
    assert_eq!(node.location, format!("build/libraries/{}", checksum_of(&world[0])));
    assert_eq!(dependencies.len(), 1);
    assert_eq!(dependencies[0].0, "c");
}

#[test]
fn evaluate_refuses_unhashable_directory_first() {
    let world = world();
    let mut directory = package_directory(&world[6]);
    directory.entries.push(DirEntry { kind: EntryKind::Other, path: b"pipe".to_vec(), content: Vec::new() });
    let result = DependencyManager::evaluate(
        "app-only",
        details(">=9.0.0", path_source("libs/app-only")),
        "build/libraries",
        directory,
    );
    assert!(matches!(result, Err(LingoError::UnsupportedFileType(_))));
}

fn resolve(
    disk: &Disk,
    roots: Vec<(&str, &str, &str)>,
    existing: Option<DependencyLock>,
) -> Result<Resolution, LingoError> {
    let dependencies = roots
        .into_iter()
        .map(|(name, requirement, source)| (name.to_string(), details(requirement, path_source(source))))
        .collect();
    DependencyManager::from_dependencies(
        dependencies,
        "build",
        existing,
        &|path: &str| disk.probe(path),
        &|url: GitUrl, target: &str, lock: Option<GitLock>| disk.clone(url, target, lock),
        &|action: &Action| disk.run(action),
        &|directory: &str| disk.load(directory),
    )
}

fn lock_for(packages: &[usize]) -> DependencyLock {
    let world = world();
    let records: Vec<_> = packages
        .iter()
        .map(|&index| {
            let package = &world[index];
            PackageLock {
                name: package.name.to_string(),
                version: Versioning::new(package.version).unwrap(),
                source: lingo::package::lock::PackageLockSource {
                    source_type: lingo::package::lock::PackageLockSourceType::PATH,
                    uri: package.source.to_string(),
                    rev: None,
                },
                checksum: checksum_of(package),
            }
            .serialize()
            .unwrap()
        })
        .collect();
    DependencyLock::deserialize(&records).unwrap()
}

#[test]
fn resolution_without_lock_makes_a_new_lock() {
    let disk = Disk::new();
    match resolve(&disk, vec![("a", "*", "libs/a"), ("b", "*", "libs/b")], None).unwrap() {
        Resolution::Resolved { manager } => {
            assert_eq!(manager.lock.len(), 3);
            assert_eq!(manager.lock.find("c").unwrap().version.as_str(), "1.3.0");
            assert_eq!(manager.lock.find("c").unwrap().checksum, checksum_of(&world()[3]));
            assert_eq!(manager.lock.find("a").unwrap().source.serialize().unwrap(), "path+libs/a");
            assert!(manager.pulling_queue.is_empty());
        }
        Resolution::Locked { .. } => panic!("there was no lock"),
    }
}

#[test]
fn resolution_fails_without_viable_version_and_makes_no_lock() {
    let disk = Disk::new();
    let result = resolve(&disk, vec![("c", "<1.3.0", "libs/c13"), ("c", "*", "libs/c13")], None);
    assert!(matches!(result, Err(LingoError::LingoVersionMismatch(_))));
    let result = resolve(&disk, vec![("c", "=1.2.0", "libs/c12"), ("c", "=1.3.0", "libs/c13")], None);
    assert!(matches!(result, Err(LingoError::NoViableVersion(ref name)) if name == "c"));
}

#[test]
fn valid_lock_with_full_cache_fetches_nothing() {
    let disk = Disk::new();
    disk.place("build/lfc_include/a", 0);
    disk.place("build/lfc_include/c", 3);
    let result = resolve(&disk, vec![("a", "*", "libs/a")], Some(lock_for(&[0, 3]))).unwrap();
    match result {
        Resolution::Locked { manager, fetched } => {
            assert_eq!(fetched, 0);
            assert_eq!(manager.lock.len(), 2);
            let properties = manager.get_target_properties().unwrap();
            assert_eq!(
                properties.cmake_include.as_str(),
                "\n# ------------------------- \n# a\n# ------------------------- \n# c"
            );
        }
        Resolution::Resolved { .. } => panic!("the lock is valid"),
    }
    assert_eq!(*disk.copies.borrow(), 0);
    assert_eq!(*disk.clones.borrow(), 0);
}

#[test]
fn valid_lock_fetches_only_what_the_cache_lacks() {
    let disk = Disk::new();
    disk.place("build/lfc_include/a", 0);
    let result = resolve(&disk, vec![("a", "*", "libs/a")], Some(lock_for(&[0, 3]))).unwrap();
    match result {
        Resolution::Locked { fetched, .. } => assert_eq!(fetched, 1),
        Resolution::Resolved { .. } => panic!("the lock is valid"),
    }
    assert_eq!(*disk.copies.borrow(), 1);
    assert_eq!(disk.at("build/lfc_include/c"), Some(3));
}

#[test]
fn lock_with_wrong_checksum_forces_new_resolution() {
    let disk = Disk::new();
    // the cache holds version 1.2.0 of c where the lock records 1.3.0
    disk.place("build/lfc_include/c", 2);
    let result = resolve(&disk, vec![("c", "*", "libs/c13")], Some(lock_for(&[3]))).unwrap();
    match result {
        Resolution::Resolved { manager } => {
            assert_eq!(manager.lock.find("c").unwrap().version.as_str(), "1.3.0");
        }
        Resolution::Locked { .. } => panic!("the checksum does not match"),
    }
}

#[test]
fn init_reports_checksum_mismatch() {
    let disk = Disk::new();
    disk.place("build/lfc_include/c", 2);
    let mut lock = lock_for(&[3]);
    let result = lock.init(
        "build/lfc_include",
        &|path: &str| disk.probe(path),
        &|url: GitUrl, target: &str, lock: Option<GitLock>| disk.clone(url, target, lock),
        &|action: &Action| disk.run(action),
        &|directory: &str| disk.load(directory),
    );
    assert!(matches!(result, Err(LingoError::ChecksumMismatch(ref name)) if name == "c"));
    assert!(lock.aggregate_target_properties().unwrap().cmake_include.as_str().is_empty());
}

#[test]
fn init_requires_a_library() {
    let disk = Disk::new();
    disk.place("build/lfc_include/app-only", 6);
    let mut lock = lock_for(&[6]);
    let result = lock.init(
        "build/lfc_include",
        &|path: &str| disk.probe(path),
        &|url: GitUrl, target: &str, lock: Option<GitLock>| disk.clone(url, target, lock),
        &|action: &Action| disk.run(action),
        &|directory: &str| disk.load(directory),
    );
    match result {
        Err(LingoError::NoLibraryInLingoToml(path)) => {
            assert_eq!(path, "build/lfc_include/app-only/Lingo.toml")
        }
        _ => panic!("a locked package must export a library"),
    }
}

#[test]
fn check_builds_the_node_of_a_locked_package() {
    let world = world();
    let lock = lock_for(&[0]);
    let node =
        DependencyLock::check(lock.get(0), "build/lfc_include/a", package_directory(&world[0])).unwrap();
    assert_eq!(node.name, "a");
    assert_eq!(node.version.as_str(), "1.0.0");
    assert_eq!(node.location, "build/lfc_include/a");
    assert_eq!(node.hash, checksum_of(&world[0]));
    assert_eq!(node.package.version.as_str(), "*");
    assert!(matches!(node.package.mutual_exclusive, ProjectSource::Path(ref p) if p.is_empty()));
}

#[test]
fn revisit_answers_from_the_package_that_was_found() {
    let mut found = candidate("io", "1.2.0", "^1.0.0", "libs/io");
    found.package.git_rev = Some("abc123".to_string());
    found.properties.cmake_include = AutoCmakeLoad::new("set(IO 1)".to_string());
    found.dependencies.push(candidate("leaf", "1.0.0", "*", "libs/leaf"));
    let node = DependencyManager::revisit(&found, details(">=1.1.0", path_source("libs/io"))).unwrap();
    assert_eq!(node.name, "io");
    assert_eq!(node.version.as_str(), "1.2.0");
    assert_eq!(node.package.version.as_str(), ">=1.1.0");
    assert_eq!(node.package.git_rev, Some("abc123".to_string()));
    assert_eq!(node.hash, found.hash);
    assert_eq!(node.location, found.location);
    assert_eq!(node.include_path, found.include_path);
    assert_eq!(node.properties.cmake_include.as_str(), "set(IO 1)");
    assert!(node.dependencies.is_empty());
}

#[test]
fn revisit_refuses_a_requirement_that_the_package_does_not_satisfy() {
    let found = candidate("io", "1.2.0", "^1.0.0", "libs/io");
    match DependencyManager::revisit(&found, details("=2.0.0", path_source("libs/io"))) {
        Err(LingoError::LingoVersionMismatch(message)) => {
            assert_eq!(message, "requested version =2.0.0 got version 1.2.0")
        }
        _ => panic!("1.2.0 is not 2.0.0"),
    }
}

#[test]
fn flatten_keeps_the_properties_of_the_selected_nodes() {
    let mut old = candidate("io", "1.0.0", "*", "libs/io1");
    old.properties.cmake_include = AutoCmakeLoad::new("set(IO 1)".to_string());
    let mut new = candidate("io", "1.1.0", "*", "libs/io2");
    new.properties.cmake_include = AutoCmakeLoad::new("set(IO 2)".to_string());
    let mut root = candidate("root", "1.0.0", "*", "libs/root");
    root.properties.cmake_include = AutoCmakeLoad::new("set(ROOT 1)".to_string());
    root.dependencies.push(old);
    root.dependencies.push(new);
    let selection = DependencyManager::flatten(vec![root]).unwrap();
    assert_eq!(names(&selection), vec![pair("root", "1.0.0"), pair("io", "1.1.0")]);
    assert_eq!(selection[0].properties.cmake_include.as_str(), "set(ROOT 1)");
    assert_eq!(selection[1].properties.cmake_include.as_str(), "set(IO 2)");
}

#[test]
fn fresh_resolution_hands_on_the_properties_of_the_packages() {
    let disk = Disk::new();
    match resolve(&disk, vec![("a", "*", "libs/a")], None).unwrap() {
        Resolution::Resolved { manager } => {
            let properties = manager.get_target_properties().unwrap();
            let code = properties.cmake_include.as_str().to_string();
            assert!(code.contains("# a"));
            assert!(code.contains("# c"));
        }
        Resolution::Locked { .. } => panic!("there was no lock"),
    }
}

#[test]
fn pull_answers_a_package_met_again_with_the_node_that_was_fetched() {
    let disk = Disk::new();
    let nodes = pull(&disk, vec![("c", "^1.0.0", "libs/c12"), ("c", ">=1.2.0", "libs/c12")]).unwrap();
    assert_eq!(nodes.len(), 2);
    assert_eq!(*disk.copies.borrow(), 2);
    assert_eq!(nodes[0].hash, nodes[1].hash);
    assert_eq!(nodes[0].location, nodes[1].location);
    assert_eq!(nodes[0].version.as_str(), "1.2.0");
    assert_eq!(nodes[1].version.as_str(), "1.2.0");
    assert_eq!(nodes[0].properties.cmake_include.as_str(), nodes[1].properties.cmake_include.as_str());
    let mut requirements = vec![
        nodes[0].package.version.as_str().to_string(),
        nodes[1].package.version.as_str().to_string(),
    ];
    requirements.sort();
    assert_eq!(requirements, vec![">=1.2.0".to_string(), "^1.0.0".to_string()]);
}

#[test]
fn aggregate_keeps_the_properties_of_every_node() {
    let mut root = candidate("root", "1.0.0", "*", "r");
    root.properties.cmake_include = AutoCmakeLoad::new("set(ROOT 1)".to_string());
    let mut leaf = candidate("leaf", "1.0.0", "*", "f");
    leaf.properties.cmake_include = AutoCmakeLoad::new("set(LEAF 1)".to_string());
    leaf.properties.sources.push("src/leaf.c".to_string());
    root.dependencies.push(leaf);
    let flat = root.aggregate();
    assert_eq!(flat.len(), 2);
    assert_eq!(flat[0].properties.cmake_include.as_str(), "set(ROOT 1)");
    assert_eq!(flat[1].properties.cmake_include.as_str(), "set(LEAF 1)");
    assert_eq!(flat[1].properties.sources, vec!["src/leaf.c".to_string()]);
}
