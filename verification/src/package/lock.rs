//! The lock: the versions, sources and checksums that a resolution selected.

use vstd::prelude::*;

use crate::package::target_properties::{
    merged, LibraryPropertiesView, LibraryTargetProperties, MergeTargetProperties,
};
use crate::package::tree::{
    clone_optional_text, node_views, optional_text, DependencyTreeNode, DetailsView, GitLock,
    NodeView, PackageDetails, ProjectSource, SourceView,
};
use crate::package::version::{versioning_parses, Requirement, Versioning};
use crate::package::management::{details_of, source_refusal};
use crate::package::{Config, PackageDirectory};
use crate::util::errors::BuildResult;
use crate::util::path::{join, joined};
use crate::util::sha1dir::{all_supported, checksum_current_dir, checksum_of, entry_views, hex_of};
use crate::util::Action;
use crate::{GitCloneError, GitUrl};
use crate::util::errors::LingoError;
use crate::util::text::{
    find, first_index, is_first, lemma_first_index, lemma_has_first_index, split_once,
    split_once_at, text_eq,
};

verus! {

/// The text is no source of a lock entry.
#[derive(Debug)]
pub struct ParseLockSourceError {}

/// Different package sources types, available inside the lock file.
#[derive(Clone, Copy, Debug, PartialEq, Eq, Structural)]
pub enum PackageLockSourceType {
    REGISTRY,
    GIT,
    TARBALL,
    PATH,
}

/// The source type that a text names.
pub open spec fn parse_source_type(text: Seq<char>) -> Option<PackageLockSourceType> {
    if text == "registry"@ {
        Some(PackageLockSourceType::REGISTRY)
    } else if text == "git"@ {
        Some(PackageLockSourceType::GIT)
    } else if text == "path"@ {
        Some(PackageLockSourceType::PATH)
    } else if text == "tar"@ {
        Some(PackageLockSourceType::TARBALL)
    } else {
        None
    }
}

/// What the four names of source types are made of.
proof fn lemma_type_texts()
    ensures
        "registry"@ == seq!['r', 'e', 'g', 'i', 's', 't', 'r', 'y'],
        "git"@ == seq!['g', 'i', 't'],
        "path"@ == seq!['p', 'a', 't', 'h'],
        "tar"@ == seq!['t', 'a', 'r'],
        "+"@ == seq!['+'],
        "#"@ == seq!['#'],
{
    reveal_strlit("registry");
    reveal_strlit("git");
    reveal_strlit("path");
    reveal_strlit("tar");
    reveal_strlit("+");
    reveal_strlit("#");
    assert("registry"@ =~= seq!['r', 'e', 'g', 'i', 's', 't', 'r', 'y']);
    assert("git"@ =~= seq!['g', 'i', 't']);
    assert("path"@ =~= seq!['p', 'a', 't', 'h']);
    assert("tar"@ =~= seq!['t', 'a', 'r']);
    assert("+"@ =~= seq!['+']);
    assert("#"@ =~= seq!['#']);
}

impl PackageLockSourceType {
    /// The name of the source type in a lock file.
    pub open spec fn text(self) -> Seq<char> {
        match self {
            PackageLockSourceType::REGISTRY => "registry"@,
            PackageLockSourceType::GIT => "git"@,
            PackageLockSourceType::PATH => "path"@,
            PackageLockSourceType::TARBALL => "tar"@,
        }
    }

    /// Tries to parse the enum value from given string
    pub fn from_str(s: &str) -> (result: Result<Self, ParseLockSourceError>)
        ensures
            match result {
                Ok(source_type) => parse_source_type(s@) == Some(source_type),
                Err(_) => parse_source_type(s@) is None,
            },
    {
        if text_eq(s, "registry") {
            Ok(Self::REGISTRY)
        } else if text_eq(s, "git") {
            Ok(Self::GIT)
        } else if text_eq(s, "path") {
            Ok(Self::PATH)
        } else if text_eq(s, "tar") {
            Ok(Self::TARBALL)
        } else {
            Err(ParseLockSourceError {  })
        }
    }

    /// generates the corresponding string based on enum value
    pub fn as_str(&self) -> (text: &'static str)
        ensures
            text@ == self.text(),
    {
        match self {
            Self::REGISTRY => "registry",
            Self::GIT => "git",
            Self::PATH => "path",
            Self::TARBALL => "tar",
        }
    }

    /// The type under which a source of a package is locked.
    pub fn from(value: &ProjectSource) -> (source_type: Self)
        ensures
            source_type == source_type_of(value@),
    {
        match value {
            ProjectSource::Git(_) => Self::GIT,
            ProjectSource::TarBall(_) => Self::TARBALL,
            ProjectSource::Path(_) => Self::PATH,
        }
    }
}

/// The type under which a source of a package is locked.
pub open spec fn source_type_of(source: SourceView) -> PackageLockSourceType {
    match source {
        SourceView::Git(_) => PackageLockSourceType::GIT,
        SourceView::TarBall(_) => PackageLockSourceType::TARBALL,
        SourceView::Path(_) => PackageLockSourceType::PATH,
    }
}

/// Struct that saves the source uri string
#[derive(Debug)]
pub struct PackageLockSource {
    pub source_type: PackageLockSourceType,
    pub uri: String,
    pub rev: Option<String>,
}

/// The mathematical value of a [`PackageLockSource`].
pub struct LockSourceView {
    pub source_type: PackageLockSourceType,
    pub uri: Seq<char>,
    pub rev: Option<Seq<char>>,
}

impl LockSourceView {
    /// Whether the source is one that a lock file can hold without loss: a
    /// git source has a revision and no `#` in its uri, and no other source
    /// has a revision.
    pub open spec fn canonical(self) -> bool {
        if self.source_type == PackageLockSourceType::GIT {
            self.rev is Some && !self.uri.contains('#')
        } else {
            self.rev is None
        }
    }

    /// The source as one text: the type, `+`, the uri, and for git `#` and
    /// the revision. Only a canonical source has such a text.
    pub open spec fn descriptor(self) -> Option<Seq<char>> {
        if !self.canonical() {
            None
        } else if self.source_type == PackageLockSourceType::GIT {
            Some(self.source_type.text() + seq!['+'] + self.uri + seq!['#'] + self.rev.unwrap())
        } else {
            Some(self.source_type.text() + seq!['+'] + self.uri)
        }
    }

    /// Whether `error` is the error with which a source that is not
    /// canonical is refused: `MissingRevision` for a git source without a
    /// revision, and `UnwritableSource` for a git source with `#` in its
    /// uri and for another source with a revision.
    pub open spec fn refused_with(self, error: LingoError) -> bool {
        if self.source_type == PackageLockSourceType::GIT && self.rev is None {
            error matches LingoError::MissingRevision(uri) && uri@ == self.uri
        } else {
            error matches LingoError::UnwritableSource(uri) && uri@ == self.uri
        }
    }
}

/// The source that a text of the form `<type>+<uri>` or, for git,
/// `<type>+<uri>#<rev>` stands for. The type ends at the first `+`, and the
/// uri of a git source at the first `#` after it.
pub open spec fn parse_descriptor(text: Seq<char>) -> Option<LockSourceView> {
    match split_once_at(text, '+') {
        Some((kind, rest)) => match parse_source_type(kind) {
            Some(PackageLockSourceType::GIT) => match split_once_at(rest, '#') {
                Some((uri, rev)) => Some(
                    LockSourceView { source_type: PackageLockSourceType::GIT, uri, rev: Some(rev) },
                ),
                None => None,
            },
            Some(source_type) => Some(LockSourceView { source_type, uri: rest, rev: None }),
            None => None,
        },
        None => None,
    }
}

impl View for PackageLockSource {
    type V = LockSourceView;

    open spec fn view(&self) -> LockSourceView {
        LockSourceView {
            source_type: self.source_type,
            uri: self.uri@,
            rev: optional_text(self.rev),
        }
    }
}

impl Clone for PackageLockSource {
    fn clone(&self) -> (copy: Self)
        ensures
            copy@ == self@,
    {
        PackageLockSource {
            source_type: self.source_type,
            uri: self.uri.clone(),
            rev: clone_optional_text(&self.rev),
        }
    }
}

impl PackageLockSource {
    /// Parses the whole source uri string of a package
    /// the uri string follows the pattern <type>+<url>(#<git-rev>)
    pub fn from_str(s: &str) -> (result: Result<Self, ParseLockSourceError>)
        ensures
            match result {
                Ok(source) => parse_descriptor(s@) == Some(source@),
                Err(_) => parse_descriptor(s@) is None,
            },
    {
        match split_once(s, '+') {
            Some((source_type_string, rest)) => {
                let source_type = match PackageLockSourceType::from_str(source_type_string) {
                    Ok(source_type) => source_type,
                    Err(e) => {
                        return Err(e);
                    },
                };
                match source_type {
                    PackageLockSourceType::GIT => match split_once(rest, '#') {
                        Some((url, rev)) => Ok(
                            PackageLockSource {
                                source_type,
                                uri: url.to_owned(),
                                rev: Some(rev.to_owned()),
                            },
                        ),
                        None => Err(ParseLockSourceError {  }),
                    },
                    _ => Ok(PackageLockSource { source_type, uri: rest.to_owned(), rev: None }),
                }
            },
            None => Err(ParseLockSourceError {  }),
        }
    }

    /// Writes the source as the one text that the lock file holds.
    ///
    /// The text reads back as the same source. A source of which no text
    /// does is refused: a git source without a revision, a git source with
    /// `#` in its uri, and a source that is not git and has a revision.
    pub fn serialize(&self) -> (result: Result<String, LingoError>)
        ensures
            match result {
                Ok(text) => self@.descriptor() == Some(text@) && parse_descriptor(text@) == Some(
                    self@,
                ),
                Err(error) => self@.descriptor() is None && self@.refused_with(error),
            },
    {
        proof {
            lemma_type_texts();
            lemma_descriptor_round_trip(self@);
        }
        let mut serialized_string = self.source_type.as_str().to_owned();
        serialized_string.append("+");
        serialized_string.append(self.uri.as_str());
        if self.source_type == PackageLockSourceType::GIT {
            match &self.rev {
                Some(rev) => {
                    if find(self.uri.as_str(), '#').is_some() {
                        proof {
                            let at = first_index(self.uri@, '#').unwrap();
                            assert(is_first(self.uri@, '#', at));
                            assert(self.uri@[at] == '#');
                        }
                        return Err(LingoError::UnwritableSource(self.uri.clone()));
                    }
                    proof {
                        if self.uri@.contains('#') {
                            lemma_has_first_index(self.uri@, '#');
                        }
                    }
                    serialized_string.append("#");
                    serialized_string.append(rev.as_str());
                },
                None => {
                    return Err(LingoError::MissingRevision(self.uri.clone()));
                },
            }
        } else if self.rev.is_some() {
            return Err(LingoError::UnwritableSource(self.uri.clone()));
        }
        Ok(serialized_string)
    }
}

/// One locked package: its version, where it came from and the checksum of
/// its content.
#[derive(Debug)]
pub struct PackageLock {
    pub name: String,
    pub version: Versioning,
    pub source: PackageLockSource,
    pub checksum: String,
}

/// The mathematical value of a [`PackageLock`].
pub struct PackageLockView {
    pub name: Seq<char>,
    pub version: Seq<char>,
    pub source: LockSourceView,
    pub checksum: Seq<char>,
}

impl View for PackageLock {
    type V = PackageLockView;

    open spec fn view(&self) -> PackageLockView {
        PackageLockView {
            name: self.name@,
            version: self.version@,
            source: self.source@,
            checksum: self.checksum@,
        }
    }
}

impl Clone for PackageLock {
    fn clone(&self) -> (copy: Self)
        ensures
            copy@ == self@,
    {
        PackageLock {
            name: self.name.clone(),
            version: self.version.clone(),
            source: self.source.clone(),
            checksum: self.checksum.clone(),
        }
    }
}

/// The lock entry of a selected node: its name and version, its source with
/// the revision that was checked out, and the hash of its content.
pub open spec fn lock_of(node: NodeView) -> PackageLockView {
    PackageLockView {
        name: node.name,
        version: node.version,
        source: LockSourceView {
            source_type: source_type_of(node.package.mutual_exclusive),
            uri: node.package.mutual_exclusive.uri(),
            rev: node.package.git_rev,
        },
        checksum: node.hash,
    }
}

/// One entry of a lock file as the texts that are written there.
#[derive(Debug)]
pub struct LockRecord {
    pub name: String,
    pub version: String,
    pub source: String,
    pub checksum: String,
}

/// The mathematical value of a [`LockRecord`].
pub struct LockRecordView {
    pub name: Seq<char>,
    pub version: Seq<char>,
    pub source: Seq<char>,
    pub checksum: Seq<char>,
}

impl View for LockRecord {
    type V = LockRecordView;

    open spec fn view(&self) -> LockRecordView {
        LockRecordView {
            name: self.name@,
            version: self.version@,
            source: self.source@,
            checksum: self.checksum@,
        }
    }
}

impl PackageLockView {
    /// The entry as it is written to a lock file. An entry whose source is
    /// not canonical cannot be written.
    pub open spec fn record(self) -> Option<LockRecordView> {
        match self.source.descriptor() {
            Some(source) => Some(
                LockRecordView {
                    name: self.name,
                    version: self.version,
                    source,
                    checksum: self.checksum,
                },
            ),
            None => None,
        }
    }
}

impl LockRecordView {
    /// The entry that a record of a lock file stands for. A record whose
    /// version is no version, or whose source is no source, stands for none.
    pub open spec fn entry(self) -> Option<PackageLockView> {
        if versioning_parses(self.version) {
            match parse_descriptor(self.source) {
                Some(source) => Some(
                    PackageLockView {
                        name: self.name,
                        version: self.version,
                        source,
                        checksum: self.checksum,
                    },
                ),
                None => None,
            }
        } else {
            None
        }
    }
}

impl PackageLock {
    /// The lock entry of a selected node.
    pub fn from(value: DependencyTreeNode) -> (lock: PackageLock)
        ensures
            lock@ == lock_of(value@),
    {
        let uri = value.package.mutual_exclusive.uri().to_owned();
        PackageLock {
            name: value.name,
            version: value.version,
            source: PackageLockSource {
                source_type: PackageLockSourceType::from(&value.package.mutual_exclusive),
                uri,
                rev: value.package.git_rev,
            },
            checksum: value.hash,
        }
    }

    /// Writes the entry as the texts of a lock file.
    ///
    /// Fails exactly for a source that is not canonical. Every field of an
    /// entry that is written reads back from the record as it was.
    pub fn serialize(&self) -> (result: Result<LockRecord, LingoError>)
        ensures
            match result {
                Ok(record) => self@.record() == Some(record@) && record@.entry() == Some(self@),
                Err(error) => self@.record() is None && self@.source.refused_with(error),
            },
    {
        let source = match self.source.serialize() {
            Ok(source) => source,
            Err(error) => {
                return Err(error);
            },
        };
        let version = self.version.as_str().to_owned();
        proof {
            lemma_entry_round_trip(self@);
        }
        Ok(LockRecord { name: self.name.clone(), version, source, checksum: self.checksum.clone() })
    }

    /// Reads an entry from the texts of a lock file.
    ///
    /// Fails exactly for a record whose version is no version or whose
    /// source does not follow the pattern `<type>+<uri>(#<rev>)`; the error
    /// names the package.
    pub fn deserialize(record: &LockRecord) -> (result: Result<PackageLock, LingoError>)
        ensures
            match result {
                Ok(lock) => record@.entry() == Some(lock@),
                Err(error) => record@.entry() is None && (error matches LingoError::ManifestParse(
                    name,
                ) && name@ == record.name@),
            },
    {
        let version = match Versioning::new(record.version.as_str()) {
            Some(version) => version,
            None => {
                return Err(LingoError::ManifestParse(record.name.clone()));
            },
        };
        let source = match PackageLockSource::from_str(record.source.as_str()) {
            Ok(source) => source,
            Err(_) => {
                return Err(LingoError::ManifestParse(record.name.clone()));
            },
        };
        Ok(
            PackageLock {
                name: record.name.clone(),
                version,
                source,
                checksum: record.checksum.clone(),
            },
        )
    }
}

/// The values of a list of lock entries.
pub open spec fn lock_views(locks: Seq<PackageLock>) -> Seq<PackageLockView> {
    locks.map_values(|lock: PackageLock| lock@)
}

/// The values of a list of records.
pub open spec fn record_views(records: Seq<LockRecord>) -> Seq<LockRecordView> {
    records.map_values(|record: LockRecord| record@)
}

/// Whether no two of the entries are of the same package.
pub open spec fn distinct_names(locks: Seq<PackageLockView>) -> bool {
    forall|i: int, j: int|
        0 <= i < j < locks.len() ==> (#[trigger] locks[i]).name != (#[trigger] locks[j]).name
}

/// The entries as a map from the name of a package to its entry. Of several
/// entries of one package the last one counts.
pub open spec fn lock_map(locks: Seq<PackageLockView>) -> Map<Seq<char>, PackageLockView>
    decreases locks.len(),
{
    if locks.len() == 0 {
        Map::empty()
    } else {
        lock_map(locks.drop_last()).insert(locks.last().name, locks.last())
    }
}

/// The lock entries of a list of nodes.
pub open spec fn locks_of(nodes: Seq<NodeView>) -> Seq<PackageLockView> {
    nodes.map_values(|node: NodeView| lock_of(node))
}

/// The CMake code that a list of loaded packages contributes: the code of
/// each, merged in order into the empty code.
pub open spec fn aggregated_code(nodes: Seq<NodeView>) -> Seq<char>
    decreases nodes.len(),
{
    if nodes.len() == 0 {
        Seq::empty()
    } else {
        merged(aggregated_code(nodes.drop_last()), nodes.last().properties.cmake_include)
    }
}

/// The resolved dependencies of a project: one entry per package, and the
/// nodes that they were selected or loaded from.
#[derive(Debug)]
pub struct DependencyLock {
    /// the locked packages, no two of the same name
    dependencies: Vec<PackageLock>,
    /// this will be populated when the project is successfully loaded from the lock file
    loaded_dependencies: Vec<DependencyTreeNode>,
}

impl DependencyLock {
    #[verifier::type_invariant]
    spec fn names_are_distinct(self) -> bool {
        distinct_names(lock_views(self.dependencies@))
    }

    /// The entries of the lock in the order in which they are stored.
    pub closed spec fn locks(self) -> Seq<PackageLockView> {
        lock_views(self.dependencies@)
    }

    /// The entries of the lock by the name of their package.
    pub open spec fn entries(self) -> Map<Seq<char>, PackageLockView> {
        lock_map(self.locks())
    }

    /// The nodes that the lock was made or loaded from.
    pub closed spec fn loaded(self) -> Seq<NodeView> {
        node_views(self.loaded_dependencies@)
    }

    /// A lock without entries.
    pub fn new() -> (lock: Self)
        ensures
            lock.locks().len() == 0,
            lock.loaded().len() == 0,
    {
        DependencyLock { dependencies: Vec::new(), loaded_dependencies: Vec::new() }
    }

    /// The number of locked packages.
    pub fn len(&self) -> (n: usize)
        ensures
            n == self.locks().len(),
    {
        self.dependencies.len()
    }

    /// The entry at a position of the lock.
    pub fn get(&self, i: usize) -> (lock: &PackageLock)
        requires
            i < self.locks().len(),
        ensures
            lock@ == self.locks()[i as int],
    {
        &self.dependencies[i]
    }

    /// The entry of a package.
    pub fn find(&self, name: &str) -> (lock: Option<&PackageLock>)
        ensures
            match lock {
                Some(lock) => self.entries().contains_key(name@) && self.entries()[name@] == lock@,
                None => !self.entries().contains_key(name@),
            },
    {
        let mut i: usize = 0;
        while i < self.dependencies.len()
            invariant
                i <= self.dependencies@.len(),
                forall|k: int| 0 <= k < i ==> (#[trigger] self.locks()[k]).name != name@,
            decreases self.dependencies@.len() - i,
        {
            if text_eq(self.dependencies[i].name.as_str(), name) {
                proof {
                    use_type_invariant(self);
                    lemma_lock_map(self.locks());
                    assert(self.locks()[i as int].name == name@);
                }
                return Some(&self.dependencies[i]);
            }
            i += 1;
        }
        proof {
            use_type_invariant(self);
            lemma_lock_map(self.locks());
            if self.entries().contains_key(name@) {
                let k = choose|k: int| 0 <= k < self.locks().len() && (#[trigger] self.locks()[k]).name == name@;
                assert(false);
            }
        }
        None
    }

    /// Puts an entry into a list of entries with distinct names: in place of
    /// the entry of the same package, or at the end.
    fn insert(locks: &mut Vec<PackageLock>, lock: PackageLock)
        requires
            distinct_names(lock_views(old(locks)@)),
        ensures
            distinct_names(lock_views(final(locks)@)),
            lock_map(lock_views(final(locks)@)) == lock_map(lock_views(old(locks)@)).insert(
                lock.name@,
                lock@,
            ),
    {
        let ghost before = lock_views(locks@);
        let mut i: usize = 0;
        while i < locks.len()
            invariant
                i <= locks@.len(),
                before == lock_views(locks@),
                locks@ == old(locks)@,
                distinct_names(before),
                forall|k: int| 0 <= k < i ==> (#[trigger] before[k]).name != lock.name@,
            decreases locks@.len() - i,
        {
            if locks[i].name == lock.name {
                let ghost value = lock@;
                locks.set(i, lock);
                proof {
                    assert(lock_views(locks@) =~= before.update(i as int, value));
                    lemma_lock_map_update(before, i as int, value);
                }
                return ;
            }
            i += 1;
        }
        let ghost value = lock@;
        locks.push(lock);
        proof {
            assert(lock_views(locks@) =~= before.push(value));
            assert(before.push(value).drop_last() =~= before);
            assert forall|a: int, b: int| 0 <= a < b < before.push(value).len() implies (
            #[trigger] before.push(value)[a]).name != (#[trigger] before.push(value)[b]).name by {
                if b < before.len() {
                    assert(before[a].name != before[b].name);
                } else {
                    assert(before[a].name != value.name);
                }
            }
        }
    }

    /// The lock of a selection. It holds one entry for every package of the
    /// selection; were a package selected twice, its later node would count.
    pub fn create(selected_dependencies: Vec<DependencyTreeNode>) -> (lock: DependencyLock)
        ensures
            lock.entries() == lock_map(locks_of(node_views(selected_dependencies@))),
            lock.loaded() == node_views(selected_dependencies@),
    {
        let ghost nodes = node_views(selected_dependencies@);
        let mut map: Vec<PackageLock> = Vec::new();
        let mut i: usize = 0;
        assert(locks_of(nodes).take(0) =~= Seq::empty());
        while i < selected_dependencies.len()
            invariant
                i <= selected_dependencies@.len(),
                nodes == node_views(selected_dependencies@),
                distinct_names(lock_views(map@)),
                lock_map(lock_views(map@)) == lock_map(locks_of(nodes).take(i as int)),
            decreases selected_dependencies@.len() - i,
        {
            let dependency = &selected_dependencies[i];
            let lock = PackageLock::from(dependency.shallow_clone());
            proof {
                assert(lock@ == lock_of(nodes[i as int]));
                let next = locks_of(nodes).take(i + 1);
                assert(next.drop_last() =~= locks_of(nodes).take(i as int));
                assert(next.last() == lock@);
            }
            Self::insert(&mut map, lock);
            i += 1;
        }
        assert(locks_of(nodes).take(i as int) =~= locks_of(nodes));
        Self { dependencies: map, loaded_dependencies: selected_dependencies }
    }

    /// Where the locked packages are copied from and to when the folder of
    /// libraries is made: for each entry, from the directory below
    /// `source_path` that is named by its checksum to the directory below
    /// `target_path` that is named by the package.
    pub fn create_library_folder(&self, source_path: &str, target_path: &str) -> (copies: Vec<
        (String, String),
    >)
        ensures
            copies@.len() == self.locks().len(),
            forall|i: int|
                0 <= i < copies@.len() ==> (#[trigger] copies@[i]).0@ == joined(
                    source_path@,
                    self.locks()[i].checksum,
                ) && copies@[i].1@ == joined(target_path@, self.locks()[i].name),
    {
        let mut copies: Vec<(String, String)> = Vec::new();
        let mut i: usize = 0;
        while i < self.dependencies.len()
            invariant
                i <= self.dependencies@.len(),
                copies@.len() == i,
                forall|k: int|
                    0 <= k < i ==> (#[trigger] copies@[k]).0@ == joined(
                        source_path@,
                        self.locks()[k].checksum,
                    ) && copies@[k].1@ == joined(target_path@, self.locks()[k].name),
            decreases self.dependencies@.len() - i,
        {
            let dep = &self.dependencies[i];
            let local_source = join(source_path, dep.checksum.as_str());
            let find_source = join(target_path, dep.name.as_str());
            copies.push((local_source, find_source));
            i += 1;
        }
        copies
    }

    /// The properties that the loaded packages hand on to the apps: their
    /// CMake code, merged in the order in which the packages were loaded.
    pub fn aggregate_target_properties(&self) -> (result: Result<LibraryTargetProperties, LingoError>)
        ensures
            result matches Ok(properties) && properties@ == (LibraryPropertiesView {
                cmake_include: aggregated_code(self.loaded()),
                sources: Seq::<Seq<char>>::empty(),
                artifacts: Seq::<Seq<char>>::empty(),
            }),
    {
        let mut i = LibraryTargetProperties::default();
        let mut k: usize = 0;
        assert(self.loaded().take(0) =~= Seq::empty());
        while k < self.loaded_dependencies.len()
            invariant
                k <= self.loaded_dependencies@.len(),
                i@ == (LibraryPropertiesView {
                    cmake_include: aggregated_code(self.loaded().take(k as int)),
                    sources: Seq::<Seq<char>>::empty(),
                    artifacts: Seq::<Seq<char>>::empty(),
                }),
            decreases self.loaded_dependencies@.len() - k,
        {
            let tp = &self.loaded_dependencies[k];
            match i.merge(&tp.properties) {
                Ok(()) => {},
                Err(error) => {
                    return Err(error);
                },
            }
            proof {
                let next = self.loaded().take(k + 1);
                assert(next.drop_last() =~= self.loaded().take(k as int));
                assert(next.last().properties.cmake_include == tp.properties.cmake_include@);
            }
            k += 1;
        }
        assert(self.loaded().take(k as int) =~= self.loaded());
        Ok(i)
    }

    /// Writes the lock as the records of a lock file, one per entry.
    ///
    /// Fails exactly where the source of an entry is not canonical, with
    /// the refusal of the first such entry. Every entry reads back from its
    /// record as it was.
    pub fn serialize(&self) -> (result: Result<Vec<LockRecord>, LingoError>)
        ensures
            match result {
                Ok(records) => records@.len() == self.locks().len() && forall|i: int|
                    0 <= i < records@.len() ==> self.locks()[i].record() == Some(
                        (#[trigger] records@[i])@,
                    ) && records@[i]@.entry() == Some(self.locks()[i]),
                Err(error) => exists|i: int|
                    0 <= i < self.locks().len() && (#[trigger] self.locks()[i]).record() is None
                        && self.locks()[i].source.refused_with(error) && forall|k: int|
                        0 <= k < i ==> (#[trigger] self.locks()[k]).record() is Some,
            },
    {
        let mut records: Vec<LockRecord> = Vec::new();
        let mut i: usize = 0;
        while i < self.dependencies.len()
            invariant
                i <= self.dependencies@.len(),
                records@.len() == i,
                forall|k: int|
                    0 <= k < i ==> self.locks()[k].record() == Some((#[trigger] records@[k])@)
                        && records@[k]@.entry() == Some(self.locks()[k]),
            decreases self.dependencies@.len() - i,
        {
            match self.dependencies[i].serialize() {
                Ok(record) => {
                    records.push(record);
                },
                Err(error) => {
                    proof {
                        assert(self.locks()[i as int].record() is None);
                        assert(self.locks()[i as int].source.refused_with(error));
                        assert forall|k: int| 0 <= k < i implies (#[trigger] self.locks()[
                            k
                        ]).record() is Some by {
                            assert(self.locks()[k].record() == Some(records@[k]@));
                        }
                    }
                    return Err(error);
                },
            }
            i += 1;
        }
        Ok(records)
    }

    /// Reads a lock from the records of a lock file. Of several records of
    /// one package the last one counts.
    ///
    /// Fails exactly where a record stands for no entry, and then names the
    /// package of the first such record.
    pub fn deserialize(records: &Vec<LockRecord>) -> (result: Result<DependencyLock, LingoError>)
        ensures
            match result {
                Ok(lock) => exists|locks: Seq<PackageLockView>|
                    reads_as(record_views(records@), locks) && lock.entries() == lock_map(locks)
                        && lock.loaded().len() == 0,
                Err(error) => exists|i: int|
                    0 <= i < records@.len() && (#[trigger] records@[i])@.entry() is None && (
                    error matches LingoError::ManifestParse(name) && name@ == records@[i].name@) && forall|
                        k: int,
                    | 0 <= k < i ==> (#[trigger] records@[k])@.entry() is Some,
            },
    {
        let mut map: Vec<PackageLock> = Vec::new();
        let ghost mut read: Seq<PackageLockView> = Seq::empty();
        let mut i: usize = 0;
        while i < records.len()
            invariant
                i <= records@.len(),
                distinct_names(lock_views(map@)),
                read.len() == i,
                forall|k: int| 0 <= k < i ==> (#[trigger] records@[k])@.entry() == Some(read[k]),
                lock_map(lock_views(map@)) == lock_map(read),
            decreases records@.len() - i,
        {
            match PackageLock::deserialize(&records[i]) {
                Ok(lock) => {
                    proof {
                        assert(read.push(lock@).drop_last() =~= read);
                        read = read.push(lock@);
                    }
                    Self::insert(&mut map, lock);
                },
                Err(error) => {
                    return Err(error);
                },
            }
            i += 1;
        }
        let lock = DependencyLock { dependencies: map, loaded_dependencies: Vec::new() };
        proof {
            assert(reads_as(record_views(records@), read));
        }
        Ok(lock)
    }
}

/// The name of the manifest of a package.
pub const MANIFEST_NAME: &'static str = "Lingo.toml";

/// The node of a locked package that was found in `directory`. A node that
/// is loaded from a lock places no requirement and names no source.
pub open spec fn loaded_node_of(lock: PackageLockView, location: Seq<char>, directory: PackageDirectory) -> NodeView {
    NodeView {
        name: directory.config.package.name@,
        version: directory.config.package.version@,
        package: DetailsView {
            version: seq!['*'],
            mutual_exclusive: SourceView::Path(Seq::empty()),
            git_tag: None,
            git_rev: None,
        },
        location,
        include_path: directory.config.library.unwrap().location@,
        hash: lock.checksum,
        properties: directory.config.library.unwrap().properties@,
    }
}

/// Whether a directory holds what a lock entry records: every entry of the
/// directory can be hashed, the checksum of the directory is the recorded
/// one, and the manifest exports a library.
pub open spec fn intact(lock: PackageLockView, directory: PackageDirectory) -> bool {
    &&& all_supported(entry_views(directory.entries@))
    &&& hex_of(checksum_of(entry_views(directory.entries@))) == lock.checksum
    &&& directory.config.library is Some
}

/// Whether `node` is the node of a locked package as `load` can find it,
/// intact, in the directory of the package below `folder`.
pub open spec fn validated<L>(lock: PackageLockView, folder: Seq<char>, load: L, node: NodeView) -> bool where
    L: Fn(&str) -> Result<PackageDirectory, LingoError>,
 {
    exists|location: &str, directory: PackageDirectory|
        location@ == joined(folder, lock.name) && #[trigger] call_ensures(
            load,
            (location,),
            Ok::<PackageDirectory, LingoError>(directory),
        ) && intact(lock, directory) && node == loaded_node_of(lock, location@, directory)
}

/// Whether `error` is the error with which a directory that does not hold
/// what a lock entry records is refused: `UnsupportedFileType` where it
/// holds an entry that cannot be hashed, else `ChecksumMismatch` where its
/// checksum is not the recorded one, else `NoLibraryInLingoToml`.
pub open spec fn damage(lock: PackageLockView, location: Seq<char>, directory: PackageDirectory, error: LingoError) -> bool {
    if !all_supported(entry_views(directory.entries@)) {
        error is UnsupportedFileType
    } else if hex_of(checksum_of(entry_views(directory.entries@))) != lock.checksum {
        error matches LingoError::ChecksumMismatch(name) && name@ == lock.name
    } else {
        error matches LingoError::NoLibraryInLingoToml(path) && path@ == joined(
            location,
            MANIFEST_NAME@,
        )
    }
}

/// Whether `error` is a failure that the validation of a lock entry can
/// end with: its source stands for no dependency, the fetch or the load
/// fails, or what is loaded is not what the entry records.
pub open spec fn validation_failed<C, R, L>(
    lock: PackageLockView,
    folder: Seq<char>,
    clone: C,
    run: R,
    load: L,
    error: LingoError,
) -> bool where
    C: Fn(GitUrl, &str, Option<GitLock>) -> Result<Option<String>, GitCloneError>,
    R: Fn(&Action) -> BuildResult,
    L: Fn(&str) -> Result<PackageDirectory, LingoError>,
 {
    let location = joined(folder, lock.name);
    ||| details_of(lock.source) is None && source_refusal(lock.source, error)
    ||| exists|details: DetailsView, after: DetailsView|
        details_of(lock.source) == Some(details) && #[trigger] details.fetched(
            location,
            clone,
            run,
            after,
            Err::<(), LingoError>(error),
        )
    ||| exists|directory: &str|
        directory@ == location && #[trigger] call_ensures(
            load,
            (directory,),
            Err::<PackageDirectory, LingoError>(error),
        )
    ||| exists|directory: &str, loaded: PackageDirectory|
        directory@ == location && #[trigger] call_ensures(
            load,
            (directory,),
            Ok::<PackageDirectory, LingoError>(loaded),
        ) && !intact(lock, loaded) && damage(lock, location, loaded, error)
}

/// Whether `probe` always finds the manifest of every locked package below
/// `folder`: the packages are all cached.
pub open spec fn all_cached<P>(locks: Seq<PackageLockView>, folder: Seq<char>, probe: P) -> bool where
    P: Fn(&str) -> bool,
 {
    forall|i: int, manifest: &str, found: bool|
        0 <= i < locks.len() && manifest@ == joined(
            joined(folder, (#[trigger] locks[i]).name),
            MANIFEST_NAME@,
        ) && #[trigger] call_ensures(probe, (manifest,), found) ==> found
}

/// Whether the cache below `folder` is intact: whatever `load` gives for the
/// directory of a locked package is a directory that holds what the entry
/// records.
pub open spec fn intact_cache<L>(locks: Seq<PackageLockView>, folder: Seq<char>, load: L) -> bool where
    L: Fn(&str) -> Result<PackageDirectory, LingoError>,
 {
    forall|i: int, directory: &str, outcome: Result<PackageDirectory, LingoError>|
        0 <= i < locks.len() && directory@ == joined(folder, (#[trigger] locks[i]).name)
            && #[trigger] call_ensures(load, (directory,), outcome) ==> (outcome matches Ok(loaded)
            && intact(locks[i], loaded))
}

impl DependencyLock {
    /// The node of a locked package that was found in a directory.
    ///
    /// The package is refused, in this order, with `UnsupportedFileType`
    /// where its directory holds an entry that cannot be hashed, with
    /// `ChecksumMismatch` where the checksum of the directory is not the
    /// recorded one, and with `NoLibraryInLingoToml` where its manifest
    /// exports no library.
    pub fn check(lock: &PackageLock, location: &str, directory: PackageDirectory) -> (result: Result<
        DependencyTreeNode,
        LingoError,
    >)
        ensures
            match result {
                Ok(node) => intact(lock@, directory) && node@ == loaded_node_of(
                    lock@,
                    location@,
                    directory,
                ) && node.dependencies@.len() == 0,
                Err(error) => !intact(lock@, directory) && damage(lock@, location@, directory, error),
            },
    {
        let PackageDirectory { entries, config: read_toml } = directory;
        let hash = match checksum_current_dir(&entries, false) {
            Ok(checksum) => checksum.to_hex(),
            Err(error) => {
                return Err(error);
            },
        };
        if hash != lock.checksum {
            return Err(LingoError::ChecksumMismatch(lock.name.clone()));
        }
        let Config { package: description, apps: _, library, dependencies: _ } = read_toml;
        let lib = match library {
            Some(value) => value,
            None => {
                // error we expected a library here
                return Err(LingoError::NoLibraryInLingoToml(join(location, MANIFEST_NAME)));
            },
        };
        Ok(
            DependencyTreeNode {
                name: description.name,
                version: description.version,
                package: PackageDetails {
                    version: Requirement::wildcard(),
                    mutual_exclusive: ProjectSource::Path(String::new()),
                    git_tag: None,
                    git_rev: None,
                },
                location: location.to_owned(),
                include_path: lib.location,
                hash: lock.checksum.clone(),
                dependencies: Vec::new(),
                properties: lib.properties,
            },
        )
    }

    /// Validates the lock against the packages that are cached below
    /// `lfc_include_folder` and loads their nodes.
    ///
    /// For each entry, `probe` tells whether the manifest of the package is
    /// cached; a package that is not is fetched again from the recorded
    /// source. The package is then read by `load` and checked against the
    /// entry. The result is the number of packages that were fetched: none
    /// where all packages are cached. On failure the lock is left as it was.
    ///
    /// The validation succeeds without a fetch where all packages are cached
    /// and the cache is intact.
    pub fn init<P, C, R, L>(
        &mut self,
        lfc_include_folder: &str,
        probe: &P,
        clone: &C,
        run: &R,
        load: &L,
    ) -> (result: Result<usize, LingoError>) where
        P: Fn(&str) -> bool,
        C: Fn(GitUrl, &str, Option<GitLock>) -> Result<Option<String>, GitCloneError>,
        R: Fn(&Action) -> BuildResult,
        L: Fn(&str) -> Result<PackageDirectory, LingoError>,

        requires
            forall|path: &str| call_requires(*probe, (path,)),
            forall|url: GitUrl, target: &str, lock: Option<GitLock>|
                call_requires(*clone, (url, target, lock)),
            forall|action: &Action| call_requires(*run, (action,)),
            forall|directory: &str| call_requires(*load, (directory,)),
        ensures
            final(self).locks() == old(self).locks(),
            match result {
                Ok(fetched) => {
                    &&& final(self).loaded().len() == old(self).loaded().len() + old(self).locks().len()
                    &&& final(self).loaded().take(old(self).loaded().len() as int) == old(
                        self,
                    ).loaded()
                    &&& forall|i: int|
                        0 <= i < old(self).locks().len() ==> validated(
                            (#[trigger] old(self).locks()[i]),
                            lfc_include_folder@,
                            *load,
                            final(self).loaded()[old(self).loaded().len() + i],
                        )
                    &&& fetched <= old(self).locks().len()
                    &&& all_cached(old(self).locks(), lfc_include_folder@, *probe) ==> fetched == 0
                },
                Err(error) => final(self).loaded() == old(self).loaded() && exists|i: int|
                    0 <= i < old(self).locks().len() && validation_failed(
                        #[trigger] old(self).locks()[i],
                        lfc_include_folder@,
                        *clone,
                        *run,
                        *load,
                        error,
                    ),
            },
            all_cached(old(self).locks(), lfc_include_folder@, *probe) && intact_cache(
                old(self).locks(),
                lfc_include_folder@,
                *load,
            ) ==> result == Ok::<usize, LingoError>(0),
    {
        proof {
            use_type_invariant(&*self);
        }
        let mut nodes: Vec<DependencyTreeNode> = Vec::new();
        let mut fetched: usize = 0;
        let mut i: usize = 0;
        while i < self.dependencies.len()
            invariant
                i <= self.dependencies@.len(),
                *self == *old(self),
                forall|path: &str| call_requires(*probe, (path,)),
                forall|url: GitUrl, target: &str, lock: Option<GitLock>|
                    call_requires(*clone, (url, target, lock)),
                forall|action: &Action| call_requires(*run, (action,)),
                forall|directory: &str| call_requires(*load, (directory,)),
                nodes@.len() == i,
                forall|k: int|
                    0 <= k < i ==> validated(
                        (#[trigger] self.locks()[k]),
                        lfc_include_folder@,
                        *load,
                        nodes@[k]@,
                    ),
                fetched <= i,
                all_cached(self.locks(), lfc_include_folder@, *probe) ==> fetched == 0,
            decreases self.dependencies@.len() - i,
        {
            let lock = &self.dependencies[i];
            assert(lock@ == self.locks()[i as int]);
            let temp = join(lfc_include_folder, lock.name.as_str());
            let manifest = join(temp.as_str(), MANIFEST_NAME);
            // the Lingo.toml for this dependency doesnt exists, hence we need to fetch this package
            let found = probe(manifest.as_str());
            if !found {
                let mut details = match PackageDetails::try_from(&lock.source) {
                    Ok(details) => details,
                    Err(error) => {
                        return Err(error);
                    },
                };
                let ghost requested = details@;
                match details.fetch(temp.as_str(), clone, run) {
                    Ok(()) => {},
                    Err(error) => {
                        proof {
                            let ghost entry = self.locks()[i as int];
                            assert(details_of(entry.source) == Some(requested));
                            assert(temp@ == joined(lfc_include_folder@, entry.name));
                            assert(requested.fetched(
                                joined(lfc_include_folder@, entry.name),
                                *clone,
                                *run,
                                details@,
                                Err::<(), LingoError>(error),
                            ));
                            assert(validation_failed(
                                entry,
                                lfc_include_folder@,
                                *clone,
                                *run,
                                *load,
                                error,
                            ));
                        }
                        return Err(error);
                    },
                }
                fetched += 1;
            }
            let location = temp.as_str();
            let directory = match load(location) {
                Ok(directory) => directory,
                Err(error) => {
                    assert(call_ensures(
                        *load,
                        (location,),
                        Err::<PackageDirectory, LingoError>(error),
                    ));
                    return Err(error);
                },
            };
            let ghost loaded = directory;
            let node = match Self::check(lock, location, directory) {
                Ok(node) => node,
                Err(error) => {
                    assert(call_ensures(
                        *load,
                        (location,),
                        Ok::<PackageDirectory, LingoError>(loaded),
                    ));
                    return Err(error);
                },
            };
            proof {
                assert(call_ensures(*load, (location,), Ok::<PackageDirectory, LingoError>(loaded)));
                assert(validated(self.locks()[i as int], lfc_include_folder@, *load, node@));
            }
            nodes.push(node);
            i += 1;
        }
        let ghost before = self.loaded_dependencies@;
        let ghost added = nodes@;
        let mut taken = DependencyLock::new();
        core::mem::swap(self, &mut taken);
        let DependencyLock { dependencies, loaded_dependencies: mut loaded_dependencies } = taken;
        loaded_dependencies.append(&mut nodes);
        *self = DependencyLock { dependencies, loaded_dependencies };
        proof {
            assert(node_views(before + added) =~= node_views(before) + node_views(added));
            assert(self.loaded().take(before.len() as int) =~= node_views(before));
            assert forall|k: int| 0 <= k < old(self).locks().len() implies validated(
                (#[trigger] old(self).locks()[k]),
                lfc_include_folder@,
                *load,
                self.loaded()[old(self).loaded().len() + k],
            ) by {
                assert(self.loaded()[before.len() + k] == added[k]@);
            }
        }
        Ok(fetched)
    }
}

/// Round trip of an entry: every field of an entry with a version that
/// parses reads back from its record as it was, and an entry has a record
/// exactly where its source is canonical.
pub proof fn lemma_entry_round_trip(lock: PackageLockView)
    requires
        versioning_parses(lock.version),
    ensures
        lock.record() is Some <==> lock.source.canonical(),
        lock.record() matches Some(record) ==> record.entry() == Some(lock),
{
    lemma_descriptor_round_trip(lock.source);
}

/// Round trip of a lock: where every entry reads back from its record as it
/// was, what is read from the records is the lock, entry by entry.
pub proof fn lemma_lock_round_trip(
    locks: Seq<PackageLockView>,
    records: Seq<LockRecordView>,
    read: Seq<PackageLockView>,
)
    requires
        records.len() == locks.len(),
        forall|i: int| 0 <= i < locks.len() ==> (#[trigger] records[i]).entry() == Some(locks[i]),
        reads_as(records, read),
    ensures
        read == locks,
        lock_map(read) == lock_map(locks),
{
    assert forall|i: int| 0 <= i < locks.len() implies read[i] == locks[i] by {
        assert(records[i].entry() == Some(read[i]));
    }
    assert(read =~= locks);
}

/// Whether `locks` are the entries that the records stand for, one by one.
pub open spec fn reads_as(records: Seq<LockRecordView>, locks: Seq<PackageLockView>) -> bool {
    &&& locks.len() == records.len()
    &&& forall|i: int| 0 <= i < records.len() ==> (#[trigger] records[i]).entry() == Some(locks[i])
}

/// In a list of entries with distinct names, the map holds every entry under
/// its name and nothing else.
pub proof fn lemma_lock_map(locks: Seq<PackageLockView>)
    requires
        distinct_names(locks),
    ensures
        forall|i: int|
            0 <= i < locks.len() ==> lock_map(locks).contains_key((#[trigger] locks[i]).name)
                && lock_map(locks)[locks[i].name] == locks[i],
        forall|name: Seq<char>| #[trigger]
            lock_map(locks).contains_key(name) ==> exists|i: int|
                0 <= i < locks.len() && (#[trigger] locks[i]).name == name,
    decreases locks.len(),
{
    if locks.len() > 0 {
        let rest = locks.drop_last();
        assert(distinct_names(rest)) by {
            assert forall|a: int, b: int| 0 <= a < b < rest.len() implies (#[trigger] rest[a]).name != (
            #[trigger] rest[b]).name by {
                assert(locks[a].name != locks[b].name);
            }
        }
        lemma_lock_map(rest);
        assert forall|i: int| 0 <= i < locks.len() implies lock_map(locks).contains_key(
            (#[trigger] locks[i]).name,
        ) && lock_map(locks)[locks[i].name] == locks[i] by {
            if i < rest.len() {
                assert(rest[i] == locks[i]);
                assert(locks[i].name != locks[locks.len() - 1].name);
            }
        }
        assert forall|name: Seq<char>| #[trigger] lock_map(locks).contains_key(name) implies exists|
            i: int,
        | 0 <= i < locks.len() && (#[trigger] locks[i]).name == name by {
            if name == locks.last().name {
                assert(locks[locks.len() - 1].name == name);
            } else {
                assert(lock_map(rest).contains_key(name));
                let i = choose|i: int| 0 <= i < rest.len() && (#[trigger] rest[i]).name == name;
                assert(rest[i] == locks[i]);
                assert(locks[i].name == name);
            }
        }
    }
}

/// Replacing the entry of a package in a list of entries with distinct names
/// replaces it in the map.
proof fn lemma_lock_map_update(locks: Seq<PackageLockView>, i: int, lock: PackageLockView)
    requires
        distinct_names(locks),
        0 <= i < locks.len(),
        locks[i].name == lock.name,
    ensures
        distinct_names(locks.update(i, lock)),
        lock_map(locks.update(i, lock)) == lock_map(locks).insert(lock.name, lock),
    decreases locks.len(),
{
    let changed = locks.update(i, lock);
    assert forall|a: int, b: int| 0 <= a < b < changed.len() implies (#[trigger] changed[a]).name != (
    #[trigger] changed[b]).name by {
        assert(locks[a].name != locks[b].name);
    }
    if i == locks.len() - 1 {
        assert(changed.drop_last() =~= locks.drop_last());
        assert(lock_map(changed) =~= lock_map(locks).insert(lock.name, lock));
    } else {
        let rest = locks.drop_last();
        assert(changed.drop_last() =~= rest.update(i, lock));
        assert(distinct_names(rest)) by {
            assert forall|a: int, b: int| 0 <= a < b < rest.len() implies (#[trigger] rest[a]).name != (
            #[trigger] rest[b]).name by {
                assert(locks[a].name != locks[b].name);
            }
        }
        lemma_lock_map_update(rest, i, lock);
        assert(locks[i].name != locks[locks.len() - 1].name);
        assert(changed.last() == locks.last());
        assert(lock_map(changed) =~= lock_map(locks).insert(lock.name, lock));
    }
}

/// The names of the source types hold neither `+` nor `#`.
proof fn lemma_type_text_is_plain(source_type: PackageLockSourceType)
    ensures
        !source_type.text().contains('+'),
        parse_source_type(source_type.text()) == Some(source_type),
{
    lemma_type_texts();
    let text = source_type.text();
    assert forall|i: int| 0 <= i < text.len() implies text[i] != '+' by {}
    assert("registry"@.len() == 8);
    assert("git"@[0] == 'g');
    assert("path"@[0] == 'p');
    assert("tar"@[0] == 't');
}

/// A text that is joined from two parts around a mark splits into these
/// parts, provided the first part does not hold the mark.
proof fn lemma_split_joined(before: Seq<char>, mark: char, after: Seq<char>)
    requires
        !before.contains(mark),
    ensures
        split_once_at(before + seq![mark] + after, mark) == Some((before, after)),
{
    let text = before + seq![mark] + after;
    let at = before.len() as int;
    assert(is_first(text, mark, at)) by {
        assert forall|j: int| 0 <= j < at implies text[j] != mark by {
            assert(text[j] == before[j]);
            assert(before.contains(before[j]));
        }
    }
    lemma_first_index(text, mark, at);
    assert(text.take(at) =~= before);
    assert(text.skip(at + 1) =~= after);
}

/// A text splits into parts that give the text back when joined around the
/// mark, and the first part does not hold the mark.
proof fn lemma_join_split(text: Seq<char>, mark: char)
    requires
        split_once_at(text, mark) is Some,
    ensures
        ({
            let (before, after) = split_once_at(text, mark).unwrap();
            before + seq![mark] + after == text && !before.contains(mark)
        }),
{
    let at = first_index(text, mark).unwrap();
    assert(is_first(text, mark, at));
    let (before, after) = split_once_at(text, mark).unwrap();
    assert(before + seq![mark] + after =~= text);
    assert forall|j: int| 0 <= j < before.len() implies before[j] != mark by {
        assert(before[j] == text[j]);
    }
}

/// Round trip, from value to text and back: the text of a source reads back
/// as the same source, and a source has a text exactly where it is
/// canonical.
pub proof fn lemma_descriptor_round_trip(source: LockSourceView)
    ensures
        source.descriptor() is Some <==> source.canonical(),
        source.descriptor() matches Some(text) ==> parse_descriptor(text) == Some(source),
{
    lemma_type_text_is_plain(source.source_type);
    let kind = source.source_type.text();
    if !source.canonical() {
    } else if source.source_type == PackageLockSourceType::GIT {
        let rev = source.rev.unwrap();
        let rest = source.uri + seq!['#'] + rev;
        assert(source.descriptor().unwrap() =~= kind + seq!['+'] + rest);
        lemma_split_joined(kind, '+', rest);
        lemma_split_joined(source.uri, '#', rev);
    } else {
        lemma_split_joined(kind, '+', source.uri);
    }
}

/// Round trip, from text to value and back: a text that reads as a source is
/// the text of that source, and the source is canonical.
pub proof fn lemma_descriptor_is_unique(text: Seq<char>)
    requires
        parse_descriptor(text) is Some,
    ensures
        parse_descriptor(text).unwrap().canonical(),
        parse_descriptor(text).unwrap().descriptor() == Some(text),
{
    lemma_join_split(text, '+');
    let (kind, rest) = split_once_at(text, '+').unwrap();
    let source = parse_descriptor(text).unwrap();
    assert(source.source_type.text() == kind);
    if source.source_type == PackageLockSourceType::GIT {
        lemma_join_split(rest, '#');
        let (uri, rev) = split_once_at(rest, '#').unwrap();
        assert(source.descriptor().unwrap() =~= kind + seq!['+'] + (uri + seq!['#'] + rev));
    }
}

} // verus!
