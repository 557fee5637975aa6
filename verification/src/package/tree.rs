//! The packages that a project depends on, as a tree of fetched nodes.

use vstd::prelude::*;

use crate::package::target_properties::{LibraryPropertiesView, LibraryTargetProperties};
use crate::package::version::{Requirement, Versioning};

verus! {

/// Where the content of a package comes from.
#[derive(Debug)]
pub enum ProjectSource {
    /// A git repository, by its url.
    Git(String),
    /// An archive, by its url.
    TarBall(String),
    /// A directory on this machine.
    Path(String),
}

/// The mathematical value of a [`ProjectSource`].
pub enum SourceView {
    Git(Seq<char>),
    TarBall(Seq<char>),
    Path(Seq<char>),
}

impl View for ProjectSource {
    type V = SourceView;

    open spec fn view(&self) -> SourceView {
        match self {
            ProjectSource::Git(url) => SourceView::Git(url@),
            ProjectSource::TarBall(url) => SourceView::TarBall(url@),
            ProjectSource::Path(path) => SourceView::Path(path@),
        }
    }
}

impl Clone for ProjectSource {
    fn clone(&self) -> (copy: Self)
        ensures
            copy@ == self@,
    {
        match self {
            ProjectSource::Git(url) => ProjectSource::Git(url.clone()),
            ProjectSource::TarBall(url) => ProjectSource::TarBall(url.clone()),
            ProjectSource::Path(path) => ProjectSource::Path(path.clone()),
        }
    }
}

impl ProjectSource {
    /// The url or path of the source.
    pub fn uri(&self) -> (uri: &str)
        ensures
            uri@ == self@.uri(),
    {
        match self {
            ProjectSource::Git(url) => url.as_str(),
            ProjectSource::TarBall(url) => url.as_str(),
            ProjectSource::Path(path) => path.as_str(),
        }
    }
}

impl SourceView {
    /// The url or path of the source.
    pub open spec fn uri(self) -> Seq<char> {
        match self {
            SourceView::Git(url) => url,
            SourceView::TarBall(url) => url,
            SourceView::Path(path) => path,
        }
    }
}

/// What a git source is pinned to.
#[derive(Debug)]
pub enum GitLock {
    /// A tag of the repository.
    Tag(String),
    /// A branch; it floats until a fetch resolves it to a revision.
    Branch(String),
    /// A commit.
    Rev(String),
}

/// The mathematical value of a [`GitLock`].
pub enum GitLockView {
    Tag(Seq<char>),
    Branch(Seq<char>),
    Rev(Seq<char>),
}

impl View for GitLock {
    type V = GitLockView;

    open spec fn view(&self) -> GitLockView {
        match self {
            GitLock::Tag(name) => GitLockView::Tag(name@),
            GitLock::Branch(name) => GitLockView::Branch(name@),
            GitLock::Rev(commit) => GitLockView::Rev(commit@),
        }
    }
}

impl Clone for GitLock {
    fn clone(&self) -> (copy: Self)
        ensures
            copy@ == self@,
    {
        match self {
            GitLock::Tag(name) => GitLock::Tag(name.clone()),
            GitLock::Branch(name) => GitLock::Branch(name.clone()),
            GitLock::Rev(commit) => GitLock::Rev(commit.clone()),
        }
    }
}

/// The text of an optional string.
pub open spec fn optional_text(text: Option<String>) -> Option<Seq<char>> {
    match text {
        Some(text) => Some(text@),
        None => None,
    }
}

/// The value of an optional git lock.
pub open spec fn optional_lock(lock: Option<GitLock>) -> Option<GitLockView> {
    match lock {
        Some(lock) => Some(lock@),
        None => None,
    }
}

impl ProjectSource {
    /// Whether two sources are the same.
    pub fn same(&self, other: &ProjectSource) -> (same: bool)
        ensures
            same == (self@ == other@),
    {
        match (self, other) {
            (ProjectSource::Git(a), ProjectSource::Git(b)) => *a == *b,
            (ProjectSource::TarBall(a), ProjectSource::TarBall(b)) => *a == *b,
            (ProjectSource::Path(a), ProjectSource::Path(b)) => *a == *b,
            _ => false,
        }
    }
}

impl GitLock {
    /// Whether two locks are the same.
    pub fn same(&self, other: &GitLock) -> (same: bool)
        ensures
            same == (self@ == other@),
    {
        match (self, other) {
            (GitLock::Tag(a), GitLock::Tag(b)) => *a == *b,
            (GitLock::Branch(a), GitLock::Branch(b)) => *a == *b,
            (GitLock::Rev(a), GitLock::Rev(b)) => *a == *b,
            _ => false,
        }
    }
}

/// Whether two optional locks are the same.
pub fn same_optional_lock(left: &Option<GitLock>, right: &Option<GitLock>) -> (same: bool)
    ensures
        same == (optional_lock(*left) == optional_lock(*right)),
{
    match (left, right) {
        (Some(a), Some(b)) => a.same(b),
        (None, None) => true,
        _ => false,
    }
}

/// Copies an optional lock.
pub fn clone_optional_lock(lock: &Option<GitLock>) -> (copy: Option<GitLock>)
    ensures
        optional_lock(copy) == optional_lock(*lock),
{
    match lock {
        Some(lock) => Some(lock.clone()),
        None => None,
    }
}

/// Copies an optional string.
pub fn clone_optional_text(text: &Option<String>) -> (copy: Option<String>)
    ensures
        optional_text(copy) == optional_text(*text),
{
    match text {
        Some(text) => Some(text.clone()),
        None => None,
    }
}

/// Dependency with source and version
#[derive(Debug)]
pub struct PackageDetails {
    /// The versions of the package that the dependent accepts.
    pub version: Requirement,
    /// Where the package comes from.
    pub mutual_exclusive: ProjectSource,
    /// What a git source is pinned to, if to anything.
    pub git_tag: Option<GitLock>,
    /// The revision that the last fetch of a git source checked out.
    pub git_rev: Option<String>,
}

/// The mathematical value of [`PackageDetails`].
pub struct DetailsView {
    pub version: Seq<char>,
    pub mutual_exclusive: SourceView,
    pub git_tag: Option<GitLockView>,
    pub git_rev: Option<Seq<char>>,
}

impl View for PackageDetails {
    type V = DetailsView;

    open spec fn view(&self) -> DetailsView {
        DetailsView {
            version: self.version@,
            mutual_exclusive: self.mutual_exclusive@,
            git_tag: optional_lock(self.git_tag),
            git_rev: optional_text(self.git_rev),
        }
    }
}

impl Clone for PackageDetails {
    fn clone(&self) -> (copy: Self)
        ensures
            copy@ == self@,
    {
        PackageDetails {
            version: self.version.clone(),
            mutual_exclusive: self.mutual_exclusive.clone(),
            git_tag: match &self.git_tag {
                Some(lock) => Some(lock.clone()),
                None => None,
            },
            git_rev: clone_optional_text(&self.git_rev),
        }
    }
}

/// A package that was fetched, with the packages that it depends on.
#[derive(Debug)]
pub struct DependencyTreeNode {
    /// Name of this Package
    pub name: String,
    /// version specified in the Lingo.toml
    pub version: Versioning,
    /// source of this package
    pub package: PackageDetails,
    /// location of where the packed has been cloned to
    pub location: String,
    /// relative path inside the package where the to include contents live
    pub include_path: String,
    /// hash of the package
    pub hash: String,
    /// required dependencies to build this package
    pub dependencies: Vec<DependencyTreeNode>,
    /// properties that the library of this package exports
    pub properties: LibraryTargetProperties,
}

/// The mathematical value of a [`DependencyTreeNode`] without its children.
pub struct NodeView {
    pub name: Seq<char>,
    pub version: Seq<char>,
    pub package: DetailsView,
    pub location: Seq<char>,
    pub include_path: Seq<char>,
    pub hash: Seq<char>,
    pub properties: LibraryPropertiesView,
}

impl View for DependencyTreeNode {
    type V = NodeView;

    open spec fn view(&self) -> NodeView {
        NodeView {
            name: self.name@,
            version: self.version@,
            package: self.package@,
            location: self.location@,
            include_path: self.include_path@,
            hash: self.hash@,
            properties: self.properties@,
        }
    }
}

/// The nodes of a list of trees, each followed by its descendants.
pub open spec fn aggregate_all(nodes: Seq<DependencyTreeNode>) -> Seq<NodeView>
    decreases nodes,
{
    if nodes.len() == 0 {
        Seq::empty()
    } else {
        aggregate_all(nodes.drop_last()) + nodes.last().aggregated()
    }
}

impl DependencyTreeNode {
    /// The node and its descendants in the order of `aggregate`: the node,
    /// then the subtree of each child in turn.
    pub open spec fn aggregated(self) -> Seq<NodeView>
        decreases self,
    {
        seq![self@] + aggregate_all(self.dependencies@)
    }

    /// A copy of the node alone: it has no children, and keeps everything
    /// else, the properties that the package exports among it.
    pub fn shallow_clone(&self) -> (copy: Self)
        ensures
            copy@ == self@,
            copy.dependencies@.len() == 0,
    {
        DependencyTreeNode {
            name: self.name.clone(),
            version: self.version.clone(),
            package: self.package.clone(),
            location: self.location.clone(),
            include_path: self.include_path.clone(),
            hash: self.hash.clone(),
            dependencies: Vec::new(),
            properties: self.properties.clone(),
        }
    }

    /// The node and all its descendants as a flat list of shallow copies.
    pub fn aggregate(&self) -> (nodes: Vec<DependencyTreeNode>)
        ensures
            node_views(nodes@) == self.aggregated(),
            forall|i: int| 0 <= i < nodes@.len() ==> (#[trigger] nodes@[i]).dependencies@.len() == 0,
        decreases self,
    {
        let mut aggregator: Vec<DependencyTreeNode> = Vec::new();
        aggregator.push(self.shallow_clone());
        assert(node_views(aggregator@) =~= seq![self@]);
        let mut i: usize = 0;
        while i < self.dependencies.len()
            invariant
                i <= self.dependencies@.len(),
                node_views(aggregator@) == seq![self@] + aggregate_all(
                    self.dependencies@.take(i as int),
                ),
                forall|k: int|
                    0 <= k < aggregator@.len() ==> (#[trigger] aggregator@[k]).dependencies@.len()
                        == 0,
            decreases self.dependencies@.len() - i,
        {
            let mut aggregation = self.dependencies[i].aggregate();
            let ghost before = aggregator@;
            let ghost added = aggregation@;
            aggregator.append(&mut aggregation);
            proof {
                let next = self.dependencies@.take(i + 1);
                assert(next.drop_last() =~= self.dependencies@.take(i as int));
                assert(next.last() == self.dependencies@[i as int]);
                assert(node_views(before + added) =~= node_views(before) + node_views(added));
            }
            i += 1;
        }
        assert(self.dependencies@.take(i as int) =~= self.dependencies@);
        aggregator
    }
}

/// The values of a list of nodes.
pub open spec fn node_views(nodes: Seq<DependencyTreeNode>) -> Seq<NodeView> {
    nodes.map_values(|node: DependencyTreeNode| node@)
}

} // verus!
