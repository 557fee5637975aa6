//! Pulling the packages that a project depends on and choosing one version
//! of each.

use vstd::prelude::*;

use crate::package::lock::{
    aggregated_code, all_cached, intact_cache, lock_map, locks_of, validated, DependencyLock,
    LockSourceView,
    PackageLockSource, PackageLockSourceType,
};
use crate::package::target_properties::LibraryTargetProperties;
use crate::package::tree::{
    aggregate_all, clone_optional_lock, clone_optional_text, node_views, optional_lock,
    optional_text, same_optional_lock, DependencyTreeNode, DetailsView, GitLock, GitLockView,
    NodeView, PackageDetails, ProjectSource, SourceView,
};
use crate::package::version::{requirement_admits, version_exceeds, Requirement};
use crate::package::{Config, PackageDirectory, LIBRARY_DIRECTORY};
use crate::util::errors::{BuildResult, LingoError};
use crate::util::path::{join, joined};
use crate::util::sha1dir::{
    all_supported, checksum_current_dir, checksum_of, entry_views, hex_of,
};
use crate::util::text::{concat, text_eq};
use crate::util::{Action, ActionView};
use crate::{GitCloneError, GitUrl};

verus! {

/// The error with which the `url` crate refuses a text.
#[verifier::external_type_specification]
#[verifier::external_body]
pub struct ExUrlParseError(url::ParseError);

/// The text of the url that `url::Url::parse` reads from a text, or `None`
/// where it refuses the text.
pub uninterp spec fn parsed_url(text: Seq<char>) -> Option<Seq<char>>;

/// Calls `url::Url::parse` and hands back the url as the text that it
/// serialises to.
#[verifier::external_body]
fn parse_url(text: &str) -> (result: Result<String, url::ParseError>)
    ensures
        match result {
            Ok(url) => parsed_url(text@) == Some(url@),
            Err(_) => parsed_url(text@) is None,
        },
{
    url::Url::parse(text).map(String::from)
}

/// The revision of a lock entry as the lock of a source.
pub open spec fn revision_lock(rev: Option<Seq<char>>) -> Option<GitLockView> {
    match rev {
        Some(rev) => Some(GitLockView::Rev(rev)),
        None => None,
    }
}

/// The dependency that fetches what a lock entry records: any version, of
/// the recorded source, at the recorded revision. A registry source stands
/// for no dependency, and neither does a url that is none.
pub open spec fn details_of(source: LockSourceView) -> Option<DetailsView> {
    let mutual_exclusive = match source.source_type {
        PackageLockSourceType::REGISTRY => None,
        PackageLockSourceType::GIT => match parsed_url(source.uri) {
            Some(url) => Some(SourceView::Git(url)),
            None => None,
        },
        PackageLockSourceType::TARBALL => match parsed_url(source.uri) {
            Some(url) => Some(SourceView::TarBall(url)),
            None => None,
        },
        PackageLockSourceType::PATH => Some(SourceView::Path(source.uri)),
    };
    match mutual_exclusive {
        Some(mutual_exclusive) => Some(
            DetailsView {
                version: seq!['*'],
                mutual_exclusive,
                git_tag: revision_lock(source.rev),
                git_rev: source.rev,
            },
        ),
        None => None,
    }
}

/// Whether `error` is the error with which a lock entry that stands for no
/// dependency is refused: `UnsupportedSource` for a registry source and
/// `InvalidUrl` for a uri that is no url.
pub open spec fn source_refusal(source: LockSourceView, error: LingoError) -> bool {
    if source.source_type == PackageLockSourceType::REGISTRY {
        error matches LingoError::UnsupportedSource(uri) && uri@ == source.uri
    } else {
        error matches LingoError::InvalidUrl(uri) && uri@ == source.uri
    }
}

impl PackageDetails {
    /// The dependency that fetches what a lock entry records.
    ///
    /// Fails with `UnsupportedSource` for a registry source and with
    /// `InvalidUrl` for a git or tarball source whose uri is no url.
    pub fn try_from(value: &PackageLockSource) -> (result: Result<PackageDetails, LingoError>)
        ensures
            match result {
                Ok(details) => details_of(value@) == Some(details@),
                Err(error) => details_of(value@) is None && source_refusal(value@, error),
            },
    {
        let mutual_exclusive = match value.source_type {
            PackageLockSourceType::REGISTRY => {
                return Err(LingoError::UnsupportedSource(value.uri.clone()));
            },
            PackageLockSourceType::GIT => match parse_url(value.uri.as_str()) {
                Ok(url) => ProjectSource::Git(url),
                Err(_) => {
                    return Err(LingoError::InvalidUrl(value.uri.clone()));
                },
            },
            PackageLockSourceType::TARBALL => match parse_url(value.uri.as_str()) {
                Ok(url) => ProjectSource::TarBall(url),
                Err(_) => {
                    return Err(LingoError::InvalidUrl(value.uri.clone()));
                },
            },
            PackageLockSourceType::PATH => ProjectSource::Path(value.uri.clone()),
        };
        Ok(
            PackageDetails {
                version: Requirement::wildcard(),
                mutual_exclusive,
                git_tag: match &value.rev {
                    Some(rev) => Some(GitLock::Rev(rev.clone())),
                    None => None,
                },
                git_rev: clone_optional_text(&value.rev),
            },
        )
    }
}

impl DetailsView {
    /// Whether `after` and `result` are what fetching this dependency into
    /// `library_path` leaves.
    ///
    /// A path is copied by `run`, a git repository is cloned and checked out
    /// by `clone`, and for a tarball nothing is done. Only a clone changes
    /// the dependency: it records the revision that was checked out.
    pub open spec fn fetched<C, R>(
        self,
        library_path: Seq<char>,
        clone: C,
        run: R,
        after: DetailsView,
        result: Result<(), LingoError>,
    ) -> bool where
        C: Fn(GitUrl, &str, Option<GitLock>) -> Result<Option<String>, GitCloneError>,
        R: Fn(&Action) -> BuildResult,
     {
        match self.mutual_exclusive {
            SourceView::Path(path) => after == self && exists|action: Action|
                #[trigger] action@ == (ActionView::CopyDirAll { from: path, to: library_path })
                    && call_ensures(run, (&action,), result),
            SourceView::Git(url) => exists|
                git_url: GitUrl,
                target: &str,
                lock: Option<GitLock>,
                outcome: Result<Option<String>, GitCloneError>,
            |
                git_url@ == url && target@ == library_path && optional_lock(lock) == self.git_tag
                    && #[trigger] call_ensures(clone, (git_url, target, lock), outcome)
                    && match outcome {
                    Ok(rev) => result is Ok && after == (DetailsView {
                        git_rev: optional_text(rev),
                        ..self
                    }),
                    Err(error) => after == self && (result matches Err(
                        LingoError::FetchFailed(reason),
                    ) && reason@ == error.0@),
                },
            SourceView::TarBall(_) => after == self && result is Ok,
        }
    }
}

impl PackageDetails {
    /// this function fetches the specified location and places it at the given location
    pub fn fetch<C, R>(&mut self, library_path: &str, clone: &C, run: &R) -> (result: Result<
        (),
        LingoError,
    >) where
        C: Fn(GitUrl, &str, Option<GitLock>) -> Result<Option<String>, GitCloneError>,
        R: Fn(&Action) -> BuildResult,

        requires
            forall|url: GitUrl, target: &str, lock: Option<GitLock>|
                call_requires(*clone, (url, target, lock)),
            forall|action: &Action| call_requires(*run, (action,)),
        ensures
            old(self)@.fetched(library_path@, *clone, *run, final(self)@, result),
    {
        match &self.mutual_exclusive {
            ProjectSource::Path(path_buf) => {
                let action = Action::CopyDirAll {
                    from: path_buf.clone(),
                    to: library_path.to_owned(),
                };
                let result = run(&action);
                assert(action@ == (ActionView::CopyDirAll { from: path_buf@, to: library_path@ }));
                result
            },
            ProjectSource::Git(git_url) => {
                let lock = clone_optional_lock(&self.git_tag);
                let url = GitUrl::from(git_url.as_str());
                let outcome = clone(url, library_path, lock);
                assert(call_ensures(*clone, (url, library_path, lock), outcome));
                match outcome {
                    Ok(rev) => {
                        self.git_rev = rev;
                        Ok(())
                    },
                    Err(error) => Err(LingoError::FetchFailed(error.0)),
                }
            },
            _ => Ok(()),
        }
    }
}

/// Whether `version` satisfies every requirement that some node places on the
/// package `name`.
pub open spec fn satisfies_all(nodes: Seq<NodeView>, name: Seq<char>, version: Seq<char>) -> bool {
    forall|j: int|
        0 <= j < nodes.len() && (#[trigger] nodes[j]).name == name ==> requirement_admits(
            nodes[j].package.version,
            version,
        )
}

/// Whether the node at `i` is a candidate whose version satisfies every
/// requirement on its package.
pub open spec fn viable(nodes: Seq<NodeView>, i: int) -> bool {
    0 <= i < nodes.len() && satisfies_all(nodes, nodes[i].name, nodes[i].version)
}

/// Whether the node at `i` is viable and no viable candidate of the same
/// package has a greater version.
#[verifier::opaque]
pub open spec fn newest(nodes: Seq<NodeView>, i: int) -> bool {
    viable(nodes, i) && forall|j: int|
        #![trigger nodes[j]]
        viable(nodes, j) && nodes[j].name == nodes[i].name ==> !version_exceeds(
            nodes[j].version,
            nodes[i].version,
        )
}

/// Whether the node at `i` is the one that is selected for its package: of
/// several newest candidates, which offer equal versions from different
/// sources, the one that was aggregated last wins.
#[verifier::opaque]
pub open spec fn selected(nodes: Seq<NodeView>, i: int) -> bool {
    newest(nodes, i) && forall|j: int|
        #![trigger nodes[j]]
        i < j && newest(nodes, j) ==> nodes[j].name != nodes[i].name
}

/// Whether some candidate is selected for the package `name`.
pub open spec fn resolvable(nodes: Seq<NodeView>, name: Seq<char>) -> bool {
    exists|i: int| #[trigger] selected(nodes, i) && nodes[i].name == name
}

/// Whether `node` is the candidate that is selected for the package `name`.
pub open spec fn chosen_for(nodes: Seq<NodeView>, name: Seq<char>, node: NodeView) -> bool {
    exists|i: int| #[trigger] selected(nodes, i) && nodes[i].name == name && nodes[i] == node
}

/// Whether the node at `i` is the first one of its package.
pub open spec fn first_of_name(nodes: Seq<NodeView>, i: int) -> bool {
    0 <= i < nodes.len() && forall|j: int| 0 <= j < i ==> (#[trigger] nodes[j]).name != nodes[i].name
}

/// The positions below `n` at which a package occurs for the first time.
pub open spec fn first_occurrences(nodes: Seq<NodeView>, n: int) -> Seq<int>
    decreases n,
{
    if n <= 0 {
        Seq::empty()
    } else if first_of_name(nodes, n - 1) {
        first_occurrences(nodes, n - 1).push(n - 1)
    } else {
        first_occurrences(nodes, n - 1)
    }
}

/// Whether `selection` is what `flatten` selects from the first `n` nodes:
/// for each package, in the order in which the packages first occur, the
/// selected candidate.
pub open spec fn is_selection_upto(nodes: Seq<NodeView>, selection: Seq<NodeView>, n: int) -> bool {
    let firsts = first_occurrences(nodes, n);
    &&& selection.len() == firsts.len()
    &&& forall|k: int|
        0 <= k < selection.len() ==> chosen_for(
            nodes,
            nodes[firsts[k]].name,
            #[trigger] selection[k],
        )
}

/// Whether `selection` is what `flatten` selects from `nodes`.
pub open spec fn is_selection(nodes: Seq<NodeView>, selection: Seq<NodeView>) -> bool {
    is_selection_upto(nodes, selection, nodes.len() as int)
}

/// Whether `error` reports that the package of the node at `i` is the first
/// for which nothing can be selected.
pub open spec fn is_first_failure(nodes: Seq<NodeView>, i: int, error: LingoError) -> bool {
    &&& first_of_name(nodes, i)
    &&& !resolvable(nodes, nodes[i].name)
    &&& forall|j: int| 0 <= j < i ==> resolvable(nodes, (#[trigger] nodes[j]).name)
    &&& error matches LingoError::NoViableVersion(name) && name@ == nodes[i].name
}

/// Whether `selection` holds exactly one node for every package of `nodes`:
/// each selected node is one of the nodes, no two are of the same package,
/// and no package is left out.
pub open spec fn one_per_name(nodes: Seq<NodeView>, selection: Seq<NodeView>) -> bool {
    &&& forall|k: int| 0 <= k < selection.len() ==> nodes.contains(#[trigger] selection[k])
    &&& forall|k: int, l: int|
        0 <= k < l < selection.len() ==> (#[trigger] selection[k]).name != (#[trigger] selection[l]).name
    &&& forall|i: int|
        0 <= i < nodes.len() ==> exists|k: int|
            0 <= k < selection.len() && (#[trigger] selection[k]).name == (#[trigger] nodes[i]).name
}

/// Whether the version of every selected node satisfies each requirement
/// that any node places on its package.
pub open spec fn requirements_hold(nodes: Seq<NodeView>, selection: Seq<NodeView>) -> bool {
    forall|k: int, j: int|
        0 <= k < selection.len() && 0 <= j < nodes.len() && (#[trigger] nodes[j]).name
            == (#[trigger] selection[k]).name ==> requirement_admits(
            nodes[j].package.version,
            selection[k].version,
        )
}

/// Whether no candidate of the package of the node at `i` is viable: the
/// requirements on the package admit none of the versions on offer.
pub open spec fn unsatisfiable(nodes: Seq<NodeView>, i: int) -> bool {
    0 <= i < nodes.len() && forall|j: int|
        0 <= j < nodes.len() && (#[trigger] nodes[j]).name == nodes[i].name ==> !viable(nodes, j)
}

/// Whether the order of versions is a strict order on the viable candidates
/// of the package `name`: none of their versions exceeds itself, and one
/// that exceeds a second that exceeds a third exceeds the third.
pub open spec fn orderly(nodes: Seq<NodeView>, name: Seq<char>) -> bool {
    &&& forall|i: int|
        viable(nodes, i) && (#[trigger] nodes[i]).name == name ==> !version_exceeds(
            nodes[i].version,
            nodes[i].version,
        )
    &&& forall|i: int, j: int, k: int|
        viable(nodes, i) && viable(nodes, j) && viable(nodes, k) && nodes[i].name == name
            && nodes[j].name == name && nodes[k].name == name && #[trigger] version_exceeds(
            nodes[i].version,
            nodes[j].version,
        ) && #[trigger] version_exceeds(nodes[j].version, nodes[k].version) ==> version_exceeds(
            nodes[i].version,
            nodes[k].version,
        )
}

/// Whether the node at `m` is a viable candidate of the package `name` that
/// no viable candidate of that package among the first `n` nodes exceeds.
pub open spec fn tops(nodes: Seq<NodeView>, name: Seq<char>, n: int, m: int) -> bool {
    &&& 0 <= m < n
    &&& viable(nodes, m)
    &&& nodes[m].name == name
    &&& forall|j: int|
        0 <= j < n && viable(nodes, j) && (#[trigger] nodes[j]).name == name ==> !version_exceeds(
            nodes[j].version,
            nodes[m].version,
        )
}

/// Which of the nodes are viable.
fn viable_flags(nodes: &Vec<DependencyTreeNode>) -> (flags: Vec<bool>)
    ensures
        flags@.len() == nodes@.len(),
        forall|i: int| 0 <= i < flags@.len() ==> #[trigger] flags@[i] == viable(node_views(nodes@), i),
{
    let ghost views = node_views(nodes@);
    let mut flags: Vec<bool> = Vec::new();
    let mut i: usize = 0;
    while i < nodes.len()
        invariant
            i <= nodes@.len(),
            views == node_views(nodes@),
            flags@.len() == i,
            forall|k: int| 0 <= k < i ==> #[trigger] flags@[k] == viable(views, k),
        decreases nodes@.len() - i,
    {
        let mut admitted = true;
        let mut j: usize = 0;
        while j < nodes.len()
            invariant
                i < nodes@.len(),
                j <= nodes@.len(),
                views == node_views(nodes@),
                admitted <==> forall|k: int|
                    0 <= k < j && (#[trigger] views[k]).name == views[i as int].name
                        ==> requirement_admits(views[k].package.version, views[i as int].version),
            decreases nodes@.len() - j,
        {
            if nodes[j].name == nodes[i].name && !nodes[j].package.version.matches(
                &nodes[i].version,
            ) {
                assert(!requirement_admits(
                    views[j as int].package.version,
                    views[i as int].version,
                ));
                admitted = false;
            }
            j += 1;
        }
        flags.push(admitted);
        i += 1;
    }
    flags
}

/// Whether the viable node at `candidate` is newest.
fn is_newest(nodes: &Vec<DependencyTreeNode>, flags: &Vec<bool>, candidate: usize) -> (result: bool)
    requires
        candidate < nodes@.len(),
        flags@.len() == nodes@.len(),
        forall|i: int| 0 <= i < flags@.len() ==> #[trigger] flags@[i] == viable(node_views(nodes@), i),
        flags@[candidate as int],
    ensures
        result == newest(node_views(nodes@), candidate as int),
{
    let ghost views = node_views(nodes@);
    let mut j: usize = 0;
    while j < nodes.len()
        invariant
            candidate < nodes@.len(),
            j <= nodes@.len(),
            views == node_views(nodes@),
            flags@.len() == nodes@.len(),
            forall|i: int| 0 <= i < flags@.len() ==> #[trigger] flags@[i] == viable(views, i),
            forall|k: int|
                #![trigger views[k]]
                0 <= k < j && viable(views, k) && views[k].name == views[candidate as int].name
                    ==> !version_exceeds(views[k].version, views[candidate as int].version),
        decreases nodes@.len() - j,
    {
        if flags[j] && nodes[j].name == nodes[candidate].name && nodes[j].version.exceeds(
            &nodes[candidate].version,
        ) {
            proof {
                reveal(newest);
                assert(viable(views, j as int));
            }
            return false;
        }
        j += 1;
    }
    proof {
        reveal(newest);
    }
    true
}

/// The position of the candidate that is selected for the package of the
/// node at `i`, if any is.
fn select(nodes: &Vec<DependencyTreeNode>, flags: &Vec<bool>, i: usize) -> (choice: Option<usize>)
    requires
        i < nodes@.len(),
        flags@.len() == nodes@.len(),
        forall|k: int| 0 <= k < flags@.len() ==> #[trigger] flags@[k] == viable(node_views(nodes@), k),
    ensures
        match choice {
            Some(s) => s < nodes@.len() && selected(node_views(nodes@), s as int) && node_views(
                nodes@,
            )[s as int].name == node_views(nodes@)[i as int].name,
            None => !resolvable(node_views(nodes@), node_views(nodes@)[i as int].name),
        },
{
    let ghost views = node_views(nodes@);
    let mut choice: Option<usize> = None;
    let mut c: usize = 0;
    while c < nodes.len()
        invariant
            i < nodes@.len(),
            c <= nodes@.len(),
            views == node_views(nodes@),
            flags@.len() == nodes@.len(),
            forall|k: int| 0 <= k < flags@.len() ==> #[trigger] flags@[k] == viable(views, k),
            match choice {
                Some(s) => s < c && newest(views, s as int) && views[s as int].name
                    == views[i as int].name && forall|k: int|
                    #![trigger views[k]]
                    s < k < c && newest(views, k) ==> views[k].name != views[i as int].name,
                None => forall|k: int|
                    #![trigger views[k]]
                    0 <= k < c && newest(views, k) ==> views[k].name != views[i as int].name,
            },
        decreases nodes@.len() - c,
    {
        proof {
            reveal(newest);
        }
        if flags[c] && nodes[c].name == nodes[i].name && is_newest(nodes, flags, c) {
            choice = Some(c);
        }
        c += 1;
    }
    proof {
        reveal(selected);
        reveal(newest);
        match choice {
            Some(s) => {
                assert(selected(views, s as int));
            },
            None => {
                assert(!resolvable(views, views[i as int].name)) by {
                    if resolvable(views, views[i as int].name) {
                        let w = choose|w: int|
                            #[trigger] selected(views, w) && views[w].name == views[i as int].name;
                        assert(newest(views, w));
                        assert(views[w].name == views[i as int].name);
                    }
                }
            },
        }
    }
    choice
}

/// Whether the package of the node at `i` occurs before `i`.
fn occurs_before(nodes: &Vec<DependencyTreeNode>, i: usize) -> (seen: bool)
    requires
        i < nodes@.len(),
    ensures
        seen == !first_of_name(node_views(nodes@), i as int),
{
    let ghost views = node_views(nodes@);
    let mut j: usize = 0;
    while j < i
        invariant
            i < nodes@.len(),
            j <= i,
            views == node_views(nodes@),
            forall|k: int| 0 <= k < j ==> (#[trigger] views[k]).name != views[i as int].name,
        decreases i - j,
    {
        if nodes[j].name == nodes[i].name {
            assert(views[j as int].name == views[i as int].name);
            return true;
        }
        j += 1;
    }
    false
}

/// The names and values of a list of dependencies.
pub open spec fn request_views(requests: Seq<(String, PackageDetails)>) -> Seq<(Seq<char>, DetailsView)> {
    requests.map_values(|request: (String, PackageDetails)| (request.0@, request.1@))
}

/// Whether two dependencies ask for the same: the same versions of the same
/// source at the same tag, branch or revision.
pub open spec fn same_request(left: DetailsView, right: DetailsView) -> bool {
    &&& left.version == right.version
    &&& left.mutual_exclusive == right.mutual_exclusive
    &&& left.git_tag == right.git_tag
}

/// Whether some node answers the dependency on the package `name`.
pub open spec fn covers(nodes: Seq<NodeView>, name: Seq<char>, request: DetailsView) -> bool {
    exists|k: int|
        0 <= k < nodes.len() && (#[trigger] nodes[k]).name == name && same_request(
            nodes[k].package,
            request,
        )
}

/// Whether the dependency on the package `name` waits in the queue.
pub open spec fn queued(queue: Seq<(Seq<char>, DetailsView)>, name: Seq<char>, request: DetailsView) -> bool {
    exists|q: int|
        0 <= q < queue.len() && (#[trigger] queue[q]).0 == name && same_request(queue[q].1, request)
}

/// Whether the dependency on the package `name` was answered by a node or
/// waits in the queue.
pub open spec fn owed(
    nodes: Seq<NodeView>,
    queue: Seq<(Seq<char>, DetailsView)>,
    name: Seq<char>,
    request: DetailsView,
) -> bool {
    covers(nodes, name, request) || queued(queue, name, request)
}

/// The text of the error for a package whose version its requirement
/// rejects.
pub open spec fn mismatch_message(requirement: Seq<char>, version: Seq<char>) -> Seq<char> {
    "requested version "@ + requirement + " got version "@ + version
}

/// The node of a package that was requested as `package` and found in
/// `directory`. It is stored below `base_path` under the checksum of its
/// content.
pub open spec fn node_of(
    name: Seq<char>,
    package: DetailsView,
    base_path: Seq<char>,
    directory: PackageDirectory,
) -> NodeView {
    let hash = hex_of(checksum_of(entry_views(directory.entries@)));
    NodeView {
        name,
        version: directory.config.package.version@,
        package,
        location: joined(base_path, hash),
        include_path: directory.config.library.unwrap().location@,
        hash,
        properties: directory.config.library.unwrap().properties@,
    }
}

/// Whether a package that was requested as `package` and found in
/// `directory` is accepted: every entry of the directory can be hashed, the
/// manifest exports a library, and the version of the package satisfies the
/// requirement.
pub open spec fn acceptable(package: DetailsView, directory: PackageDirectory) -> bool {
    &&& all_supported(entry_views(directory.entries@))
    &&& directory.config.library is Some
    &&& requirement_admits(package.version, directory.config.package.version@)
}

/// Whether `error` is the error with which a package that is not
/// acceptable is refused: `UnsupportedFileType` where its directory holds
/// an entry that cannot be hashed, else `NoLibraryInLingoToml` where its
/// manifest exports no library, else `LingoVersionMismatch`.
pub open spec fn refusal(
    package: DetailsView,
    base_path: Seq<char>,
    directory: PackageDirectory,
    error: LingoError,
) -> bool {
    if !all_supported(entry_views(directory.entries@)) {
        error is UnsupportedFileType
    } else if directory.config.library is None {
        error matches LingoError::NoLibraryInLingoToml(path) && path@ == base_path
    } else {
        error matches LingoError::LingoVersionMismatch(message) && message@ == mismatch_message(
            package.version,
            directory.config.package.version@,
        )
    }
}

/// Whether `error` is the failure of one of the two actions with `run`.
pub open spec fn action_failed<R>(run: R, first: ActionView, second: ActionView, error: LingoError) -> bool where
    R: Fn(&Action) -> BuildResult,
 {
    exists|action: Action|
        (action@ == first || action@ == second) && #[trigger] call_ensures(
            run,
            (&action,),
            Err::<(), LingoError>(error),
        )
}

/// Whether `error` is a failure that fetching the package `package` into
/// the directory `temporary` below `base_path` can end with: the failure
/// of an action that makes a directory, of the fetch, of the load, or of
/// the copy to the store, or the refusal of the package that was loaded.
pub open spec fn fetch_refused<C, R, L>(
    package: DetailsView,
    base_path: Seq<char>,
    clone: C,
    run: R,
    load: L,
    error: LingoError,
) -> bool where
    C: Fn(GitUrl, &str, Option<GitLock>) -> Result<Option<String>, GitCloneError>,
    R: Fn(&Action) -> BuildResult,
    L: Fn(&str) -> Result<PackageDirectory, LingoError>,
 {
    let temporary = joined(base_path, "temporary"@);
    ||| action_failed(
        run,
        ActionView::CreateDirAll(base_path),
        ActionView::CreateDirAll(temporary),
        error,
    )
    ||| exists|after: DetailsView| #[trigger]
        package.fetched(temporary, clone, run, after, Err::<(), LingoError>(error))
    ||| exists|directory: &str|
        directory@ == temporary && #[trigger] call_ensures(
            load,
            (directory,),
            Err::<PackageDirectory, LingoError>(error),
        )
    ||| exists|after: DetailsView, temporary_path: &str, loaded: PackageDirectory|
        {
            &&& #[trigger] package.fetched(temporary, clone, run, after, Ok::<(), LingoError>(()))
            &&& temporary_path@ == temporary
            &&& #[trigger] call_ensures(
                load,
                (temporary_path,),
                Ok::<PackageDirectory, LingoError>(loaded),
            )
            &&& if acceptable(after, loaded) {
                let location = joined(
                    base_path,
                    hex_of(checksum_of(entry_views(loaded.entries@))),
                );
                action_failed(
                    run,
                    ActionView::CreateDirAll(location),
                    ActionView::CopyDirAll { from: temporary, to: location },
                    error,
                )
            } else {
                refusal(after, base_path, loaded, error)
            }
        }
}

/// Whether the node at `k` is settled: it is the node of an acceptable
/// package directory that `load` can return, and every dependency that the
/// manifest of that package declares was answered by a node or waits in the
/// queue.
pub open spec fn settled<L>(
    nodes: Seq<NodeView>,
    queue: Seq<(Seq<char>, DetailsView)>,
    k: int,
    base_path: Seq<char>,
    load: L,
) -> bool where L: Fn(&str) -> Result<PackageDirectory, LingoError> {
    exists|temporary: &str, directory: PackageDirectory|
        temporary@ == joined(base_path, "temporary"@) && #[trigger] call_ensures(
            load,
            (temporary,),
            Ok::<PackageDirectory, LingoError>(directory),
        ) && acceptable(nodes[k].package, directory) && nodes[k] == node_of(
            nodes[k].name,
            nodes[k].package,
            base_path,
            directory,
        ) && forall|d: int|
            0 <= d < directory.config.dependencies@.len() ==> owed(
                nodes,
                queue,
                (#[trigger] directory.config.dependencies@[d]).0@,
                directory.config.dependencies@[d].1@,
            )
}

/// Whether `node` is the node of an acceptable package directory that `load`
/// can return for the directory `temporary` below `base_path`, and the
/// dependencies that the manifest of that package declares make the queue
/// `after` out of the queue `before`.
pub open spec fn arrived<L>(
    node: NodeView,
    base_path: Seq<char>,
    load: L,
    before: Seq<(Seq<char>, DetailsView)>,
    after: Seq<(Seq<char>, DetailsView)>,
) -> bool where L: Fn(&str) -> Result<PackageDirectory, LingoError> {
    exists|temporary: &str, directory: PackageDirectory|
        temporary@ == joined(base_path, "temporary"@) && #[trigger] call_ensures(
            load,
            (temporary,),
            Ok::<PackageDirectory, LingoError>(directory),
        ) && acceptable(node.package, directory) && node == node_of(
            node.name,
            node.package,
            base_path,
            directory,
        ) && after == before + request_views(directory.config.dependencies@)
}

/// Whether a node is of the package `name` and came from the source of
/// `request`, pinned in the same way: the two are one package of one
/// origin, whatever versions the request asks for.
pub open spec fn same_origin(node: NodeView, name: Seq<char>, request: DetailsView) -> bool {
    &&& node.name == name
    &&& node.package.mutual_exclusive == request.mutual_exclusive
    &&& node.package.git_tag == request.git_tag
}

/// The node that answers a further dependency on the package of `found`:
/// the package as it was found, with the requirement of `request` and the
/// revision at which it was found.
pub open spec fn repeat_of(found: NodeView, request: DetailsView) -> NodeView {
    NodeView {
        package: DetailsView { git_rev: found.package.git_rev, ..request },
        ..found
    }
}

/// Whether no node before the node at `l` is of its origin.
pub open spec fn first_of_origin(nodes: Seq<NodeView>, l: int) -> bool {
    forall|k: int|
        0 <= k < l ==> !same_origin(#[trigger] nodes[k], nodes[l].name, nodes[l].package)
}

/// Whether every origin was fetched once: a node that is not the first of
/// its origin repeats the nodes of that origin before it, and differs from
/// them in its requirement alone.
pub open spec fn fetched_once(nodes: Seq<NodeView>) -> bool {
    forall|k: int, l: int|
        0 <= k < l < nodes.len() && same_origin(
            #[trigger] nodes[k],
            (#[trigger] nodes[l]).name,
            nodes[l].package,
        ) ==> nodes[l] == repeat_of(nodes[k], nodes[l].package)
}

/// The number of origins among the first `n` nodes.
pub open spec fn origins(nodes: Seq<NodeView>, n: int) -> int
    decreases n,
{
    if n <= 0 {
        0
    } else {
        origins(nodes, n - 1) + if first_of_origin(nodes, n - 1) {
            1int
        } else {
            0int
        }
    }
}

/// Whether the manifest of `node`, as `load` returned it, declares the
/// dependency on the package `name`.
pub open spec fn declares<L>(
    node: NodeView,
    base_path: Seq<char>,
    load: L,
    name: Seq<char>,
    request: DetailsView,
) -> bool where L: Fn(&str) -> Result<PackageDirectory, LingoError> {
    exists|temporary: &str, directory: PackageDirectory, d: int|
        temporary@ == joined(base_path, "temporary"@) && #[trigger] call_ensures(
            load,
            (temporary,),
            Ok::<PackageDirectory, LingoError>(directory),
        ) && acceptable(node.package, directory) && node == node_of(
            node.name,
            node.package,
            base_path,
            directory,
        ) && 0 <= d < directory.config.dependencies@.len() && (#[trigger] request_views(
            directory.config.dependencies@,
        )[d]) == (name, request)
}

/// Whether the dependency on the package `name` was asked for: the project
/// declares it, or the manifest of one of the nodes does.
pub open spec fn asked<L>(
    nodes: Seq<NodeView>,
    roots: Seq<(Seq<char>, DetailsView)>,
    base_path: Seq<char>,
    load: L,
    name: Seq<char>,
    request: DetailsView,
) -> bool where L: Fn(&str) -> Result<PackageDirectory, LingoError> {
    ||| exists|r: int| 0 <= r < roots.len() && (#[trigger] roots[r]) == (name, request)
    ||| exists|k: int|
        0 <= k < nodes.len() && declares(#[trigger] nodes[k], base_path, load, name, request)
}

/// What holds while packages are pulled: every dependency of the project
/// was answered by a node or waits in the queue, every node is settled,
/// every origin was fetched once, and whatever waits in the queue was asked
/// for.
#[verifier::opaque]
pub open spec fn pulling<L>(
    nodes: Seq<NodeView>,
    queue: Seq<(Seq<char>, DetailsView)>,
    roots: Seq<(Seq<char>, DetailsView)>,
    base_path: Seq<char>,
    load: L,
) -> bool where L: Fn(&str) -> Result<PackageDirectory, LingoError> {
    &&& forall|r: int| 0 <= r < roots.len() ==> owed(nodes, queue, (#[trigger] roots[r]).0, roots[r].1)
    &&& forall|k: int| 0 <= k < nodes.len() ==> #[trigger] settled(nodes, queue, k, base_path, load)
    &&& fetched_once(nodes)
    &&& forall|q: int|
        0 <= q < queue.len() ==> asked(
            nodes,
            roots,
            base_path,
            load,
            (#[trigger] queue[q]).0,
            queue[q].1,
        )
}

/// Whether `nodes` are what a pull of the dependencies `roots` leaves: every
/// dependency is answered by a node, every node is settled with nothing
/// waiting, every origin was fetched once, and no node has children.
pub open spec fn pulled<L>(
    roots: Seq<(Seq<char>, DetailsView)>,
    nodes: Seq<DependencyTreeNode>,
    base_path: Seq<char>,
    load: L,
) -> bool where L: Fn(&str) -> Result<PackageDirectory, LingoError> {
    &&& forall|r: int|
        0 <= r < roots.len() ==> covers(node_views(nodes), (#[trigger] roots[r]).0, roots[r].1)
    &&& forall|k: int|
        0 <= k < nodes.len() ==> #[trigger] settled(
            node_views(nodes),
            Seq::empty(),
            k,
            base_path,
            load,
        )
    &&& fetched_once(node_views(nodes))
    &&& forall|k: int| 0 <= k < nodes.len() ==> (#[trigger] nodes[k]).dependencies@.len() == 0
}

/// Whether `error` is the failure of a round of the pull that answers the
/// dependency on the package `name` with the nodes `nodes` at hand. Where a
/// node of the same origin is among them, the version of the first such
/// node does not satisfy the requirement, and the error says so. Where none
/// is, the package could not be fetched or was refused.
pub open spec fn round_failed<C, R, L>(
    nodes: Seq<NodeView>,
    name: Seq<char>,
    request: DetailsView,
    base_path: Seq<char>,
    clone: C,
    run: R,
    load: L,
    error: LingoError,
) -> bool where
    C: Fn(GitUrl, &str, Option<GitLock>) -> Result<Option<String>, GitCloneError>,
    R: Fn(&Action) -> BuildResult,
    L: Fn(&str) -> Result<PackageDirectory, LingoError>,
 {
    ||| exists|j: int|
        {
            &&& 0 <= j < nodes.len()
            &&& same_origin(#[trigger] nodes[j], name, request)
            &&& forall|k: int| 0 <= k < j ==> !same_origin(#[trigger] nodes[k], name, request)
            &&& !requirement_admits(request.version, nodes[j].version)
            &&& error matches LingoError::LingoVersionMismatch(message) && message@
                == mismatch_message(request.version, nodes[j].version)
        }
    ||| {
        &&& forall|k: int| 0 <= k < nodes.len() ==> !same_origin(#[trigger] nodes[k], name, request)
        &&& fetch_refused(request, base_path, clone, run, load, error)
    }
}

/// Whether `error` is a failure that a pull of the dependencies `roots`
/// below `root_path` can end with. Either the directory of libraries
/// cannot be made. Or the pull has come to nodes and a queue of which all
/// holds that holds while packages are pulled, and the round for the
/// dependency at the end of that queue fails: a dependency that was asked
/// for meets a package that cannot be fetched or is refused, or a package
/// that was fetched before and does not satisfy its requirement.
pub open spec fn pull_failed<C, R, L>(
    roots: Seq<(Seq<char>, DetailsView)>,
    root_path: Seq<char>,
    clone: C,
    run: R,
    load: L,
    error: LingoError,
) -> bool where
    C: Fn(GitUrl, &str, Option<GitLock>) -> Result<Option<String>, GitCloneError>,
    R: Fn(&Action) -> BuildResult,
    L: Fn(&str) -> Result<PackageDirectory, LingoError>,
 {
    let base_path = joined(root_path, LIBRARY_DIRECTORY@);
    ||| action_failed(
        run,
        ActionView::CreateDirAll(base_path),
        ActionView::CreateDirAll(base_path),
        error,
    )
    ||| exists|nodes: Seq<NodeView>, queue: Seq<(Seq<char>, DetailsView)>|
        {
            &&& #[trigger] pulling(nodes, queue, roots, base_path, load)
            &&& queue.len() > 0
            &&& round_failed(
                nodes,
                queue.last().0,
                queue.last().1,
                base_path,
                clone,
                run,
                load,
                error,
            )
        }
}

/// Whether the requirement `requirement` can come up in a pull of the
/// dependencies `roots`: one of them has it, or a dependency in a manifest
/// that `load` can return.
pub open spec fn wanted<L>(
    roots: Seq<(Seq<char>, DetailsView)>,
    load: L,
    requirement: Seq<char>,
) -> bool where L: Fn(&str) -> Result<PackageDirectory, LingoError> {
    ||| exists|r: int| 0 <= r < roots.len() && (#[trigger] roots[r]).1.version == requirement
    ||| exists|temporary: &str, directory: PackageDirectory, d: int|
        #[trigger] call_ensures(load, (temporary,), Ok::<PackageDirectory, LingoError>(directory))
            && 0 <= d < directory.config.dependencies@.len() && (#[trigger] request_views(
            directory.config.dependencies@,
        )[d]).1.version == requirement
}

/// Whether nothing can go wrong in a pull of the dependencies `roots`: no
/// action and no clone fails, whatever is loaded is a package that can be
/// hashed and exports a library, and the version of whatever is loaded
/// satisfies every requirement that can come up.
pub open spec fn dependable<C, R, L>(
    roots: Seq<(Seq<char>, DetailsView)>,
    clone: C,
    run: R,
    load: L,
) -> bool where
    C: Fn(GitUrl, &str, Option<GitLock>) -> Result<Option<String>, GitCloneError>,
    R: Fn(&Action) -> BuildResult,
    L: Fn(&str) -> Result<PackageDirectory, LingoError>,
 {
    &&& forall|action: &Action, outcome: BuildResult| #[trigger]
        call_ensures(run, (action,), outcome) ==> outcome is Ok
    &&& forall|
        url: GitUrl,
        target: &str,
        lock: Option<GitLock>,
        outcome: Result<Option<String>, GitCloneError>,
    | #[trigger] call_ensures(clone, (url, target, lock), outcome) ==> outcome is Ok
    &&& forall|directory: &str, outcome: Result<PackageDirectory, LingoError>| #[trigger]
        call_ensures(load, (directory,), outcome) ==> (outcome matches Ok(loaded) && all_supported(
            entry_views(loaded.entries@),
        ) && loaded.config.library is Some)
    &&& forall|requirement: Seq<char>, directory: &str, loaded: PackageDirectory|
        #[trigger] wanted(roots, load, requirement) && #[trigger] call_ensures(
            load,
            (directory,),
            Ok::<PackageDirectory, LingoError>(loaded),
        ) ==> requirement_admits(requirement, loaded.config.package.version@)
}

/// Whether `run` never fails to make the directory `directory`.
pub open spec fn always_made<R>(run: R, directory: Seq<char>) -> bool where
    R: Fn(&Action) -> BuildResult,
 {
    forall|action: Action, outcome: BuildResult|
        action@ == ActionView::CreateDirAll(directory) && #[trigger] call_ensures(
            run,
            (&action,),
            outcome,
        ) ==> outcome is Ok
}

/// How the dependencies of a project were resolved.
#[derive(Debug)]
pub enum Resolution {
    /// The lock that was there is valid. `fetched` of its packages were
    /// missing from the cache and had to be fetched again.
    Locked { manager: DependencyManager, fetched: usize },
    /// The dependencies were pulled and selected anew. The lock of the
    /// manager is new and has to be written.
    Resolved { manager: DependencyManager },
}

/// The helper of dependency resolution: it pulls packages and selects the
/// versions that the lock records.
#[derive(Debug)]
pub struct DependencyManager {
    /// queue of packages that need processing
    pub pulling_queue: Vec<(String, PackageDetails)>,
    /// the flatten dependency tree with selected packages from the dependency tree
    pub lock: DependencyLock,
}

impl Default for DependencyManager {
    fn default() -> (manager: Self)
        ensures
            manager.pulling_queue@.len() == 0,
            manager.lock.locks().len() == 0,
            manager.lock.loaded().len() == 0,
    {
        DependencyManager { pulling_queue: Vec::new(), lock: DependencyLock::new() }
    }
}

impl DependencyManager {
    /// The node of a package that was fetched, and the dependencies that it
    /// declares.
    ///
    /// The package is refused, in this order, with `UnsupportedFileType`
    /// where its directory holds an entry that cannot be hashed, with
    /// `NoLibraryInLingoToml` where its manifest exports no library, and
    /// with `LingoVersionMismatch` where its version does not satisfy the
    /// requirement.
    pub fn evaluate(name: &str, package: PackageDetails, base_path: &str, directory: PackageDirectory) -> (result:
        Result<(DependencyTreeNode, Vec<(String, PackageDetails)>), LingoError>)
        ensures
            match result {
                Ok((node, dependencies)) => acceptable(package@, directory) && node@ == node_of(
                    name@,
                    package@,
                    base_path@,
                    directory,
                ) && node.dependencies@.len() == 0 && dependencies
                    == directory.config.dependencies,
                Err(error) => !acceptable(package@, directory) && refusal(
                    package@,
                    base_path@,
                    directory,
                    error,
                ),
            },
    {
        let PackageDirectory { entries, config: read_toml } = directory;
        let hash = match checksum_current_dir(&entries, false) {
            Ok(checksum) => checksum.to_hex(),
            Err(error) => {
                return Err(error);
            },
        };
        let include_path = join(base_path, hash.as_str());
        let Config { package: description, apps: _, library, dependencies } = read_toml;
        let config = match library {
            Some(value) => value,
            None => {
                // error we expected a library here
                return Err(LingoError::NoLibraryInLingoToml(base_path.to_owned()));
            },
        };
        if !package.version.matches(&description.version) {
            let mut message = concat("requested version ", package.version.as_str());
            message.append(" got version ");
            message.append(description.version.as_str());
            assert(message@ =~= mismatch_message(package.version@, description.version@));
            return Err(LingoError::LingoVersionMismatch(message));
        }
        let node = DependencyTreeNode {
            name: name.to_owned(),
            package,
            location: include_path,
            include_path: config.location,
            dependencies: Vec::new(),
            hash,
            version: description.version,
            properties: config.properties,
        };
        Ok((node, dependencies))
    }

    /// Fetches one package and makes its node.
    ///
    /// The package is fetched into the directory `temporary` below
    /// `base_path`, read from there by `load`, evaluated, and copied to the
    /// directory below `base_path` that is named by its checksum. The
    /// dependencies that its manifest declares then join the queue. On
    /// failure the queue is left as it was.
    pub fn non_recursive_fetching<C, R, L>(
        &mut self,
        name: &str,
        package: PackageDetails,
        base_path: &str,
        clone: &C,
        run: &R,
        load: &L,
    ) -> (result: Result<DependencyTreeNode, LingoError>) where
        C: Fn(GitUrl, &str, Option<GitLock>) -> Result<Option<String>, GitCloneError>,
        R: Fn(&Action) -> BuildResult,
        L: Fn(&str) -> Result<PackageDirectory, LingoError>,

        requires
            forall|url: GitUrl, target: &str, lock: Option<GitLock>|
                call_requires(*clone, (url, target, lock)),
            forall|action: &Action| call_requires(*run, (action,)),
            forall|directory: &str| call_requires(*load, (directory,)),
        ensures
            final(self).lock == old(self).lock,
            match result {
                Ok(node) => node.name@ == name@ && node.dependencies@.len() == 0 && package@.fetched(
                    joined(base_path@, "temporary"@),
                    *clone,
                    *run,
                    node@.package,
                    Ok::<(), LingoError>(()),
                ) && arrived(
                    node@,
                    base_path@,
                    *load,
                    request_views(old(self).pulling_queue@),
                    request_views(final(self).pulling_queue@),
                ),
                Err(error) => final(self).pulling_queue == old(self).pulling_queue
                    && fetch_refused(package@, base_path@, *clone, *run, *load, error),
            },
    {
        let mut package = package;
        // creating the directory where the library will be housed
        let library_path = base_path;
        // place where to drop the source
        let temporary_path = join(library_path, "temporary");
        let _ = run(&Action::RemoveDirAll(temporary_path.clone()));
        let _ = run(&Action::CreateDirAll(temporary_path.clone()));

        // creating the necessary directories
        let make_library = Action::CreateDirAll(library_path.to_owned());
        match run(&make_library) {
            Ok(()) => {},
            Err(error) => {
                assert(call_ensures(*run, (&make_library,), Err::<(), LingoError>(error)));
                return Err(error);
            },
        }
        let make_temporary = Action::CreateDirAll(temporary_path.clone());
        match run(&make_temporary) {
            Ok(()) => {},
            Err(error) => {
                assert(call_ensures(*run, (&make_temporary,), Err::<(), LingoError>(error)));
                return Err(error);
            },
        }

        // cloning the specified package
        let ghost requested = package@;
        let fetching = package.fetch(temporary_path.as_str(), clone, run);
        let ghost received = package@;
        match fetching {
            Ok(done) => {
                assert(done == ());
                assert(fetching == Ok::<(), LingoError>(()));
            },
            Err(error) => {
                assert(requested.fetched(
                    temporary_path@,
                    *clone,
                    *run,
                    received,
                    Err::<(), LingoError>(error),
                ));
                return Err(error);
            },
        }
        assert(requested.fetched(temporary_path@, *clone, *run, received, Ok::<(), LingoError>(())));
        let temporary = temporary_path.as_str();
        let directory = match load(temporary) {
            Ok(directory) => directory,
            Err(error) => {
                assert(call_ensures(
                    *load,
                    (temporary,),
                    Err::<PackageDirectory, LingoError>(error),
                ));
                return Err(error);
            },
        };
        let ghost loaded = directory;
        assert(call_ensures(*load, (temporary,), Ok::<PackageDirectory, LingoError>(loaded)));
        let (node, mut dependencies) = match Self::evaluate(name, package, library_path, directory) {
            Ok(accepted) => accepted,
            Err(error) => {
                assert(refusal(received, base_path@, loaded, error));
                assert(fetch_refused(requested, base_path@, *clone, *run, *load, error));
                return Err(error);
            },
        };
        let make_store = Action::CreateDirAll(node.location.clone());
        match run(&make_store) {
            Ok(()) => {},
            Err(error) => {
                proof {
                    assert(call_ensures(*run, (&make_store,), Err::<(), LingoError>(error)));
                    assert(action_failed(
                        *run,
                        ActionView::CreateDirAll(node.location@),
                        ActionView::CopyDirAll { from: temporary_path@, to: node.location@ },
                        error,
                    ));
                    assert(fetch_refused(requested, base_path@, *clone, *run, *load, error));
                }
                return Err(error);
            },
        }
        let store = Action::CopyDirAll { from: temporary_path.clone(), to: node.location.clone() };
        match run(&store) {
            Ok(()) => {},
            Err(error) => {
                proof {
                    assert(call_ensures(*run, (&store,), Err::<(), LingoError>(error)));
                    assert(action_failed(
                        *run,
                        ActionView::CreateDirAll(node.location@),
                        ActionView::CopyDirAll { from: temporary_path@, to: node.location@ },
                        error,
                    ));
                    assert(fetch_refused(requested, base_path@, *clone, *run, *load, error));
                }
                return Err(error);
            },
        }
        let ghost before = self.pulling_queue@;
        let ghost added = dependencies@;
        self.pulling_queue.append(&mut dependencies);
        proof {
            assert(request_views(before + added) =~= request_views(before) + request_views(added));
            assert(node@.package == received);
            assert(arrived(
                node@,
                base_path@,
                *load,
                request_views(before),
                request_views(self.pulling_queue@),
            ));
        }
        Ok(node)
    }

    /// Answers a further dependency on a package that was fetched before.
    ///
    /// The package is not fetched again. Where the version at which it was
    /// found satisfies the requirement of `request`, the answer is the node
    /// that was found, without children, with the requirement of the
    /// request and the revision at which the package was found. Where it
    /// does not, the dependency is refused with `LingoVersionMismatch`.
    pub fn revisit(found: &DependencyTreeNode, request: PackageDetails) -> (result: Result<
        DependencyTreeNode,
        LingoError,
    >)
        ensures
            match result {
                Ok(node) => requirement_admits(request@.version, found@.version) && node@
                    == repeat_of(found@, request@) && node.dependencies@.len() == 0,
                Err(error) => !requirement_admits(request@.version, found@.version) && (
                error matches LingoError::LingoVersionMismatch(message) && message@
                    == mismatch_message(request@.version, found@.version)),
            },
    {
        if !request.version.matches(&found.version) {
            let mut message = concat("requested version ", request.version.as_str());
            message.append(" got version ");
            message.append(found.version.as_str());
            assert(message@ =~= mismatch_message(request.version@, found.version@));
            return Err(LingoError::LingoVersionMismatch(message));
        }
        let mut node = found.shallow_clone();
        node.package =
        PackageDetails {
            version: request.version,
            mutual_exclusive: request.mutual_exclusive,
            git_tag: request.git_tag,
            git_rev: clone_optional_text(&found.package.git_rev),
        };
        Ok(node)
    }

    /// The place of the first node of the package `name` that came from the
    /// same source, pinned in the same way, as `package`, if there is one.
    fn find_fetched(nodes: &Vec<DependencyTreeNode>, name: &str, package: &PackageDetails) -> (place:
        Option<usize>)
        ensures
            match place {
                Some(j) => j < nodes@.len() && same_origin(nodes@[j as int]@, name@, package@)
                    && forall|k: int|
                    0 <= k < j ==> !same_origin((#[trigger] nodes@[k])@, name@, package@),
                None => forall|k: int|
                    0 <= k < nodes@.len() ==> !same_origin((#[trigger] nodes@[k])@, name@, package@),
            },
    {
        let mut j: usize = 0;
        while j < nodes.len()
            invariant
                j <= nodes@.len(),
                forall|k: int| 0 <= k < j ==> !same_origin((#[trigger] nodes@[k])@, name@, package@),
            decreases nodes@.len() - j,
        {
            let node = &nodes[j];
            if text_eq(node.name.as_str(), name) && node.package.mutual_exclusive.same(
                &package.mutual_exclusive,
            ) && same_optional_lock(&node.package.git_tag, &package.git_tag) {
                return Some(j);
            }
            j += 1;
        }
        None
    }

    /// Pulls the dependencies of a project and, in turn, everything that
    /// they depend on.
    ///
    /// The dependencies join the queue, and the queue is worked off from its
    /// end. Every dependency is answered by a node: a package that was not
    /// fetched yet from the same source is fetched, and its own dependencies
    /// join the queue; a package that was fetched before is not fetched
    /// again, so that dependencies that lead back to a package end there,
    /// but its version is held against the new requirement and a node of
    /// its own records the requirement.
    ///
    /// The pull ends with the first failure of a fetch, the first package
    /// that is refused, or the first requirement that a fetched package does
    /// not satisfy. Where nothing of this can happen, the pull succeeds.
    ///
    /// Every round either answers a dependency from a package that was
    /// fetched before, which shortens the queue, or fetches a package of an
    /// origin that was not met yet. The origins are bounded by what a list
    /// can hold, and nothing else bounds them: the manifests come from
    /// `load`, one by one.
    pub fn pull<C, R, L>(
        &mut self,
        dependencies: Vec<(String, PackageDetails)>,
        root_path: &str,
        clone: &C,
        run: &R,
        load: &L,
    ) -> (result: Result<Vec<DependencyTreeNode>, LingoError>) where
        C: Fn(GitUrl, &str, Option<GitLock>) -> Result<Option<String>, GitCloneError>,
        R: Fn(&Action) -> BuildResult,
        L: Fn(&str) -> Result<PackageDirectory, LingoError>,

        requires
            forall|url: GitUrl, target: &str, lock: Option<GitLock>|
                call_requires(*clone, (url, target, lock)),
            forall|action: &Action| call_requires(*run, (action,)),
            forall|directory: &str| call_requires(*load, (directory,)),
        ensures
            final(self).lock == old(self).lock,
            result matches Ok(nodes) ==> final(self).pulling_queue@.len() == 0 && pulled(
                request_views(old(self).pulling_queue@) + request_views(dependencies@),
                nodes@,
                joined(root_path@, LIBRARY_DIRECTORY@),
                *load,
            ),
            result matches Err(error) ==> pull_failed(
                request_views(old(self).pulling_queue@) + request_views(dependencies@),
                root_path@,
                *clone,
                *run,
                *load,
                error,
            ),
            dependable(
                request_views(old(self).pulling_queue@) + request_views(dependencies@),
                *clone,
                *run,
                *load,
            ) ==> result is Ok,
    {
        let mut requests = dependencies;
        let mut sub_dependencies: Vec<DependencyTreeNode> = Vec::new();
        let ghost roots = request_views(self.pulling_queue@) + request_views(requests@);
        proof {
            assert(request_views(self.pulling_queue@ + requests@) =~= roots);
        }
        self.pulling_queue.append(&mut requests);
        let sub_dependency_path = join(root_path, LIBRARY_DIRECTORY);
        let make_libraries = Action::CreateDirAll(sub_dependency_path.clone());
        match run(&make_libraries) {
            Ok(()) => {},
            Err(error) => {
                assert(call_ensures(*run, (&make_libraries,), Err::<(), LingoError>(error)));
                assert(pull_failed(roots, root_path@, *clone, *run, *load, error));
                proof {
                    if dependable(roots, *clone, *run, *load) {
                        lemma_dependable_pull(roots, root_path@, *clone, *run, *load, error);
                    }
                }
                return Err(error);
            },
        }
        proof {
            lemma_pull_start(roots, sub_dependency_path@, *load);
            assert(node_views(sub_dependencies@) =~= Seq::empty());
        }
        while self.pulling_queue.len() > 0
            invariant
                self.lock == old(self).lock,
                sub_dependency_path@ == joined(root_path@, LIBRARY_DIRECTORY@),
                roots == request_views(old(self).pulling_queue@) + request_views(dependencies@),
                forall|url: GitUrl, target: &str, lock: Option<GitLock>|
                    call_requires(*clone, (url, target, lock)),
                forall|action: &Action| call_requires(*run, (action,)),
                forall|directory: &str| call_requires(*load, (directory,)),
                pulling(
                    node_views(sub_dependencies@),
                    request_views(self.pulling_queue@),
                    roots,
                    sub_dependency_path@,
                    *load,
                ),
                forall|k: int|
                    0 <= k < sub_dependencies@.len() ==> (#[trigger] sub_dependencies@[k]).dependencies@.len()
                        == 0,
                origins(node_views(sub_dependencies@), sub_dependencies@.len() as int)
                    <= sub_dependencies@.len() <= usize::MAX,
            decreases
                    usize::MAX - origins(
                        node_views(sub_dependencies@),
                        sub_dependencies@.len() as int,
                    ),
                    self.pulling_queue@.len(),
        {
            let ghost nodes = node_views(sub_dependencies@);
            let ghost queue = request_views(self.pulling_queue@);
            let (package_name, package_details) = self.pulling_queue.pop().unwrap();
            proof {
                assert(request_views(self.pulling_queue@) =~= queue.drop_last());
                assert(queue.last() == (package_name@, package_details@));
            }
            let node = match Self::find_fetched(&sub_dependencies, package_name.as_str(), &package_details) {
                Some(j) => {
                    proof {
                        assert(nodes[j as int] == sub_dependencies@[j as int]@);
                        assert(same_origin(nodes[j as int], queue.last().0, queue.last().1));
                        assert forall|k: int| 0 <= k < j implies !same_origin(
                            #[trigger] nodes[k],
                            queue.last().0,
                            queue.last().1,
                        ) by {
                            assert(nodes[k] == sub_dependencies@[k]@);
                        }
                    }
                    match Self::revisit(&sub_dependencies[j], package_details) {
                        Ok(node) => {
                            proof {
                                lemma_pull_repeat(
                                    nodes,
                                    queue,
                                    roots,
                                    node@,
                                    j as int,
                                    sub_dependency_path@,
                                    *load,
                                );
                                lemma_origins_repeat(nodes, node@, j as int);
                            }
                            node
                        },
                        Err(error) => {
                            proof {
                                assert(round_failed(
                                    nodes,
                                    queue.last().0,
                                    queue.last().1,
                                    sub_dependency_path@,
                                    *clone,
                                    *run,
                                    *load,
                                    error,
                                ));
                                assert(pull_failed(roots, root_path@, *clone, *run, *load, error));
                                if dependable(roots, *clone, *run, *load) {
                                    lemma_dependable_pull(
                                        roots,
                                        root_path@,
                                        *clone,
                                        *run,
                                        *load,
                                        error,
                                    );
                                }
                            }
                            return Err(error);
                        },
                    }
                },
                None => {
                    proof {
                        assert forall|k: int| 0 <= k < nodes.len() implies !same_origin(
                            #[trigger] nodes[k],
                            queue.last().0,
                            queue.last().1,
                        ) by {
                            assert(nodes[k] == sub_dependencies@[k]@);
                        }
                    }
                    let fetched = self.non_recursive_fetching(
                        package_name.as_str(),
                        package_details,
                        sub_dependency_path.as_str(),
                        clone,
                        run,
                        load,
                    );
                    match fetched {
                        Ok(node) => {
                            proof {
                                lemma_pull_fetch(
                                    nodes,
                                    queue,
                                    request_views(self.pulling_queue@),
                                    roots,
                                    node@,
                                    sub_dependency_path@,
                                    *clone,
                                    *run,
                                    *load,
                                );
                                lemma_origins_fetch(nodes, node@, queue.last().1);
                            }
                            node
                        },
                        Err(error) => {
                            proof {
                                assert(round_failed(
                                    nodes,
                                    queue.last().0,
                                    queue.last().1,
                                    sub_dependency_path@,
                                    *clone,
                                    *run,
                                    *load,
                                    error,
                                ));
                                assert(pull_failed(roots, root_path@, *clone, *run, *load, error));
                                if dependable(roots, *clone, *run, *load) {
                                    lemma_dependable_pull(
                                        roots,
                                        root_path@,
                                        *clone,
                                        *run,
                                        *load,
                                        error,
                                    );
                                }
                            }
                            return Err(error);
                        },
                    }
                },
            };
            let ghost value = node@;
            sub_dependencies.push(node);
            // the number of nodes fits a usize, and with it the number of origins
            let total = sub_dependencies.len();
            proof {
                assert(node_views(sub_dependencies@) =~= nodes.push(value));
                assert(sub_dependencies@.len() == total);
            }
        }
        proof {
            assert(request_views(self.pulling_queue@) =~= Seq::empty());
            lemma_pull_end(node_views(sub_dependencies@), roots, sub_dependency_path@, *load);
        }
        //dependencies
        Ok(sub_dependencies)
    }

    /// Resolves the dependencies of a project.
    ///
    /// Where a lock exists and is valid, nothing is pulled: the lock is
    /// loaded from the cache below `target_path`, and only packages that
    /// are missing there are fetched again. Otherwise, and also where the
    /// lock is invalid, the dependencies are pulled, one node is selected
    /// for every package, and a new lock is made from the selection.
    ///
    /// No lock is made where the pull or the selection fails: the failure
    /// of the pull, or the first package for which nothing can be selected,
    /// is all that is returned.
    ///
    /// A lock whose packages are all cached, in a cache that is intact, is
    /// taken as it is and nothing is fetched, provided the directory of
    /// libraries can be made. Where nothing can go wrong in a pull, the
    /// only failure left is a package for which nothing can be selected.
    pub fn from_dependencies<P, C, R, L>(
        dependencies: Vec<(String, PackageDetails)>,
        target_path: &str,
        existing: Option<DependencyLock>,
        probe: &P,
        clone: &C,
        run: &R,
        load: &L,
    ) -> (result: Result<Resolution, LingoError>) where
        P: Fn(&str) -> bool,
        C: Fn(GitUrl, &str, Option<GitLock>) -> Result<Option<String>, GitCloneError>,
        R: Fn(&Action) -> BuildResult,
        L: Fn(&str) -> Result<PackageDirectory, LingoError>,

        requires
            forall|path: &str| call_requires(*probe, (path,)),
            forall|url: GitUrl, target: &str, lock: Option<GitLock>|
                call_requires(*clone, (url, target, lock)),
            forall|action: &Action| call_requires(*run, (action,)),
            forall|directory: &str| call_requires(*load, (directory,)),
        ensures
            match result {
                Ok(Resolution::Locked { manager, fetched }) => {
                    &&& existing matches Some(lock)
                    &&& manager.pulling_queue@.len() == 0
                    &&& manager.lock.locks() == lock.locks()
                    &&& manager.lock.loaded().len() == lock.loaded().len() + lock.locks().len()
                    &&& forall|i: int|
                        0 <= i < lock.locks().len() ==> validated(
                            (#[trigger] lock.locks()[i]),
                            joined(target_path@, "lfc_include"@),
                            *load,
                            manager.lock.loaded()[lock.loaded().len() + i],
                        )
                    &&& all_cached(lock.locks(), joined(target_path@, "lfc_include"@), *probe)
                        ==> fetched == 0
                },
                Ok(Resolution::Resolved { manager }) => {
                    &&& manager.pulling_queue@.len() == 0
                    &&& manager.lock.entries() == lock_map(locks_of(manager.lock.loaded()))
                    &&& exists|nodes: Seq<DependencyTreeNode>|
                        {
                            &&& #[trigger] pulled(
                                request_views(dependencies@),
                                nodes,
                                joined(target_path@, LIBRARY_DIRECTORY@),
                                *load,
                            )
                            &&& is_selection(aggregate_all(nodes), manager.lock.loaded())
                            &&& one_per_name(aggregate_all(nodes), manager.lock.loaded())
                            &&& requirements_hold(aggregate_all(nodes), manager.lock.loaded())
                        }
                },
                Err(error) => {
                    ||| pull_failed(
                        request_views(dependencies@),
                        target_path@,
                        *clone,
                        *run,
                        *load,
                        error,
                    )
                    ||| exists|nodes: Seq<DependencyTreeNode>, i: int|
                        #[trigger] pulled(
                            request_views(dependencies@),
                            nodes,
                            joined(target_path@, LIBRARY_DIRECTORY@),
                            *load,
                        ) && #[trigger] is_first_failure(aggregate_all(nodes), i, error)
                },
            },
            existing matches Some(lock) && always_made(
                *run,
                joined(target_path@, LIBRARY_DIRECTORY@),
            ) && all_cached(lock.locks(), joined(target_path@, "lfc_include"@), *probe)
                && intact_cache(lock.locks(), joined(target_path@, "lfc_include"@), *load) ==> (
            result matches Ok(Resolution::Locked { fetched, .. }) && fetched == 0),
            dependable(request_views(dependencies@), *clone, *run, *load) ==> (result is Ok
                || result matches Err(LingoError::NoViableVersion(_))),
    {
        // create library folder
        let library_path = join(target_path, LIBRARY_DIRECTORY);
        let make_libraries = Action::CreateDirAll(library_path);
        match run(&make_libraries) {
            Ok(()) => {},
            Err(error) => {
                assert(call_ensures(*run, (&make_libraries,), Err::<(), LingoError>(error)));
                return Err(error);
            },
        }
        // if a lock file is present it will load the dependencies from it and checks
        // integrity of the build directory
        match existing {
            Some(mut lock) => {
                let include_folder = join(target_path, "lfc_include");
                match lock.init(include_folder.as_str(), probe, clone, run, load) {
                    Ok(fetched) => {
                        let manager = DependencyManager { pulling_queue: Vec::new(), lock };
                        return Ok(Resolution::Locked { manager, fetched });
                    },
                    Err(_) => {},
                }
            },
            None => {},
        }

        // creates a new dependency manager object
        let mut manager = DependencyManager::default();

        // starts recursively pulling dependencies
        let root_nodes = match manager.pull(dependencies, target_path, clone, run, load) {
            Ok(root_nodes) => root_nodes,
            Err(error) => {
                return Err(error);
            },
        };
        let ghost nodes = root_nodes@;
        proof {
            assert(request_views(Seq::<(String, PackageDetails)>::empty()) + request_views(
                dependencies@,
            ) =~= request_views(dependencies@));
        }

        // flattens the dependency tree and makes the package selection
        let selection = match DependencyManager::flatten(root_nodes) {
            Ok(selection) => selection,
            Err(error) => {
                proof {
                    let i = choose|i: int| is_first_failure(aggregate_all(nodes), i, error);
                    assert(pulled(
                        request_views(dependencies@),
                        nodes,
                        joined(target_path@, LIBRARY_DIRECTORY@),
                        *load,
                    ) && is_first_failure(aggregate_all(nodes), i, error));
                }
                return Err(error);
            },
        };

        // creates a lock file struct from the selected packages
        let lock = DependencyLock::create(selection);

        // saves the lockfile with the dependency manager
        manager.lock = lock;
        assert(pulled(
            request_views(dependencies@),
            nodes,
            joined(target_path@, LIBRARY_DIRECTORY@),
            *load,
        ));
        Ok(Resolution::Resolved { manager })
    }

    /// The properties that the locked packages hand on to the apps.
    pub fn get_target_properties(&self) -> (result: Result<LibraryTargetProperties, LingoError>)
        ensures
            result matches Ok(properties) && properties.cmake_include@ == aggregated_code(
                self.lock.loaded(),
            ),
    {
        self.lock.aggregate_target_properties()
    }
}

impl DependencyManager {
    /// Selects one node for every package of the dependency trees.
    ///
    /// All nodes of the trees are candidates. A candidate is viable where its
    /// version satisfies the requirement of every node of the same package.
    /// For each package the newest viable candidate is selected, and of
    /// several that are equally new the one that comes last. The selection
    /// lists the packages in the order in which they first occur.
    ///
    /// Where nothing can be selected for a package, because no candidate is
    /// viable or because the order of versions leaves none of the viable ones
    /// on top, the first such package is reported as `NoViableVersion`.
    /// Where the order of versions is a strict order on the viable
    /// candidates of a package, one of them is on top: then a package with
    /// a viable candidate has a selection, and the package that is reported
    /// has no viable candidate.
    pub fn flatten(root_nodes: Vec<DependencyTreeNode>) -> (result: Result<
        Vec<DependencyTreeNode>,
        LingoError,
    >)
        ensures
            match result {
                Ok(selection) => is_selection(aggregate_all(root_nodes@), node_views(selection@)),
                Err(error) => exists|i: int|
                    is_first_failure(aggregate_all(root_nodes@), i, error),
            },
            result is Ok <==> forall|i: int|
                0 <= i < aggregate_all(root_nodes@).len() ==> resolvable(
                    aggregate_all(root_nodes@),
                    (#[trigger] aggregate_all(root_nodes@)[i]).name,
                ),
            result matches Ok(selection) ==> one_per_name(
                aggregate_all(root_nodes@),
                node_views(selection@),
            ) && requirements_hold(aggregate_all(root_nodes@), node_views(selection@)),
            (exists|i: int| unsatisfiable(aggregate_all(root_nodes@), i)) ==> result matches Err(
                LingoError::NoViableVersion(_),
            ),
            (forall|i: int|
                0 <= i < aggregate_all(root_nodes@).len() ==> orderly(
                    aggregate_all(root_nodes@),
                    (#[trigger] aggregate_all(root_nodes@)[i]).name,
                ) && exists|c: int|
                    viable(aggregate_all(root_nodes@), c) && (#[trigger] aggregate_all(
                        root_nodes@,
                    )[c]).name == aggregate_all(root_nodes@)[i].name) ==> result is Ok,
            result matches Err(LingoError::NoViableVersion(name)) ==> (orderly(
                aggregate_all(root_nodes@),
                name@,
            ) ==> forall|c: int|
                viable(aggregate_all(root_nodes@), c) ==> (#[trigger] aggregate_all(
                    root_nodes@,
                )[c]).name != name@),
            result matches Ok(selection) ==> forall|k: int|
                0 <= k < selection@.len() ==> (#[trigger] selection@[k]).dependencies@.len() == 0,
    {
        let nodes = aggregate_roots(&root_nodes);
        let ghost views = node_views(nodes@);
        let flags = viable_flags(&nodes);
        let mut selection: Vec<DependencyTreeNode> = Vec::new();
        let mut i: usize = 0;
        while i < nodes.len()
            invariant
                i <= nodes@.len(),
                views == node_views(nodes@),
                views == aggregate_all(root_nodes@),
                flags@.len() == nodes@.len(),
                forall|k: int| 0 <= k < flags@.len() ==> #[trigger] flags@[k] == viable(views, k),
                forall|k: int|
                    0 <= k < nodes@.len() ==> (#[trigger] nodes@[k]).dependencies@.len() == 0,
                is_selection_upto(views, node_views(selection@), i as int),
                forall|j: int| 0 <= j < i ==> resolvable(views, (#[trigger] views[j]).name),
                forall|k: int|
                    0 <= k < selection@.len() ==> (#[trigger] selection@[k]).dependencies@.len() == 0,
            decreases nodes@.len() - i,
        {
            if !occurs_before(&nodes, i) {
                match select(&nodes, &flags, i) {
                    Some(s) => {
                        let ghost before = node_views(selection@);
                        selection.push(nodes[s].shallow_clone());
                        proof {
                            assert(node_views(selection@) =~= before.push(views[s as int]));
                            lemma_selection_push(views, before, i as int, s as int);
                        }
                    },
                    None => {
                        let error = LingoError::NoViableVersion(nodes[i].name.clone());
                        proof {
                            assert(is_first_failure(views, i as int, error));
                            if orderly(views, views[i as int].name) {
                                assert forall|c: int| viable(views, c) implies (#[trigger] views[c]).name
                                    != views[i as int].name by {
                                    if views[c].name == views[i as int].name {
                                        lemma_viable_is_resolvable(views, c);
                                    }
                                }
                            }
                        }
                        return Err(error);
                    },
                }
            } else {
                proof {
                    lemma_selection_skip(views, node_views(selection@), i as int);
                }
            }
            i += 1;
        }
        proof {
            lemma_selection_one_per_name(views, node_views(selection@));
            lemma_selection_satisfies_requirements(views, node_views(selection@));
            if exists|i: int| unsatisfiable(views, i) {
                let i = choose|i: int| unsatisfiable(views, i);
                lemma_unsatisfiable_is_not_resolvable(views, i);
            }
        }
        Ok(selection)
    }
}

/// The selection grows by the candidate that is selected for a package that
/// occurs for the first time.
proof fn lemma_selection_push(nodes: Seq<NodeView>, selection: Seq<NodeView>, i: int, s: int)
    requires
        is_selection_upto(nodes, selection, i),
        first_of_name(nodes, i),
        selected(nodes, s),
        nodes[s].name == nodes[i].name,
    ensures
        is_selection_upto(nodes, selection.push(nodes[s]), i + 1),
        resolvable(nodes, nodes[i].name),
{
    let before = first_occurrences(nodes, i);
    let firsts = first_occurrences(nodes, i + 1);
    assert(firsts == before.push(i));
    let after = selection.push(nodes[s]);
    assert forall|k: int| 0 <= k < after.len() implies chosen_for(
        nodes,
        nodes[firsts[k]].name,
        #[trigger] after[k],
    ) by {
        if k < selection.len() {
            assert(chosen_for(nodes, nodes[before[k]].name, selection[k]));
        } else {
            assert(selected(nodes, s));
        }
    }
}

/// The selection stays as it is at a node whose package occurred before.
proof fn lemma_selection_skip(nodes: Seq<NodeView>, selection: Seq<NodeView>, i: int)
    requires
        0 <= i < nodes.len(),
        is_selection_upto(nodes, selection, i),
        !first_of_name(nodes, i),
        forall|j: int| 0 <= j < i ==> resolvable(nodes, (#[trigger] nodes[j]).name),
    ensures
        is_selection_upto(nodes, selection, i + 1),
        resolvable(nodes, nodes[i].name),
{
    assert(first_occurrences(nodes, i + 1) == first_occurrences(nodes, i));
    let j = choose|j: int| 0 <= j < i && (#[trigger] nodes[j]).name == nodes[i].name;
    assert(resolvable(nodes, nodes[j].name));
    assert forall|k: int| 0 <= k < selection.len() implies chosen_for(
        nodes,
        nodes[first_occurrences(nodes, i + 1)[k]].name,
        #[trigger] selection[k],
    ) by {
        assert(chosen_for(nodes, nodes[first_occurrences(nodes, i)[k]].name, selection[k]));
    }
}

/// A dependency that is owed stays owed when the dependency at the end of
/// the queue is answered by a new node, whatever joins the queue.
proof fn lemma_owed_step(
    nodes: Seq<NodeView>,
    queue: Seq<(Seq<char>, DetailsView)>,
    node: NodeView,
    extra: Seq<(Seq<char>, DetailsView)>,
    name: Seq<char>,
    request: DetailsView,
)
    requires
        queue.len() > 0,
        node.name == queue.last().0,
        same_request(node.package, queue.last().1),
        owed(nodes, queue, name, request),
    ensures
        owed(nodes.push(node), queue.drop_last() + extra, name, request),
{
    let after = nodes.push(node);
    let rest = queue.drop_last() + extra;
    if covers(nodes, name, request) {
        let k = choose|k: int|
            0 <= k < nodes.len() && (#[trigger] nodes[k]).name == name && same_request(
                nodes[k].package,
                request,
            );
        assert(after[k] == nodes[k]);
        assert(covers(after, name, request));
    } else {
        let q = choose|q: int|
            0 <= q < queue.len() && (#[trigger] queue[q]).0 == name && same_request(
                queue[q].1,
                request,
            );
        if q < queue.len() - 1 {
            assert(rest[q] == queue[q]);
            assert(queued(rest, name, request));
        } else {
            assert(after[nodes.len() as int] == node);
            assert(covers(after, name, request));
        }
    }
}

/// A dependency that waits among those that join the queue is owed.
proof fn lemma_owed_joined(
    nodes: Seq<NodeView>,
    queue: Seq<(Seq<char>, DetailsView)>,
    extra: Seq<(Seq<char>, DetailsView)>,
    d: int,
)
    requires
        0 <= d < extra.len(),
    ensures
        owed(nodes, queue + extra, extra[d].0, extra[d].1),
{
    assert((queue + extra)[queue.len() + d] == extra[d]);
    assert(queued(queue + extra, extra[d].0, extra[d].1));
}

/// A settled node stays settled when the dependency at the end of the queue
/// is answered by a new node, whatever joins the queue.
proof fn lemma_settled_step<L>(
    nodes: Seq<NodeView>,
    queue: Seq<(Seq<char>, DetailsView)>,
    node: NodeView,
    extra: Seq<(Seq<char>, DetailsView)>,
    k: int,
    base_path: Seq<char>,
    load: L,
) where L: Fn(&str) -> Result<PackageDirectory, LingoError>
    requires
        queue.len() > 0,
        node.name == queue.last().0,
        same_request(node.package, queue.last().1),
        0 <= k < nodes.len(),
        settled(nodes, queue, k, base_path, load),
    ensures
        settled(nodes.push(node), queue.drop_last() + extra, k, base_path, load),
{
    let after = nodes.push(node);
    let rest = queue.drop_last() + extra;
    let (temporary, directory) = choose|temporary: &str, directory: PackageDirectory|
        temporary@ == joined(base_path, "temporary"@) && #[trigger] call_ensures(
            load,
            (temporary,),
            Ok::<PackageDirectory, LingoError>(directory),
        ) && acceptable(nodes[k].package, directory) && nodes[k] == node_of(
            nodes[k].name,
            nodes[k].package,
            base_path,
            directory,
        ) && forall|d: int|
            0 <= d < directory.config.dependencies@.len() ==> owed(
                nodes,
                queue,
                (#[trigger] directory.config.dependencies@[d]).0@,
                directory.config.dependencies@[d].1@,
            );
    assert(after[k] == nodes[k]);
    assert forall|d: int| 0 <= d < directory.config.dependencies@.len() implies owed(
        after,
        rest,
        (#[trigger] directory.config.dependencies@[d]).0@,
        directory.config.dependencies@[d].1@,
    ) by {
        lemma_owed_step(
            nodes,
            queue,
            node,
            extra,
            directory.config.dependencies@[d].0@,
            directory.config.dependencies@[d].1@,
        );
    }
    assert(call_ensures(load, (temporary,), Ok::<PackageDirectory, LingoError>(directory)));
}

/// A node that repeats the node at `j` for a requirement that the version of
/// that node satisfies is settled once it has joined the nodes, and it
/// answers the dependency at the end of the queue.
proof fn lemma_repeated_is_settled<L>(
    nodes: Seq<NodeView>,
    queue: Seq<(Seq<char>, DetailsView)>,
    node: NodeView,
    j: int,
    base_path: Seq<char>,
    load: L,
) where L: Fn(&str) -> Result<PackageDirectory, LingoError>
    requires
        queue.len() > 0,
        0 <= j < nodes.len(),
        settled(nodes, queue, j, base_path, load),
        node == (NodeView { package: node.package, ..nodes[j] }),
        node.name == queue.last().0,
        same_request(node.package, queue.last().1),
        requirement_admits(node.package.version, nodes[j].version),
    ensures
        settled(nodes.push(node), queue.drop_last(), nodes.len() as int, base_path, load),
{
    let after = nodes.push(node);
    let rest = queue.drop_last();
    let (temporary, directory) = choose|temporary: &str, directory: PackageDirectory|
        temporary@ == joined(base_path, "temporary"@) && #[trigger] call_ensures(
            load,
            (temporary,),
            Ok::<PackageDirectory, LingoError>(directory),
        ) && acceptable(nodes[j].package, directory) && nodes[j] == node_of(
            nodes[j].name,
            nodes[j].package,
            base_path,
            directory,
        ) && forall|d: int|
            0 <= d < directory.config.dependencies@.len() ==> owed(
                nodes,
                queue,
                (#[trigger] directory.config.dependencies@[d]).0@,
                directory.config.dependencies@[d].1@,
            );
    assert(after[nodes.len() as int] == node);
    assert(rest + Seq::<(Seq<char>, DetailsView)>::empty() =~= rest);
    assert forall|d: int| 0 <= d < directory.config.dependencies@.len() implies owed(
        after,
        rest,
        (#[trigger] directory.config.dependencies@[d]).0@,
        directory.config.dependencies@[d].1@,
    ) by {
        lemma_owed_step(
            nodes,
            queue,
            node,
            Seq::empty(),
            directory.config.dependencies@[d].0@,
            directory.config.dependencies@[d].1@,
        );
    }
    assert(call_ensures(load, (temporary,), Ok::<PackageDirectory, LingoError>(directory)));
}

/// A node that was fetched is settled once it has joined the nodes and its
/// dependencies the queue, and it answers the dependency that it was fetched
/// for.
proof fn lemma_fetched_is_settled<C, R, L>(
    nodes: Seq<NodeView>,
    queue: Seq<(Seq<char>, DetailsView)>,
    node: NodeView,
    requested: DetailsView,
    temporary: &str,
    directory: PackageDirectory,
    base_path: Seq<char>,
    clone: C,
    run: R,
    load: L,
) where
    C: Fn(GitUrl, &str, Option<GitLock>) -> Result<Option<String>, GitCloneError>,
    R: Fn(&Action) -> BuildResult,
    L: Fn(&str) -> Result<PackageDirectory, LingoError>,

    requires
        queue.len() > 0,
        requested == queue.last().1,
        node.name == queue.last().0,
        requested.fetched(
            joined(base_path, "temporary"@),
            clone,
            run,
            node.package,
            Ok::<(), LingoError>(()),
        ),
        temporary@ == joined(base_path, "temporary"@),
        call_ensures(load, (temporary,), Ok::<PackageDirectory, LingoError>(directory)),
        acceptable(node.package, directory),
        node == node_of(node.name, node.package, base_path, directory),
    ensures
        same_request(node.package, requested),
        settled(
            nodes.push(node),
            queue.drop_last() + request_views(directory.config.dependencies@),
            nodes.len() as int,
            base_path,
            load,
        ),
{
    let after = nodes.push(node);
    let extra = request_views(directory.config.dependencies@);
    let rest = queue.drop_last() + extra;
    assert(after[nodes.len() as int] == node);
    assert forall|d: int| 0 <= d < directory.config.dependencies@.len() implies owed(
        after,
        rest,
        (#[trigger] directory.config.dependencies@[d]).0@,
        directory.config.dependencies@[d].1@,
    ) by {
        lemma_owed_joined(after, queue.drop_last(), extra, d);
        assert(extra[d] == (directory.config.dependencies@[d].0@, directory.config.dependencies@[d].1@));
    }
}

/// At the start of a pull no node exists and every dependency of the
/// project waits in the queue.
proof fn lemma_pull_start<L>(roots: Seq<(Seq<char>, DetailsView)>, base_path: Seq<char>, load: L) where
    L: Fn(&str) -> Result<PackageDirectory, LingoError>,

    ensures
        pulling(Seq::<NodeView>::empty(), roots, roots, base_path, load),
{
    reveal(pulling);
    assert forall|r: int| 0 <= r < roots.len() implies owed(
        Seq::<NodeView>::empty(),
        roots,
        (#[trigger] roots[r]).0,
        roots[r].1,
    ) by {
        assert(queued(roots, roots[r].0, roots[r].1));
    }
    assert forall|q: int| 0 <= q < roots.len() implies asked(
        Seq::<NodeView>::empty(),
        roots,
        base_path,
        load,
        (#[trigger] roots[q]).0,
        roots[q].1,
    ) by {
        assert(roots[q] == (roots[q].0, roots[q].1));
    }
}

/// A dependency that was asked for stays asked for when a node joins the
/// nodes.
proof fn lemma_asked_step<L>(
    nodes: Seq<NodeView>,
    node: NodeView,
    roots: Seq<(Seq<char>, DetailsView)>,
    base_path: Seq<char>,
    load: L,
    name: Seq<char>,
    request: DetailsView,
) where L: Fn(&str) -> Result<PackageDirectory, LingoError>
    requires
        asked(nodes, roots, base_path, load, name, request),
    ensures
        asked(nodes.push(node), roots, base_path, load, name, request),
{
    let after = nodes.push(node);
    if exists|k: int|
        0 <= k < nodes.len() && declares(#[trigger] nodes[k], base_path, load, name, request) {
        let k = choose|k: int|
            0 <= k < nodes.len() && declares(#[trigger] nodes[k], base_path, load, name, request);
        assert(after[k] == nodes[k]);
    }
}

/// Every origin is still fetched once when a node joins that repeats the
/// first node of its origin.
proof fn lemma_fetched_once_repeat(nodes: Seq<NodeView>, node: NodeView, j: int)
    requires
        fetched_once(nodes),
        0 <= j < nodes.len(),
        same_origin(nodes[j], node.name, node.package),
        forall|k: int| 0 <= k < j ==> !same_origin(#[trigger] nodes[k], node.name, node.package),
        node == repeat_of(nodes[j], node.package),
    ensures
        fetched_once(nodes.push(node)),
{
    let after = nodes.push(node);
    assert forall|k: int, l: int|
        0 <= k < l < after.len() && same_origin(
            #[trigger] after[k],
            (#[trigger] after[l]).name,
            after[l].package,
        ) implies after[l] == repeat_of(after[k], after[l].package) by {
        assert(after[k] == nodes[k]);
        if l < nodes.len() {
            assert(after[l] == nodes[l]);
        } else {
            assert(after[l] == node);
            if k > j {
                assert(same_origin(nodes[j], nodes[k].name, nodes[k].package));
                assert(nodes[k] == repeat_of(nodes[j], nodes[k].package));
            }
        }
    }
}

/// Every origin is still fetched once when a node of a new origin joins.
proof fn lemma_fetched_once_fetch(nodes: Seq<NodeView>, node: NodeView)
    requires
        fetched_once(nodes),
        forall|k: int|
            0 <= k < nodes.len() ==> !same_origin(#[trigger] nodes[k], node.name, node.package),
    ensures
        fetched_once(nodes.push(node)),
{
    let after = nodes.push(node);
    assert forall|k: int, l: int|
        0 <= k < l < after.len() && same_origin(
            #[trigger] after[k],
            (#[trigger] after[l]).name,
            after[l].package,
        ) implies after[l] == repeat_of(after[k], after[l].package) by {
        assert(after[k] == nodes[k]);
        if l < nodes.len() {
            assert(after[l] == nodes[l]);
        }
    }
}

/// The number of origins among the first `n` nodes lies between 0 and `n`,
/// and a node that joins behind them does not change it.
proof fn lemma_origins_prefix(nodes: Seq<NodeView>, node: NodeView, n: int)
    requires
        0 <= n <= nodes.len(),
    ensures
        0 <= origins(nodes, n) <= n,
        origins(nodes.push(node), n) == origins(nodes, n),
    decreases n,
{
    if n > 0 {
        lemma_origins_prefix(nodes, node, n - 1);
        let after = nodes.push(node);
        assert(after[n - 1] == nodes[n - 1]);
        assert(first_of_origin(after, n - 1) == first_of_origin(nodes, n - 1)) by {
            if first_of_origin(nodes, n - 1) {
                assert forall|k: int| 0 <= k < n - 1 implies !same_origin(
                    #[trigger] after[k],
                    after[n - 1].name,
                    after[n - 1].package,
                ) by {
                    assert(after[k] == nodes[k]);
                }
            }
            if first_of_origin(after, n - 1) {
                assert forall|k: int| 0 <= k < n - 1 implies !same_origin(
                    #[trigger] nodes[k],
                    nodes[n - 1].name,
                    nodes[n - 1].package,
                ) by {
                    assert(after[k] == nodes[k]);
                }
            }
        }
    }
}

/// A node that repeats a node before it adds no origin.
proof fn lemma_origins_repeat(nodes: Seq<NodeView>, node: NodeView, j: int)
    requires
        0 <= j < nodes.len(),
        same_origin(nodes[j], node.name, node.package),
    ensures
        origins(nodes.push(node), nodes.len() + 1int) == origins(nodes, nodes.len() as int),
        0 <= origins(nodes, nodes.len() as int) <= nodes.len(),
{
    let after = nodes.push(node);
    lemma_origins_prefix(nodes, node, nodes.len() as int);
    assert(after[j] == nodes[j]);
    assert(after[nodes.len() as int] == node);
    assert(!first_of_origin(after, nodes.len() as int));
}

/// A node of a new origin adds one origin.
proof fn lemma_origins_fetch(nodes: Seq<NodeView>, node: NodeView, request: DetailsView)
    requires
        same_request(node.package, request),
        forall|k: int|
            0 <= k < nodes.len() ==> !same_origin(#[trigger] nodes[k], node.name, request),
    ensures
        origins(nodes.push(node), nodes.len() + 1int) == origins(nodes, nodes.len() as int) + 1,
        0 <= origins(nodes, nodes.len() as int) <= nodes.len(),
{
    let after = nodes.push(node);
    lemma_origins_prefix(nodes, node, nodes.len() as int);
    assert(after[nodes.len() as int] == node);
    assert forall|k: int| 0 <= k < nodes.len() implies !same_origin(
        #[trigger] after[k],
        node.name,
        node.package,
    ) by {
        assert(after[k] == nodes[k]);
    }
    assert(first_of_origin(after, nodes.len() as int));
}

/// A package that was fetched before answers the dependency at the end of
/// the queue through a node of its own, provided its version satisfies the
/// requirement.
proof fn lemma_pull_repeat<L>(
    nodes: Seq<NodeView>,
    queue: Seq<(Seq<char>, DetailsView)>,
    roots: Seq<(Seq<char>, DetailsView)>,
    node: NodeView,
    j: int,
    base_path: Seq<char>,
    load: L,
) where L: Fn(&str) -> Result<PackageDirectory, LingoError>
    requires
        pulling(nodes, queue, roots, base_path, load),
        queue.len() > 0,
        0 <= j < nodes.len(),
        same_origin(nodes[j], queue.last().0, queue.last().1),
        forall|k: int|
            0 <= k < j ==> !same_origin(#[trigger] nodes[k], queue.last().0, queue.last().1),
        node == repeat_of(nodes[j], queue.last().1),
        requirement_admits(queue.last().1.version, nodes[j].version),
    ensures
        pulling(nodes.push(node), queue.drop_last(), roots, base_path, load),
{
    reveal(pulling);
    let after = nodes.push(node);
    let rest = queue.drop_last();
    let none = Seq::<(Seq<char>, DetailsView)>::empty();
    assert(rest + none =~= rest);
    lemma_fetched_once_repeat(nodes, node, j);
    assert forall|q: int| 0 <= q < rest.len() implies asked(
        after,
        roots,
        base_path,
        load,
        (#[trigger] rest[q]).0,
        rest[q].1,
    ) by {
        assert(rest[q] == queue[q]);
        lemma_asked_step(nodes, node, roots, base_path, load, queue[q].0, queue[q].1);
    }
    assert forall|r: int| 0 <= r < roots.len() implies owed(
        after,
        rest,
        (#[trigger] roots[r]).0,
        roots[r].1,
    ) by {
        lemma_owed_step(nodes, queue, node, none, roots[r].0, roots[r].1);
    }
    assert forall|k: int| 0 <= k < after.len() implies #[trigger] settled(
        after,
        rest,
        k,
        base_path,
        load,
    ) by {
        if k < nodes.len() {
            assert(settled(nodes, queue, k, base_path, load));
            lemma_settled_step(nodes, queue, node, none, k, base_path, load);
        } else {
            assert(settled(nodes, queue, j, base_path, load));
            lemma_repeated_is_settled(nodes, queue, node, j, base_path, load);
        }
    }
}

/// A package that was fetched answers the dependency at the end of the
/// queue, and its own dependencies join the queue.
proof fn lemma_pull_fetch<C, R, L>(
    nodes: Seq<NodeView>,
    queue: Seq<(Seq<char>, DetailsView)>,
    waiting: Seq<(Seq<char>, DetailsView)>,
    roots: Seq<(Seq<char>, DetailsView)>,
    node: NodeView,
    base_path: Seq<char>,
    clone: C,
    run: R,
    load: L,
) where
    C: Fn(GitUrl, &str, Option<GitLock>) -> Result<Option<String>, GitCloneError>,
    R: Fn(&Action) -> BuildResult,
    L: Fn(&str) -> Result<PackageDirectory, LingoError>,

    requires
        pulling(nodes, queue, roots, base_path, load),
        queue.len() > 0,
        node.name == queue.last().0,
        queue.last().1.fetched(
            joined(base_path, "temporary"@),
            clone,
            run,
            node.package,
            Ok::<(), LingoError>(()),
        ),
        arrived(node, base_path, load, queue.drop_last(), waiting),
        forall|k: int|
            0 <= k < nodes.len() ==> !same_origin(
                #[trigger] nodes[k],
                queue.last().0,
                queue.last().1,
            ),
    ensures
        pulling(nodes.push(node), waiting, roots, base_path, load),
        same_request(node.package, queue.last().1),
{
    reveal(pulling);
    let after = nodes.push(node);
    let (temporary, directory) = choose|temporary: &str, directory: PackageDirectory|
        temporary@ == joined(base_path, "temporary"@) && #[trigger] call_ensures(
            load,
            (temporary,),
            Ok::<PackageDirectory, LingoError>(directory),
        ) && acceptable(node.package, directory) && node == node_of(
            node.name,
            node.package,
            base_path,
            directory,
        ) && waiting == queue.drop_last() + request_views(directory.config.dependencies@);
    let extra = request_views(directory.config.dependencies@);
    lemma_fetched_is_settled(
        nodes,
        queue,
        node,
        queue.last().1,
        temporary,
        directory,
        base_path,
        clone,
        run,
        load,
    );
    lemma_fetched_once_fetch(nodes, node);
    assert(after[nodes.len() as int] == node);
    assert forall|q: int| 0 <= q < waiting.len() implies asked(
        after,
        roots,
        base_path,
        load,
        (#[trigger] waiting[q]).0,
        waiting[q].1,
    ) by {
        if q < queue.len() - 1 {
            assert(waiting[q] == queue[q]);
            lemma_asked_step(nodes, node, roots, base_path, load, queue[q].0, queue[q].1);
        } else {
            let d = q - (queue.len() - 1);
            assert(waiting[q] == extra[d]);
            assert(call_ensures(load, (temporary,), Ok::<PackageDirectory, LingoError>(directory)));
            assert(declares(node, base_path, load, waiting[q].0, waiting[q].1));
        }
    }
    assert forall|r: int| 0 <= r < roots.len() implies owed(
        after,
        waiting,
        (#[trigger] roots[r]).0,
        roots[r].1,
    ) by {
        lemma_owed_step(nodes, queue, node, extra, roots[r].0, roots[r].1);
    }
    assert forall|k: int| 0 <= k < after.len() implies #[trigger] settled(
        after,
        waiting,
        k,
        base_path,
        load,
    ) by {
        if k < nodes.len() {
            assert(settled(nodes, queue, k, base_path, load));
            lemma_settled_step(nodes, queue, node, extra, k, base_path, load);
        }
    }
}

/// A pull in which nothing can go wrong does not fail.
pub proof fn lemma_dependable_pull<C, R, L>(
    roots: Seq<(Seq<char>, DetailsView)>,
    root_path: Seq<char>,
    clone: C,
    run: R,
    load: L,
    error: LingoError,
) where
    C: Fn(GitUrl, &str, Option<GitLock>) -> Result<Option<String>, GitCloneError>,
    R: Fn(&Action) -> BuildResult,
    L: Fn(&str) -> Result<PackageDirectory, LingoError>,

    requires
        dependable(roots, clone, run, load),
    ensures
        !pull_failed(roots, root_path, clone, run, load, error),
{
    let base_path = joined(root_path, LIBRARY_DIRECTORY@);
    if pull_failed(roots, root_path, clone, run, load, error) {
        if action_failed(
            run,
            ActionView::CreateDirAll(base_path),
            ActionView::CreateDirAll(base_path),
            error,
        ) {
            lemma_dependable_action(
                roots,
                clone,
                run,
                load,
                ActionView::CreateDirAll(base_path),
                ActionView::CreateDirAll(base_path),
                error,
            );
        } else {
            let (nodes, queue) = choose|nodes: Seq<NodeView>, queue: Seq<(Seq<char>, DetailsView)>|
                {
                    &&& #[trigger] pulling(nodes, queue, roots, base_path, load)
                    &&& queue.len() > 0
                    &&& round_failed(
                        nodes,
                        queue.last().0,
                        queue.last().1,
                        base_path,
                        clone,
                        run,
                        load,
                        error,
                    )
                };
            lemma_dependable_round(nodes, queue, roots, base_path, clone, run, load, error);
        }
    }
}

/// Where nothing can go wrong no action fails.
proof fn lemma_dependable_action<C, R, L>(
    roots: Seq<(Seq<char>, DetailsView)>,
    clone: C,
    run: R,
    load: L,
    first: ActionView,
    second: ActionView,
    error: LingoError,
) where
    C: Fn(GitUrl, &str, Option<GitLock>) -> Result<Option<String>, GitCloneError>,
    R: Fn(&Action) -> BuildResult,
    L: Fn(&str) -> Result<PackageDirectory, LingoError>,

    requires
        dependable(roots, clone, run, load),
    ensures
        !action_failed(run, first, second, error),
{
    if action_failed(run, first, second, error) {
        let action = choose|action: Action|
            (action@ == first || action@ == second) && #[trigger] call_ensures(
                run,
                (&action,),
                Err::<(), LingoError>(error),
            );
        assert(call_ensures(run, (&action,), Err::<(), LingoError>(error)));
    }
}

/// Where nothing can go wrong the requirement of a dependency that was
/// asked for can come up.
proof fn lemma_asked_is_wanted<L>(
    nodes: Seq<NodeView>,
    roots: Seq<(Seq<char>, DetailsView)>,
    base_path: Seq<char>,
    load: L,
    name: Seq<char>,
    request: DetailsView,
) where L: Fn(&str) -> Result<PackageDirectory, LingoError>
    requires
        asked(nodes, roots, base_path, load, name, request),
    ensures
        wanted(roots, load, request.version),
{
    if exists|r: int| 0 <= r < roots.len() && (#[trigger] roots[r]) == (name, request) {
        let r = choose|r: int| 0 <= r < roots.len() && (#[trigger] roots[r]) == (name, request);
        assert(roots[r].1.version == request.version);
    } else {
        let k = choose|k: int|
            0 <= k < nodes.len() && declares(#[trigger] nodes[k], base_path, load, name, request);
        let node = nodes[k];
        let (temporary, directory, d) = choose|temporary: &str, directory: PackageDirectory, d: int|
            temporary@ == joined(base_path, "temporary"@) && #[trigger] call_ensures(
                load,
                (temporary,),
                Ok::<PackageDirectory, LingoError>(directory),
            ) && acceptable(node.package, directory) && node == node_of(
                node.name,
                node.package,
                base_path,
                directory,
            ) && 0 <= d < directory.config.dependencies@.len() && (#[trigger] request_views(
                directory.config.dependencies@,
            )[d]) == (name, request);
        assert(call_ensures(load, (temporary,), Ok::<PackageDirectory, LingoError>(directory)));
        assert(request_views(directory.config.dependencies@)[d].1.version == request.version);
    }
}

/// Where nothing can go wrong no round of the pull fails.
proof fn lemma_dependable_round<C, R, L>(
    nodes: Seq<NodeView>,
    queue: Seq<(Seq<char>, DetailsView)>,
    roots: Seq<(Seq<char>, DetailsView)>,
    base_path: Seq<char>,
    clone: C,
    run: R,
    load: L,
    error: LingoError,
) where
    C: Fn(GitUrl, &str, Option<GitLock>) -> Result<Option<String>, GitCloneError>,
    R: Fn(&Action) -> BuildResult,
    L: Fn(&str) -> Result<PackageDirectory, LingoError>,

    requires
        dependable(roots, clone, run, load),
        pulling(nodes, queue, roots, base_path, load),
        queue.len() > 0,
    ensures
        !round_failed(nodes, queue.last().0, queue.last().1, base_path, clone, run, load, error),
{
    reveal(pulling);
    let name = queue.last().0;
    let request = queue.last().1;
    let temporary = joined(base_path, "temporary"@);
    assert(asked(nodes, roots, base_path, load, name, request));
    lemma_asked_is_wanted(nodes, roots, base_path, load, name, request);
    if round_failed(nodes, name, request, base_path, clone, run, load, error) {
        if exists|j: int|
            0 <= j < nodes.len() && same_origin(#[trigger] nodes[j], name, request)
                && !requirement_admits(request.version, nodes[j].version) {
            let j = choose|j: int|
                0 <= j < nodes.len() && same_origin(#[trigger] nodes[j], name, request)
                    && !requirement_admits(request.version, nodes[j].version);
            assert(settled(nodes, queue, j, base_path, load));
            let (place, directory) = choose|place: &str, directory: PackageDirectory|
                place@ == joined(base_path, "temporary"@) && #[trigger] call_ensures(
                    load,
                    (place,),
                    Ok::<PackageDirectory, LingoError>(directory),
                ) && acceptable(nodes[j].package, directory) && nodes[j] == node_of(
                    nodes[j].name,
                    nodes[j].package,
                    base_path,
                    directory,
                ) && forall|d: int|
                    0 <= d < directory.config.dependencies@.len() ==> owed(
                        nodes,
                        queue,
                        (#[trigger] directory.config.dependencies@[d]).0@,
                        directory.config.dependencies@[d].1@,
                    );
            assert(call_ensures(load, (place,), Ok::<PackageDirectory, LingoError>(directory)));
            assert(nodes[j].version == directory.config.package.version@);
        } else {
            assert(fetch_refused(request, base_path, clone, run, load, error));
            lemma_dependable_action(
                roots,
                clone,
                run,
                load,
                ActionView::CreateDirAll(base_path),
                ActionView::CreateDirAll(temporary),
                error,
            );
            assert forall|after: DetailsView| !#[trigger] request.fetched(
                temporary,
                clone,
                run,
                after,
                Err::<(), LingoError>(error),
            ) by {
                lemma_dependable_fetch(roots, clone, run, load, request, temporary, after, error);
            }
            if exists|after: DetailsView, place: &str, loaded: PackageDirectory|
                #[trigger] request.fetched(temporary, clone, run, after, Ok::<(), LingoError>(()))
                    && place@ == temporary && #[trigger] call_ensures(
                    load,
                    (place,),
                    Ok::<PackageDirectory, LingoError>(loaded),
                ) {
                assert forall|after: DetailsView, place: &str, loaded: PackageDirectory|
                    #[trigger] request.fetched(
                        temporary,
                        clone,
                        run,
                        after,
                        Ok::<(), LingoError>(()),
                    ) && place@ == temporary && #[trigger] call_ensures(
                        load,
                        (place,),
                        Ok::<PackageDirectory, LingoError>(loaded),
                    ) implies acceptable(after, loaded) && !action_failed(
                    run,
                    ActionView::CreateDirAll(
                        joined(base_path, hex_of(checksum_of(entry_views(loaded.entries@)))),
                    ),
                    ActionView::CopyDirAll {
                        from: temporary,
                        to: joined(base_path, hex_of(checksum_of(entry_views(loaded.entries@)))),
                    },
                    error,
                ) by {
                    assert(after.version == request.version);
                    lemma_dependable_action(
                        roots,
                        clone,
                        run,
                        load,
                        ActionView::CreateDirAll(
                            joined(base_path, hex_of(checksum_of(entry_views(loaded.entries@)))),
                        ),
                        ActionView::CopyDirAll {
                            from: temporary,
                            to: joined(
                                base_path,
                                hex_of(checksum_of(entry_views(loaded.entries@))),
                            ),
                        },
                        error,
                    );
                }
            }
        }
    }
}

/// Where nothing can go wrong no fetch fails.
proof fn lemma_dependable_fetch<C, R, L>(
    roots: Seq<(Seq<char>, DetailsView)>,
    clone: C,
    run: R,
    load: L,
    request: DetailsView,
    library_path: Seq<char>,
    after: DetailsView,
    error: LingoError,
) where
    C: Fn(GitUrl, &str, Option<GitLock>) -> Result<Option<String>, GitCloneError>,
    R: Fn(&Action) -> BuildResult,
    L: Fn(&str) -> Result<PackageDirectory, LingoError>,

    requires
        dependable(roots, clone, run, load),
    ensures
        !request.fetched(library_path, clone, run, after, Err::<(), LingoError>(error)),
{
    let result = Err::<(), LingoError>(error);
    if request.fetched(library_path, clone, run, after, result) {
        match request.mutual_exclusive {
            SourceView::Path(path) => {
                let action = choose|action: Action|
                    #[trigger] action@ == (ActionView::CopyDirAll { from: path, to: library_path })
                        && call_ensures(run, (&action,), result);
                assert(call_ensures(run, (&action,), result));
            },
            SourceView::Git(url) => {
                let (git_url, target, lock, outcome) = choose|
                    git_url: GitUrl,
                    target: &str,
                    lock: Option<GitLock>,
                    outcome: Result<Option<String>, GitCloneError>,
                |
                    git_url@ == url && target@ == library_path && optional_lock(lock)
                        == request.git_tag && #[trigger] call_ensures(
                        clone,
                        (git_url, target, lock),
                        outcome,
                    ) && match outcome {
                        Ok(rev) => result is Ok && after == (DetailsView {
                            git_rev: optional_text(rev),
                            ..request
                        }),
                        Err(error) => after == request && (result matches Err(
                            LingoError::FetchFailed(reason),
                        ) && reason@ == error.0@),
                    };
                assert(call_ensures(clone, (git_url, target, lock), outcome));
            },
            SourceView::TarBall(_) => {},
        }
    }
}

/// When the queue is empty every dependency of the project is answered by
/// a node and every node is settled without anything waiting.
proof fn lemma_pull_end<L>(
    nodes: Seq<NodeView>,
    roots: Seq<(Seq<char>, DetailsView)>,
    base_path: Seq<char>,
    load: L,
) where L: Fn(&str) -> Result<PackageDirectory, LingoError>
    requires
        pulling(nodes, Seq::empty(), roots, base_path, load),
    ensures
        forall|r: int| 0 <= r < roots.len() ==> covers(nodes, (#[trigger] roots[r]).0, roots[r].1),
        forall|k: int|
            0 <= k < nodes.len() ==> #[trigger] settled(nodes, Seq::empty(), k, base_path, load),
        fetched_once(nodes),
{
    reveal(pulling);
    let none = Seq::<(Seq<char>, DetailsView)>::empty();
    assert forall|r: int| 0 <= r < roots.len() implies covers(
        nodes,
        (#[trigger] roots[r]).0,
        roots[r].1,
    ) by {
        assert(owed(nodes, none, roots[r].0, roots[r].1));
    }
}

/// The first occurrences below `n` are positions below `n`, each the first
/// of its package.
proof fn lemma_first_occurrences_are_first(nodes: Seq<NodeView>, n: int, k: int)
    requires
        0 <= n <= nodes.len(),
        0 <= k < first_occurrences(nodes, n).len(),
    ensures
        0 <= first_occurrences(nodes, n)[k] < n,
        first_of_name(nodes, first_occurrences(nodes, n)[k]),
    decreases n,
{
    if n > 0 {
        let before = first_occurrences(nodes, n - 1);
        if k < before.len() {
            lemma_first_occurrences_are_first(nodes, n - 1, k);
        }
    }
}

/// The first occurrences below `n` are in rising order.
proof fn lemma_first_occurrences_rise(nodes: Seq<NodeView>, n: int, k: int, l: int)
    requires
        0 <= n <= nodes.len(),
        0 <= k < l < first_occurrences(nodes, n).len(),
    ensures
        first_occurrences(nodes, n)[k] < first_occurrences(nodes, n)[l],
    decreases n,
{
    if n > 0 {
        let before = first_occurrences(nodes, n - 1);
        if l < before.len() {
            lemma_first_occurrences_rise(nodes, n - 1, k, l);
        } else {
            lemma_first_occurrences_are_first(nodes, n - 1, k);
        }
    }
}

/// Every package that occurs below `n` has its first occurrence among the
/// first occurrences below `n`; the result is the place of that occurrence.
proof fn lemma_first_occurrences_cover(nodes: Seq<NodeView>, n: int, i: int) -> (k: int)
    requires
        0 <= i < n <= nodes.len(),
    ensures
        0 <= k < first_occurrences(nodes, n).len(),
        nodes[first_occurrences(nodes, n)[k]].name == nodes[i].name,
    decreases n,
{
    let before = first_occurrences(nodes, n - 1);
    if i < n - 1 {
        lemma_first_occurrences_cover(nodes, n - 1, i)
    } else if first_of_name(nodes, n - 1) {
        before.len() as int
    } else {
        let j = choose|j: int| 0 <= j < n - 1 && (#[trigger] nodes[j]).name == nodes[i].name;
        lemma_first_occurrences_cover(nodes, n - 1, j)
    }
}

/// What `flatten` selects holds exactly one node for every package.
pub proof fn lemma_selection_one_per_name(nodes: Seq<NodeView>, selection: Seq<NodeView>)
    requires
        is_selection(nodes, selection),
    ensures
        one_per_name(nodes, selection),
{
    let n = nodes.len() as int;
    let firsts = first_occurrences(nodes, n);
    assert forall|k: int| 0 <= k < selection.len() implies nodes.contains(#[trigger] selection[k])
        && selection[k].name == nodes[firsts[k]].name by {
        lemma_first_occurrences_are_first(nodes, n, k);
        assert(chosen_for(nodes, nodes[firsts[k]].name, selection[k]));
        let s = choose|s: int|
            #[trigger] selected(nodes, s) && nodes[s].name == nodes[firsts[k]].name && nodes[s]
                == selection[k];
        reveal(selected);
        reveal(newest);
        assert(nodes[s] == selection[k]);
    }
    assert forall|k: int, l: int| 0 <= k < l < selection.len() implies (#[trigger] selection[k]).name
        != (#[trigger] selection[l]).name by {
        lemma_first_occurrences_rise(nodes, n, k, l);
        lemma_first_occurrences_are_first(nodes, n, k);
        lemma_first_occurrences_are_first(nodes, n, l);
        assert(nodes[firsts[k]].name != nodes[firsts[l]].name);
    }
    assert forall|i: int| 0 <= i < nodes.len() implies exists|k: int|
        0 <= k < selection.len() && (#[trigger] selection[k]).name == (#[trigger] nodes[i]).name by {
        let k = lemma_first_occurrences_cover(nodes, n, i);
        assert(selection[k].name == nodes[i].name);
    }
}

/// The version of every node that `flatten` selects satisfies each
/// requirement that any node of the trees places on its package.
pub proof fn lemma_selection_satisfies_requirements(nodes: Seq<NodeView>, selection: Seq<NodeView>)
    requires
        is_selection(nodes, selection),
    ensures
        requirements_hold(nodes, selection),
{
    let firsts = first_occurrences(nodes, nodes.len() as int);
    assert forall|k: int, j: int|
        0 <= k < selection.len() && 0 <= j < nodes.len() && (#[trigger] nodes[j]).name
            == (#[trigger] selection[k]).name implies requirement_admits(
        nodes[j].package.version,
        selection[k].version,
    ) by {
        assert(chosen_for(nodes, nodes[firsts[k]].name, selection[k]));
        let s = choose|s: int|
            #[trigger] selected(nodes, s) && nodes[s].name == nodes[firsts[k]].name && nodes[s]
                == selection[k];
        reveal(selected);
        reveal(newest);
        assert(viable(nodes, s));
    }
}

/// No viable candidate of a package has a greater version than the node that
/// `flatten` selects for it.
pub proof fn lemma_selection_is_newest(nodes: Seq<NodeView>, selection: Seq<NodeView>)
    requires
        is_selection(nodes, selection),
    ensures
        forall|k: int, j: int|
            0 <= k < selection.len() && viable(nodes, j) && (#[trigger] nodes[j]).name
                == (#[trigger] selection[k]).name ==> !version_exceeds(
                nodes[j].version,
                selection[k].version,
            ),
{
    let firsts = first_occurrences(nodes, nodes.len() as int);
    assert forall|k: int, j: int|
        0 <= k < selection.len() && viable(nodes, j) && (#[trigger] nodes[j]).name
            == (#[trigger] selection[k]).name implies !version_exceeds(
        nodes[j].version,
        selection[k].version,
    ) by {
        assert(chosen_for(nodes, nodes[firsts[k]].name, selection[k]));
        let s = choose|s: int|
            #[trigger] selected(nodes, s) && nodes[s].name == nodes[firsts[k]].name && nodes[s]
                == selection[k];
        reveal(selected);
        reveal(newest);
        assert(newest(nodes, s));
    }
}

/// Where the order of versions is a strict order on the viable candidates
/// of a package, one of those among the first `n` nodes is exceeded by none
/// of them.
proof fn lemma_some_tops(nodes: Seq<NodeView>, name: Seq<char>, n: int, i: int) -> (m: int)
    requires
        orderly(nodes, name),
        0 <= i < n <= nodes.len(),
        viable(nodes, i),
        nodes[i].name == name,
    ensures
        tops(nodes, name, n, m),
    decreases n,
{
    let c = n - 1;
    if i == c {
        if exists|e: int| 0 <= e < c && viable(nodes, e) && (#[trigger] nodes[e]).name == name {
            let e = choose|e: int|
                0 <= e < c && viable(nodes, e) && (#[trigger] nodes[e]).name == name;
            let below = lemma_some_tops(nodes, name, c, e);
            lemma_tops_step(nodes, name, c, below)
        } else {
            c
        }
    } else {
        let below = lemma_some_tops(nodes, name, c, i);
        lemma_tops_step(nodes, name, c, below)
    }
}

/// One more node leaves a candidate on top: the new node where it is a
/// viable candidate that exceeds the one that was on top, else that one.
proof fn lemma_tops_step(nodes: Seq<NodeView>, name: Seq<char>, c: int, below: int) -> (m: int)
    requires
        orderly(nodes, name),
        0 <= c < nodes.len(),
        tops(nodes, name, c, below),
    ensures
        tops(nodes, name, c + 1, m),
{
    if viable(nodes, c) && nodes[c].name == name && version_exceeds(
        nodes[c].version,
        nodes[below].version,
    ) {
        assert forall|j: int|
            0 <= j < c + 1 && viable(nodes, j) && (#[trigger] nodes[j]).name
                == name implies !version_exceeds(nodes[j].version, nodes[c].version) by {
            if j < c && version_exceeds(nodes[j].version, nodes[c].version) {
                assert(version_exceeds(nodes[j].version, nodes[below].version));
            }
        }
        c
    } else {
        below
    }
}

/// Of the newest candidates of a package among the first `n` nodes one is
/// the last.
proof fn lemma_last_newest(nodes: Seq<NodeView>, m: int, n: int) -> (s: int)
    requires
        newest(nodes, m),
        0 <= m < n <= nodes.len(),
    ensures
        m <= s < n,
        newest(nodes, s),
        nodes[s].name == nodes[m].name,
        forall|j: int| s < j < n && newest(nodes, j) ==> (#[trigger] nodes[j]).name != nodes[m].name,
    decreases n - m,
{
    if n == m + 1 {
        m
    } else {
        let s = lemma_last_newest(nodes, m, n - 1);
        if newest(nodes, n - 1) && nodes[n - 1].name == nodes[m].name {
            n - 1
        } else {
            s
        }
    }
}

/// A package with a viable candidate has a selection, provided the order
/// of versions is a strict order on its viable candidates.
pub proof fn lemma_viable_is_resolvable(nodes: Seq<NodeView>, i: int)
    requires
        viable(nodes, i),
        orderly(nodes, nodes[i].name),
    ensures
        resolvable(nodes, nodes[i].name),
{
    let name = nodes[i].name;
    let m = lemma_some_tops(nodes, name, nodes.len() as int, i);
    assert(newest(nodes, m)) by {
        reveal(newest);
    }
    let s = lemma_last_newest(nodes, m, nodes.len() as int);
    assert(selected(nodes, s)) by {
        reveal(selected);
        reveal(newest);
    }
}

/// Where the requirements on a package admit none of the versions on offer,
/// nothing is selected for it.
pub proof fn lemma_unsatisfiable_is_not_resolvable(nodes: Seq<NodeView>, i: int)
    requires
        unsatisfiable(nodes, i),
    ensures
        !resolvable(nodes, nodes[i].name),
        forall|selection: Seq<NodeView>| !is_selection(nodes, selection),
{
    reveal(selected);
    reveal(newest);
    if resolvable(nodes, nodes[i].name) {
        let s = choose|s: int| #[trigger] selected(nodes, s) && nodes[s].name == nodes[i].name;
        assert(viable(nodes, s));
        assert(nodes[s].name == nodes[i].name);
    }
    assert forall|selection: Seq<NodeView>| !is_selection(nodes, selection) by {
        if is_selection(nodes, selection) {
            lemma_selection_one_per_name(nodes, selection);
            let k = choose|k: int|
                0 <= k < selection.len() && (#[trigger] selection[k]).name == nodes[i].name;
            let firsts = first_occurrences(nodes, nodes.len() as int);
            assert(chosen_for(nodes, nodes[firsts[k]].name, selection[k]));
            let s = choose|s: int|
                #[trigger] selected(nodes, s) && nodes[s].name == nodes[firsts[k]].name && nodes[s]
                    == selection[k];
            assert(selected(nodes, s) && nodes[s].name == nodes[i].name);
        }
    }
}

/// All nodes of the trees as one flat list of shallow copies.
fn aggregate_roots(root_nodes: &Vec<DependencyTreeNode>) -> (nodes: Vec<DependencyTreeNode>)
    ensures
        node_views(nodes@) == aggregate_all(root_nodes@),
        forall|i: int| 0 <= i < nodes@.len() ==> (#[trigger] nodes@[i]).dependencies@.len() == 0,
{
    let mut nodes: Vec<DependencyTreeNode> = Vec::new();
    assert(node_views(nodes@) =~= aggregate_all(root_nodes@.take(0)));
    let mut i: usize = 0;
    while i < root_nodes.len()
        invariant
            i <= root_nodes@.len(),
            node_views(nodes@) == aggregate_all(root_nodes@.take(i as int)),
            forall|k: int| 0 <= k < nodes@.len() ==> (#[trigger] nodes@[k]).dependencies@.len() == 0,
        decreases root_nodes@.len() - i,
    {
        let mut children = root_nodes[i].aggregate();
        let ghost before = nodes@;
        let ghost added = children@;
        nodes.append(&mut children);
        proof {
            let next = root_nodes@.take(i + 1);
            assert(next.drop_last() =~= root_nodes@.take(i as int));
            assert(next.last() == root_nodes@[i as int]);
            assert(node_views(before + added) =~= node_views(before) + node_views(added));
        }
        i += 1;
    }
    assert(root_nodes@.take(i as int) =~= root_nodes@);
    nodes
}

} // verus!
