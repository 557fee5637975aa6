use std::sync::Arc;
use vstd::prelude::*;

use crate::package::target_properties::texts;

verus! {

/// Everything that can go wrong while resolving dependencies or building apps.
#[derive(Debug)]
pub enum LingoError {
    /// An error that one combined build step produced for a whole group of apps.
    Shared(Arc<LingoError>),
    /// A build tool ran and reported failure: the command line and the exit
    /// status.
    CommandFailed(String, String),
    /// Apps were asked for by name that the project does not define.
    UnknownAppNames(Vec<String>),
    /// A project cannot be initialised in this directory.
    InvalidProjectLocation(String),
    /// Zephyr apps are built with west, not with this tool.
    UseWestBuildToBuildApp,
    /// The path of a main reactor does not name a file.
    InvalidMainReactor,
    /// A dependency does not export a library; holds the manifest's location.
    NoLibraryInLingoToml(String),
    /// A fetched package declares a version that its requirement rejects.
    LingoVersionMismatch(String),
    /// Nothing can be selected for the named package: no fetched candidate
    /// satisfies every requirement on it.
    NoViableVersion(String),
    /// The content of a locked package differs from its recorded checksum.
    ChecksumMismatch(String),
    /// A package source could not be cloned, copied or downloaded.
    FetchFailed(String),
    /// A manifest or a lock entry could not be understood.
    ManifestParse(String),
    /// An entry of a directory tree is neither file, link nor directory; holds
    /// the bytes of its path.
    UnsupportedFileType(Vec<u8>),
    /// The text is no url; it stands where a git or tarball source needs one.
    InvalidUrl(String),
    /// A lock entry names a source of a kind that cannot be fetched.
    UnsupportedSource(String),
    /// A git source is to be locked but has no revision; holds its url.
    MissingRevision(String),
    /// A source is to be locked whose text would not read back as the
    /// source: a git url with `#` in it, or a revision on a source that is
    /// not git; holds the uri.
    UnwritableSource(String),
    /// The code generator was not found.
    LfcNotFound,
    /// No backend builds apps of this language with this build system.
    UnsupportedBuildSystem,
    /// The batch was stopped by an earlier failure before this app was run.
    Aborted,
}

/// The outcome of one build step for one app.
pub type BuildResult = Result<(), LingoError>;

/// The first `n` of the texts, with `, ` between them.
pub open spec fn listed(names: Seq<Seq<char>>, n: int) -> Seq<char>
    decreases n,
{
    if n <= 0 {
        Seq::empty()
    } else if n == 1 {
        names[0]
    } else {
        listed(names, n - 1) + ", "@ + names[n - 1]
    }
}

/// The text that describes an error to the user.
pub open spec fn message_of(error: LingoError) -> Seq<char>
    decreases error,
{
    match error {
        LingoError::Shared(err) => message_of(*err),
        LingoError::CommandFailed(command, status) => "Command exited with status "@ + status@
            + ": "@ + command@,
        LingoError::UnknownAppNames(names) => "Unknown app names: "@ + listed(
            texts(names@),
            names@.len() as int,
        ),
        LingoError::InvalidProjectLocation(path) => "Cannot initialize repository in "@ + path@,
        LingoError::UseWestBuildToBuildApp => "Use `west lf-build` to build and run Zephyr programs."@,
        LingoError::InvalidMainReactor => "Not a valid path path to a file that contains a main reactor"@,
        LingoError::NoLibraryInLingoToml(path) => "A dependency was specified that doesn't export a library see "@
            + path@,
        LingoError::LingoVersionMismatch(message) => "Version specified in Lingo.toml doesn't match the version in the location "@
            + message@,
        LingoError::NoViableVersion(name) => "No version of the dependency satisfies every requirement: "@
            + name@,
        LingoError::ChecksumMismatch(name) => "The checksum of the dependency does not match the lock: "@
            + name@,
        LingoError::FetchFailed(reason) => "Fetching a dependency failed: "@ + reason@,
        LingoError::ManifestParse(name) => "Cannot read the manifest or lock entry of "@ + name@,
        LingoError::InvalidUrl(uri) => "Not a valid url: "@ + uri@,
        LingoError::UnsupportedSource(uri) => "Cannot fetch from this kind of source: "@ + uri@,
        LingoError::MissingRevision(uri) => "Expected a revision for the git source "@ + uri@,
        LingoError::UnwritableSource(uri) => "Cannot write this source to a lock: "@ + uri@,
        LingoError::UnsupportedFileType(_) => "Unsupported file type"@,
        LingoError::LfcNotFound => "LFC executable not found"@,
        LingoError::UnsupportedBuildSystem => "invalid combination of target and platform!"@,
        LingoError::Aborted => "The build was stopped by an earlier failure"@,
    }
}

/// Joins texts with `, ` between them.
pub fn join_names(names: &Vec<String>) -> (text: String)
    ensures
        text@ == listed(texts(names@), names@.len() as int),
{
    let mut text = String::new();
    let mut i: usize = 0;
    while i < names.len()
        invariant
            i <= names@.len(),
            text@ == listed(texts(names@), i as int),
        decreases names@.len() - i,
    {
        if i > 0 {
            text.append(", ");
        } else {
            assert(text@ + names@[0]@ =~= names@[0]@);
        }
        text.append(names[i].as_str());
        assert(texts(names@)[i as int] == names@[i as int]@);
        i += 1;
    }
    text
}

impl LingoError {
    /// The text that describes the error to the user.
    pub fn to_string(&self) -> (text: String)
        ensures
            text@ == message_of(*self),
        decreases self,
    {
        match self {
            LingoError::Shared(err) => err.to_string(),
            LingoError::CommandFailed(command, status) => {
                let mut text = "Command exited with status ".to_owned();
                text.append(status.as_str());
                text.append(": ");
                text.append(command.as_str());
                text
            },
            LingoError::UnknownAppNames(names) => {
                let mut text = "Unknown app names: ".to_owned();
                text.append(join_names(names).as_str());
                text
            },
            LingoError::InvalidProjectLocation(path) => {
                let mut text = "Cannot initialize repository in ".to_owned();
                text.append(path.as_str());
                text
            },
            LingoError::UseWestBuildToBuildApp => {
                "Use `west lf-build` to build and run Zephyr programs.".to_owned()
            },
            LingoError::InvalidMainReactor => {
                "Not a valid path path to a file that contains a main reactor".to_owned()
            },
            LingoError::NoLibraryInLingoToml(path) => {
                let mut text =
                    "A dependency was specified that doesn't export a library see ".to_owned();
                text.append(path.as_str());
                text
            },
            LingoError::LingoVersionMismatch(message) => {
                let mut text =
                    "Version specified in Lingo.toml doesn't match the version in the location ".to_owned();
                text.append(message.as_str());
                text
            },
            LingoError::NoViableVersion(name) => {
                let mut text =
                    "No version of the dependency satisfies every requirement: ".to_owned();
                text.append(name.as_str());
                text
            },
            LingoError::ChecksumMismatch(name) => {
                let mut text = "The checksum of the dependency does not match the lock: ".to_owned();
                text.append(name.as_str());
                text
            },
            LingoError::FetchFailed(reason) => {
                let mut text = "Fetching a dependency failed: ".to_owned();
                text.append(reason.as_str());
                text
            },
            LingoError::ManifestParse(name) => {
                let mut text = "Cannot read the manifest or lock entry of ".to_owned();
                text.append(name.as_str());
                text
            },
            LingoError::InvalidUrl(uri) => {
                let mut text = "Not a valid url: ".to_owned();
                text.append(uri.as_str());
                text
            },
            LingoError::UnsupportedSource(uri) => {
                let mut text = "Cannot fetch from this kind of source: ".to_owned();
                text.append(uri.as_str());
                text
            },
            LingoError::MissingRevision(uri) => {
                let mut text = "Expected a revision for the git source ".to_owned();
                text.append(uri.as_str());
                text
            },
            LingoError::UnwritableSource(uri) => {
                let mut text = "Cannot write this source to a lock: ".to_owned();
                text.append(uri.as_str());
                text
            },
            LingoError::UnsupportedFileType(_) => "Unsupported file type".to_owned(),
            LingoError::LfcNotFound => "LFC executable not found".to_owned(),
            LingoError::UnsupportedBuildSystem => {
                "invalid combination of target and platform!".to_owned()
            },
            LingoError::Aborted => "The build was stopped by an earlier failure".to_owned(),
        }
    }
}

} // verus!
