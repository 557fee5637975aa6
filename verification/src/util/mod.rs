//! Helpers that the rest of the crate shares.

pub mod analyzer;
pub mod errors;
pub mod path;
pub mod sha1dir;
pub mod text;

use vstd::prelude::*;

use crate::args::BuildArgs;
use crate::package::target_properties::texts;
use crate::util::errors::{BuildResult, LingoError};
use crate::WhichError;

verus! {

/// An effect on the file system or a run of a tool. The crate decides which
/// effects are due and in which order; a function that the caller hands in
/// performs them.
#[derive(Debug)]
pub enum Action {
    /// Create a directory and every directory above it that is missing.
    CreateDirAll(String),
    /// Remove a directory with everything in it.
    RemoveDirAll(String),
    /// Copy a directory with everything in it.
    CopyDirAll { from: String, to: String },
    /// Write a file, in place of what it held.
    WriteFile { path: String, content: String },
    /// Write to the end of an existing file.
    AppendToFile { path: String, content: String },
    /// Move a file.
    Rename { from: String, to: String },
    /// Run a program with arguments, in a directory if one is given.
    Run { program: String, args: Vec<String>, current_dir: Option<String> },
    /// Remove those of the named directories that exist below a root.
    DeleteSubdirs { root: String, subdirs: Vec<String> },
}

/// The mathematical value of an [`Action`].
pub enum ActionView {
    CreateDirAll(Seq<char>),
    RemoveDirAll(Seq<char>),
    CopyDirAll { from: Seq<char>, to: Seq<char> },
    WriteFile { path: Seq<char>, content: Seq<char> },
    AppendToFile { path: Seq<char>, content: Seq<char> },
    Rename { from: Seq<char>, to: Seq<char> },
    Run { program: Seq<char>, args: Seq<Seq<char>>, current_dir: Option<Seq<char>> },
    DeleteSubdirs { root: Seq<char>, subdirs: Seq<Seq<char>> },
}

impl View for Action {
    type V = ActionView;

    open spec fn view(&self) -> ActionView {
        match self {
            Action::CreateDirAll(path) => ActionView::CreateDirAll(path@),
            Action::RemoveDirAll(path) => ActionView::RemoveDirAll(path@),
            Action::CopyDirAll { from, to } => ActionView::CopyDirAll { from: from@, to: to@ },
            Action::WriteFile { path, content } => ActionView::WriteFile {
                path: path@,
                content: content@,
            },
            Action::AppendToFile { path, content } => ActionView::AppendToFile {
                path: path@,
                content: content@,
            },
            Action::Rename { from, to } => ActionView::Rename { from: from@, to: to@ },
            Action::Run { program, args, current_dir } => ActionView::Run {
                program: program@,
                args: texts(args@),
                current_dir: match current_dir {
                    Some(dir) => Some(dir@),
                    None => None,
                },
            },
            Action::DeleteSubdirs { root, subdirs } => ActionView::DeleteSubdirs {
                root: root@,
                subdirs: texts(subdirs@),
            },
        }
    }
}

/// Whether the search for the manifest of a project passed the directory
/// that lies `level` levels above `input_path`: it was probed as a
/// directory, and no file `Lingo.toml` was found in it.
pub open spec fn manifest_missed<D, F>(input_path: Seq<char>, is_dir: D, is_file: F, level: int) -> bool where
    D: Fn(&str) -> bool,
    F: Fn(&str) -> bool,
 {
    exists|directory: &str, manifest: &str|
        {
            &&& crate::util::path::ancestor_of(input_path, level) == Some(directory@)
            &&& manifest@ == crate::util::path::joined(directory@, "Lingo.toml"@)
            &&& #[trigger] call_ensures(is_dir, (directory,), true)
            &&& #[trigger] call_ensures(is_file, (manifest,), false)
        }
}

/// Whether `found` is the manifest that the search finds `levels` levels
/// above `input_path`: the directory there was probed as a directory, and
/// it holds a file `Lingo.toml`, whose path is `found`.
pub open spec fn manifest_found<D, F>(
    input_path: Seq<char>,
    is_dir: D,
    is_file: F,
    found: Seq<char>,
    levels: int,
) -> bool where D: Fn(&str) -> bool, F: Fn(&str) -> bool {
    exists|directory: &str, manifest: &str|
        {
            &&& crate::util::path::ancestor_of(input_path, levels) == Some(directory@)
            &&& manifest@ == crate::util::path::joined(directory@, "Lingo.toml"@)
            &&& found == manifest@
            &&& #[trigger] call_ensures(is_dir, (directory,), true)
            &&& #[trigger] call_ensures(is_file, (manifest,), true)
        }
}

/// Whether the search ends without a manifest `levels` levels above
/// `input_path`: what lies there was probed and is no directory, or the
/// directory there holds no manifest and has no directory above it.
pub open spec fn search_ended<D, F>(input_path: Seq<char>, is_dir: D, is_file: F, levels: int) -> bool where
    D: Fn(&str) -> bool,
    F: Fn(&str) -> bool,
 {
    ||| exists|path: &str|
        crate::util::path::ancestor_of(input_path, levels) == Some(path@) && #[trigger] call_ensures(
            is_dir,
            (path,),
            false,
        )
    ||| manifest_missed(input_path, is_dir, is_file, levels) && crate::util::path::ancestor_of(
        input_path,
        levels + 1,
    ) is None
}

/// Whether `result` is what the search gives after it went up `levels`
/// levels from `input_path`: every directory below that level was passed
/// without a manifest, and at that level the manifest was found or the
/// search ended.
pub open spec fn searched<D, F>(
    input_path: Seq<char>,
    is_dir: D,
    is_file: F,
    result: Option<String>,
    levels: int,
) -> bool where D: Fn(&str) -> bool, F: Fn(&str) -> bool {
    &&& 0 <= levels
    &&& forall|below: int|
        0 <= below < levels ==> #[trigger] manifest_missed(input_path, is_dir, is_file, below)
    &&& match result {
        Some(found) => manifest_found(input_path, is_dir, is_file, found@, levels),
        None => search_ended(input_path, is_dir, is_file, levels),
    }
}

/// Finds the manifest of the project that a directory belongs to.
///
/// The search starts in `input_path`, which has to be absolute, and goes
/// up directory by directory. It ends at the first directory that holds a
/// file `Lingo.toml`, at the first path that is no directory, or at the
/// root.
pub fn find_toml<D, F>(input_path: &str, is_dir: &D, is_file: &F) -> (result: Option<String>) where
    D: Fn(&str) -> bool,
    F: Fn(&str) -> bool,

    requires
        forall|path: &str| call_requires(*is_dir, (path,)),
        forall|path: &str| call_requires(*is_file, (path,)),
    ensures
        exists|levels: int| #[trigger] searched(input_path@, *is_dir, *is_file, result, levels),
{
    let mut path = input_path;
    let ghost mut levels: int = 0;
    loop
        invariant
            forall|path: &str| call_requires(*is_dir, (path,)),
            forall|path: &str| call_requires(*is_file, (path,)),
            0 <= levels,
            crate::util::path::ancestor_of(input_path@, levels) == Some(path@),
            forall|below: int|
                0 <= below < levels ==> #[trigger] manifest_missed(
                    input_path@,
                    *is_dir,
                    *is_file,
                    below,
                ),
        decreases path@.len(),
    {
        if !is_dir(path) {
            proof {
                assert(call_ensures(*is_dir, (path,), false));
                assert(search_ended(input_path@, *is_dir, *is_file, levels));
                assert(searched(input_path@, *is_dir, *is_file, None, levels));
            }
            return None;
        }
        let manifest = crate::util::path::join(path, "Lingo.toml");
        let candidate = manifest.as_str();
        if is_file(candidate) {
            let ghost text = manifest@;
            proof {
                assert(call_ensures(*is_dir, (path,), true));
                assert(call_ensures(*is_file, (candidate,), true));
                assert(manifest_found(input_path@, *is_dir, *is_file, text, levels));
            }
            let result = Some(manifest);
            assert(result matches Some(found) && found@ == text);
            assert(searched(input_path@, *is_dir, *is_file, result, levels));
            return result;
        }
        proof {
            assert(call_ensures(*is_dir, (path,), true));
            assert(call_ensures(*is_file, (candidate,), false));
            assert(manifest_missed(input_path@, *is_dir, *is_file, levels));
        }
        match crate::util::path::parent(path) {
            Some(above) => {
                proof {
                    levels = levels + 1;
                }
                path = above;
            },
            None => {
                // cannot pop more
                proof {
                    assert(search_ended(input_path@, *is_dir, *is_file, levels));
                    assert(searched(input_path@, *is_dir, *is_file, None, levels));
                }
                return None;
            },
        }
    }
}

/// The values of a list of actions.
pub open spec fn action_views(actions: Seq<Action>) -> Seq<ActionView> {
    actions.map_values(|action: Action| action@)
}

/// Whether `result` is what running the actions leaves when the first
/// `done` of them succeed: success where these are all, else the failure of
/// the action that comes next.
pub open spec fn performed_upto<R>(actions: Seq<Action>, run: R, result: BuildResult, done: int) -> bool where
    R: Fn(&Action) -> BuildResult,
 {
    &&& 0 <= done <= actions.len()
    &&& forall|i: int|
        0 <= i < done ==> call_ensures(run, (&#[trigger] actions[i],), Ok::<(), LingoError>(()))
    &&& if done == actions.len() {
        result is Ok
    } else {
        result is Err && call_ensures(run, (&actions[done],), result)
    }
}

/// Whether `result` is what running the actions in order leaves: success
/// after every action has succeeded, or the failure of the first action
/// that failed, behind which no action is run.
pub open spec fn performed<R>(actions: Seq<Action>, run: R, result: BuildResult) -> bool where
    R: Fn(&Action) -> BuildResult,
 {
    exists|done: int| #[trigger] performed_upto(actions, run, result, done)
}

/// Whether `outcome` is what carrying out a plan leaves: what running its
/// actions leaves, or `InvalidMainReactor` where there is no plan.
pub open spec fn outcome_of<R>(plan: Option<Seq<ActionView>>, run: R, outcome: BuildResult) -> bool where
    R: Fn(&Action) -> BuildResult,
 {
    match plan {
        Some(views) => exists|actions: Seq<Action>|
            #[trigger] action_views(actions) == views && performed(actions, run, outcome),
        None => outcome matches Err(error) && error is InvalidMainReactor,
    }
}

/// Runs actions in order and stops at the first that fails.
pub fn run_all<R>(actions: &Vec<Action>, run: &R) -> (result: BuildResult) where
    R: Fn(&Action) -> BuildResult,

    requires
        forall|action: &Action| call_requires(*run, (action,)),
    ensures
        performed(actions@, *run, result),
{
    let mut i: usize = 0;
    while i < actions.len()
        invariant
            i <= actions@.len(),
            forall|action: &Action| call_requires(*run, (action,)),
            forall|k: int|
                0 <= k < i ==> call_ensures(
                    *run,
                    (&#[trigger] actions@[k],),
                    Ok::<(), LingoError>(()),
                ),
        decreases actions@.len() - i,
    {
        let outcome = run(&actions[i]);
        match outcome {
            Ok(done) => {
                assert(done == ());
            },
            Err(error) => {
                assert(call_ensures(*run, (&actions@[i as int],), outcome));
                assert(performed_upto(actions@, *run, outcome, i as int));
                return Err(error);
            },
        }
        i += 1;
    }
    assert(performed_upto(actions@, *run, Ok::<(), LingoError>(()), i as int));
    Ok(())
}

/// The names of a list of texts.
pub fn owned_texts(list: &[&str]) -> (owned: Vec<String>)
    ensures
        texts(owned@) == list@.map_values(|text: &str| text@),
{
    let mut owned: Vec<String> = Vec::new();
    let mut i: usize = 0;
    while i < list.len()
        invariant
            i <= list@.len(),
            owned@.len() == i,
            forall|k: int| 0 <= k < i ==> (#[trigger] owned@[k])@ == list@[k]@,
        decreases list@.len() - i,
    {
        owned.push(list[i].to_owned());
        i += 1;
    }
    assert(texts(owned@) =~= list@.map_values(|text: &str| text@));
    owned
}

/// Removes those of the named directories that exist below `path_root`.
pub fn delete_subdirs<R>(path_root: &str, subdirs: &[&str], run: &R) -> (result: BuildResult) where
    R: Fn(&Action) -> BuildResult,

    requires
        forall|action: &Action| call_requires(*run, (action,)),
    ensures
        exists|action: Action|
            #[trigger] action@ == (ActionView::DeleteSubdirs {
                root: path_root@,
                subdirs: subdirs@.map_values(|text: &str| text@),
            }) && call_ensures(*run, (&action,), result),
{
    let action = Action::DeleteSubdirs { root: path_root.to_owned(), subdirs: owned_texts(subdirs) };
    let result = run(&action);
    assert(action@ == (ActionView::DeleteSubdirs {
        root: path_root@,
        subdirs: subdirs@.map_values(|text: &str| text@),
    }));
    result
}

/// The directories that a build leaves below the output root of an app.
pub open spec fn build_artifacts() -> Seq<Seq<char>> {
    seq!["bin"@, "include"@, "src-gen"@, "lib64"@, "share"@, "build"@]
}

/// Removes what a build has left below `out_dir`.
pub fn default_build_clean<R>(out_dir: &str, run: &R) -> (result: BuildResult) where
    R: Fn(&Action) -> BuildResult,

    requires
        forall|action: &Action| call_requires(*run, (action,)),
    ensures
        exists|action: Action|
            #[trigger] action@ == (ActionView::DeleteSubdirs {
                root: out_dir@,
                subdirs: build_artifacts(),
            }) && call_ensures(*run, (&action,), result),
{
    let subdirs = ["bin", "include", "src-gen", "lib64", "share", "build"];
    assert(subdirs@.map_values(|text: &str| text@) =~= build_artifacts());
    delete_subdirs(out_dir, subdirs.as_slice(), run)
}

/// Where the code generator is: at the path that the options name, provided
/// `present` finds it there, and without such an option where `which`
/// finds `lfc` on the search path.
pub fn find_lfc_exec<E, W>(args: &BuildArgs, present: &E, which: &W) -> (result: Result<
    String,
    LingoError,
>) where E: Fn(&str) -> bool, W: Fn(&str) -> Result<String, WhichError>
    requires
        forall|path: &str| call_requires(*present, (path,)),
        forall|binary: &str| call_requires(*which, (binary,)),
    ensures
        match args.lfc {
            Some(lfc) => exists|path: &str, found: bool|
                path@ == lfc@ && #[trigger] call_ensures(*present, (path,), found) && match result {
                    Ok(exec) => found && exec@ == lfc@,
                    Err(error) => !found && error is LfcNotFound,
                },
            None => exists|binary: &str, found: Result<String, WhichError>|
                binary@ == "lfc"@ && #[trigger] call_ensures(*which, (binary,), found)
                    && match result {
                    Ok(exec) => found == Ok::<String, WhichError>(exec),
                    Err(error) => found is Err && error is LfcNotFound,
                },
        },
{
    match &args.lfc {
        Some(lfc) => {
            let path = lfc.as_str();
            let found = present(path);
            assert(call_ensures(*present, (path,), found));
            if found {
                return Ok(lfc.clone());
            }
        },
        None => {
            let found = which("lfc");
            assert(call_ensures(*which, ("lfc",), found));
            match found {
                Ok(lfc) => {
                    return Ok(lfc);
                },
                Err(_) => {},
            }
        },
    }
    Err(LingoError::LfcNotFound)
}

} // verus!
