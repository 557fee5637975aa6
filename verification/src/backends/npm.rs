//! Building TypeScript apps with npm.

use vstd::prelude::*;

use crate::backends::cmake_c::{executable_of, perform};
use crate::backends::lfc::{codegen_step, LFC};
use crate::backends::{
    lemma_continued_transitive, lemma_mapped_by, lemma_mapped_continues, BatchBackend,
    BatchBuildResults, BatchView, BuildCommandOptions, BuildProfile, CommandSpec,
};
use crate::package::target_properties::texts;
use crate::package::App;
use crate::util::errors::{BuildResult, LingoError};
use crate::util::path::{
    behind_src, below, file_stem, file_stem_of, join, joined, skip_to_src, strip_extension,
    strip_prefix, without_extension,
};
use crate::util::text::concat;
use crate::util::{
    action_views, build_artifacts, default_build_clean, delete_subdirs, outcome_of, Action,
    ActionView,
};

verus! {

/// Builds TypeScript apps with npm.
pub struct Npm;

/// How a package manager for TypeScript is called.
#[derive(Clone, Copy, Debug)]
pub struct TypeScriptToolCommands {
    pub binary_name: &'static str,
    pub install_command: &'static str,
    pub release_build_argument: &'static str,
}

/// Where the main reactor of an app lies below the `src` directory of its
/// project, without the extension of its file. The main reactor must lie
/// in the project, below a directory named `src`.
pub open spec fn location_below_src(app: App) -> Option<Seq<char>> {
    match below(app.main_reactor@, app.root_path@) {
        Some(relative) => match behind_src(relative) {
            Some(location) => Some(without_extension(location)),
            None => None,
        },
        None => None,
    }
}

/// The arguments of a call, with the argument for release builds behind
/// them where the profile is release.
pub open spec fn with_release(arguments: Seq<Seq<char>>, profile: BuildProfile, release: Seq<char>) -> Seq<
    Seq<char>,
> {
    if profile == BuildProfile::Release {
        arguments.push(release)
    } else {
        arguments
    }
}

/// One run of the package manager in the folder of the generated code of
/// an app. An app without such a folder has no plan.
pub open spec fn tool_plan(
    app: App,
    options: BuildCommandOptions,
    commands: TypeScriptToolCommands,
    arguments: Seq<Seq<char>>,
) -> Option<Seq<ActionView>> {
    match location_below_src(app) {
        Some(location) => Some(
            seq![
                ActionView::Run {
                    program: commands.binary_name@,
                    args: with_release(arguments, options.profile, commands.release_build_argument@),
                    current_dir: Some(joined(joined(app.output_root@, "src-gen"@), location)),
                },
            ],
        ),
        None => None,
    }
}

/// What is left to do once an app is built: the folder of executables is
/// created and the script that was built is moved to the place of the
/// executable. An app without a folder of generated code, or whose main
/// reactor names no file, has no plan.
pub open spec fn finish_plan(app: App) -> Option<Seq<ActionView>> {
    match (file_stem_of(app.main_reactor@), location_below_src(app)) {
        (Some(name), Some(location)) => Some(
            seq![
                ActionView::CreateDirAll(joined(app.output_root@, "bin"@)),
                ActionView::Rename {
                    from: joined(
                        joined(joined(joined(app.output_root@, "src-gen"@), location), "dist"@),
                        name + ".js"@,
                    ),
                    to: executable_of(app),
                },
            ],
        ),
        _ => None,
    }
}

/// Where the main reactor of an app lies below the `src` directory.
pub fn extract_location(app: &App) -> (result: Result<String, LingoError>)
    ensures
        match result {
            Ok(location) => location_below_src(*app) == Some(location@),
            Err(error) => location_below_src(*app) is None && error is InvalidMainReactor,
        },
{
    let output_dir = match strip_prefix(app.main_reactor.as_str(), app.root_path.as_str()) {
        Some(output_dir) => output_dir,
        None => {
            return Err(LingoError::InvalidMainReactor);
        },
    };
    let behind = match skip_to_src(output_dir) {
        Some(behind) => behind,
        None => {
            return Err(LingoError::InvalidMainReactor);
        },
    };
    Ok(strip_extension(behind).to_owned())
}

/// The name of the file of the main reactor of an app.
pub fn extract_name(app: &App) -> (result: Result<String, LingoError>)
    ensures
        match result {
            Ok(name) => file_stem_of(app.main_reactor@) == Some(name@),
            Err(error) => file_stem_of(app.main_reactor@) is None && error is InvalidMainReactor,
        },
{
    match file_stem(app.main_reactor.as_str()) {
        Some(value) => Ok(value.to_owned()),
        None => Err(LingoError::InvalidMainReactor),
    }
}

/// The plan of one run of the package manager for an app.
pub fn plan_tool(
    app: &App,
    options: &BuildCommandOptions,
    commands: &TypeScriptToolCommands,
    arguments: &[&str],
) -> (result: Result<Vec<Action>, LingoError>)
    ensures
        match result {
            Ok(plan) => tool_plan(
                *app,
                *options,
                *commands,
                arguments@.map_values(|text: &str| text@),
            ) == Some(action_views(plan@)),
            Err(error) => location_below_src(*app) is None && error is InvalidMainReactor,
        },
{
    let src_postfix = match extract_location(app) {
        Ok(location) => location,
        Err(error) => {
            return Err(error);
        },
    };
    let path = join(join(app.output_root.as_str(), "src-gen").as_str(), src_postfix.as_str());
    let mut args = crate::util::owned_texts(arguments);
    if options.profile == BuildProfile::Release {
        let ghost before = texts(args@);
        args.push(commands.release_build_argument.to_owned());
        assert(texts(args@) =~= before.push(commands.release_build_argument@));
    }
    let mut plan: Vec<Action> = Vec::new();
    plan.push(
        Action::Run { program: commands.binary_name.to_owned(), args, current_dir: Some(path) },
    );
    assert(action_views(plan@) =~= tool_plan(
        *app,
        *options,
        *commands,
        arguments@.map_values(|text: &str| text@),
    ).unwrap());
    Ok(plan)
}

/// The plan of what is left to do once an app is built.
pub fn plan_finish(app: &App) -> (result: Result<Vec<Action>, LingoError>)
    ensures
        match result {
            Ok(plan) => finish_plan(*app) == Some(action_views(plan@)),
            Err(error) => finish_plan(*app) is None && error is InvalidMainReactor,
        },
{
    let file_name = match extract_name(app) {
        Ok(name) => name,
        Err(error) => {
            return Err(error);
        },
    };
    // path after src
    let src_postfix = match extract_location(app) {
        Ok(location) => location,
        Err(error) => {
            return Err(error);
        },
    };
    let generated = join(join(app.output_root.as_str(), "src-gen").as_str(), src_postfix.as_str());
    let script = concat(file_name.as_str(), ".js");
    let path = join(join(generated.as_str(), "dist").as_str(), script.as_str());
    let mut plan: Vec<Action> = Vec::new();
    plan.push(Action::CreateDirAll(join(app.output_root.as_str(), "bin")));
    // cleanup: rename executable to match the app name
    plan.push(Action::Rename { from: path, to: app.executable_path() });
    assert(action_views(plan@) =~= finish_plan(*app).unwrap());
    Ok(plan)
}

/// The outcomes that one run of the package manager for an app can have.
pub open spec fn tool_step<R>(
    options: BuildCommandOptions,
    commands: TypeScriptToolCommands,
    arguments: Seq<Seq<char>>,
    run: R,
) -> spec_fn(App, BuildResult) -> bool where R: Fn(&Action) -> BuildResult {
    |app: App, outcome: BuildResult|
        outcome_of(tool_plan(app, options, commands, arguments), run, outcome)
}

/// The arguments with which the packages of an app are installed.
pub open spec fn install_arguments(commands: TypeScriptToolCommands) -> Seq<Seq<char>> {
    seq![commands.install_command@]
}

/// The arguments with which an app is built.
pub open spec fn build_arguments() -> Seq<Seq<char>> {
    seq!["run"@, "build"@]
}

/// The outcomes that what is left to do once an app is built can have.
pub open spec fn finish_step<R>(run: R) -> spec_fn(App, BuildResult) -> bool where
    R: Fn(&Action) -> BuildResult,
 {
    |app: App, outcome: BuildResult| outcome_of(finish_plan(app), run, outcome)
}

/// Whether `after` is the batch `before` after a build of TypeScript apps
/// with a package manager: the batch keeps going as the options say, the
/// code of every app is generated, and unless only code is asked for, the
/// packages of each app are installed, the app is built, and its script is
/// moved to the place of the executable.
pub open spec fn built<R>(
    before: BatchView,
    options: BuildCommandOptions,
    commands: TypeScriptToolCommands,
    run: R,
    after: BatchView,
) -> bool where R: Fn(&Action) -> BuildResult {
    exists|generated: BatchView|
        {
            &&& #[trigger] before.keeping(options.keep_going).mapped_by(
                codegen_step(options, false, run),
                generated,
            )
            &&& if options.compile_target_code {
                exists|installed: BatchView, compiled: BatchView|
                    {
                        &&& #[trigger] generated.mapped_by(
                            tool_step(options, commands, install_arguments(commands), run),
                            installed,
                        )
                        &&& #[trigger] installed.mapped_by(
                            tool_step(options, commands, build_arguments(), run),
                            compiled,
                        )
                        &&& compiled.mapped_by(finish_step(run), after)
                    }
            } else {
                after == generated
            }
        }
}

/// Builds the apps of the batch: their code is generated, and unless only
/// code is asked for, the packages of each app are installed, the app is
/// built, and its script is moved to the place of the executable.
pub fn do_typescript_build<R>(
    results: &mut BatchBuildResults,
    options: &BuildCommandOptions,
    commands: TypeScriptToolCommands,
    run: &R,
) where R: Fn(&Action) -> BuildResult + Send + Sync
    requires
        forall|action: &Action| call_requires(*run, (action,)),
    ensures
        old(results)@.continued(final(results)@),
        built(old(results)@, *options, commands, *run, final(results)@),
{
    proof {
        results.lemma_wf();
    }
    results.keep_going(options.keep_going);
    let ghost start = results@;
    LFC::do_parallel_lfc_codegen(options, results, false, run);
    let ghost generated = results@;
    proof {
        results.lemma_wf();
        assert(start == old(results)@.keeping(options.keep_going));
        assert(start.mapped_by(codegen_step(*options, false, *run), generated));
    }
    if !options.compile_target_code {
        assert(built(old(results)@, *options, commands, *run, results@));
        return ;
    }
    let install = |app: &App| -> (outcome: BuildResult)
        ensures
            tool_step(*options, commands, install_arguments(commands), *run)(*app, outcome),
        {
            let arguments = [commands.install_command];
            assert(arguments@.map_values(|text: &str| text@) =~= install_arguments(commands));
            perform(plan_tool(app, options, &commands, arguments.as_slice()), run)
        };
    results.map(install);
    let ghost installed = results@;
    let build = |app: &App| -> (outcome: BuildResult)
        ensures
            tool_step(*options, commands, build_arguments(), *run)(*app, outcome),
        {
            let arguments = ["run", "build"];
            assert(arguments@.map_values(|text: &str| text@) =~= build_arguments());
            perform(plan_tool(app, options, &commands, arguments.as_slice()), run)
        };
    results.map(build);
    let ghost compiled = results@;
    let finish = |app: &App| -> (outcome: BuildResult)
        ensures
            finish_step(*run)(*app, outcome),
        { perform(plan_finish(app), run) };
    results.map(finish);
    proof {
        results.lemma_wf();
        lemma_mapped_continues(generated, install, installed);
        lemma_mapped_continues(installed, build, compiled);
        lemma_mapped_continues(compiled, finish, results@);
        lemma_continued_transitive(start, generated, installed);
        lemma_continued_transitive(start, installed, compiled);
        lemma_continued_transitive(start, compiled, results@);
        lemma_mapped_by(
            generated,
            install,
            installed,
            tool_step(*options, commands, install_arguments(commands), *run),
        );
        lemma_mapped_by(
            installed,
            build,
            compiled,
            tool_step(*options, commands, build_arguments(), *run),
        );
        lemma_mapped_by(compiled, finish, results@, finish_step(*run));
        assert(generated.mapped_by(
            tool_step(*options, commands, install_arguments(commands), *run),
            installed,
        ) && installed.mapped_by(
            tool_step(*options, commands, build_arguments(), *run),
            compiled,
        ) && compiled.mapped_by(finish_step(*run), results@));
        assert(built(old(results)@, *options, commands, *run, results@));
    }
}

/// The directories that a package manager leaves below the output root of
/// an app.
pub open spec fn package_artifacts() -> Seq<Seq<char>> {
    seq!["node_modules"@, "dist"@]
}

/// The outcomes that removing the build output of an app, and then what
/// the package manager left, can have: the failure of the first removal,
/// or what the second removal gives.
pub open spec fn clean_step<R>(run: R) -> spec_fn(App, BuildResult) -> bool where
    R: Fn(&Action) -> BuildResult,
 {
    |app: App, outcome: BuildResult|
        exists|first: Action|
            #[trigger] first@ == (ActionView::DeleteSubdirs {
                root: app.output_root@,
                subdirs: build_artifacts(),
            }) && if outcome is Err && call_ensures(run, (&first,), outcome) {
                true
            } else {
                call_ensures(run, (&first,), Ok::<(), LingoError>(())) && exists|second: Action|
                    #[trigger] second@ == (ActionView::DeleteSubdirs {
                        root: app.output_root@,
                        subdirs: package_artifacts(),
                    }) && call_ensures(run, (&second,), outcome)
            }
}

/// Removes the build output of an app and what the package manager left.
pub fn clean_app<R>(app: &App, run: &R) -> (result: BuildResult) where R: Fn(&Action) -> BuildResult
    requires
        forall|action: &Action| call_requires(*run, (action,)),
    ensures
        clean_step(*run)(*app, result),
{
    let cleaned = default_build_clean(app.output_root.as_str(), run);
    let ghost first = choose|action: Action|
        #[trigger] action@ == (ActionView::DeleteSubdirs {
            root: app.output_root@,
            subdirs: build_artifacts(),
        }) && call_ensures(*run, (&action,), cleaned);
    match cleaned {
        Ok(done) => {
            assert(done == ());
        },
        Err(error) => {
            return Err(error);
        },
    }
    let subdirs = ["node_modules", "dist"];
    assert(subdirs@.map_values(|text: &str| text@) =~= package_artifacts());
    let result = delete_subdirs(app.output_root.as_str(), subdirs.as_slice(), run);
    proof {
        let second = choose|action: Action|
            #[trigger] action@ == (ActionView::DeleteSubdirs {
                root: app.output_root@,
                subdirs: package_artifacts(),
            }) && call_ensures(*run, (&action,), result);
        assert(second@ == (ActionView::DeleteSubdirs {
            root: app.output_root@,
            subdirs: package_artifacts(),
        }));
        assert(first@ == (ActionView::DeleteSubdirs {
            root: app.output_root@,
            subdirs: build_artifacts(),
        }));
    }
    result
}

/// Removes the build output of every app of the batch and what the package
/// manager left.
pub fn clean_all<R>(results: &mut BatchBuildResults, run: &R) where
    R: Fn(&Action) -> BuildResult + Send + Sync,

    requires
        forall|action: &Action| call_requires(*run, (action,)),
    ensures
        old(results)@.continued(final(results)@),
        old(results)@.mapped_by(clean_step(*run), final(results)@),
{
    let step = |app: &App| -> (outcome: BuildResult)
        ensures
            clean_step(*run)(*app, outcome),
        { clean_app(app, run) };
    proof {
        results.lemma_wf();
    }
    results.par_map(step);
    proof {
        lemma_mapped_continues(old(results)@, step, results@);
        lemma_mapped_by(old(results)@, step, results@, clean_step(*run));
    }
}

/// How npm is called.
pub open spec fn npm_commands() -> TypeScriptToolCommands {
    TypeScriptToolCommands {
        binary_name: "npm",
        install_command: "install",
        release_build_argument: "--production",
    }
}

/// Whether `after` is the batch `before` after the command was run with
/// npm: a build builds the apps, a clean removes the build output of every
/// app and what npm left, and an update leaves the batch alone.
pub open spec fn executed<R>(command: CommandSpec, before: BatchView, run: R, after: BatchView) -> bool where
    R: Fn(&Action) -> BuildResult,
 {
    match command {
        CommandSpec::Build(options) => built(before, options, npm_commands(), run, after),
        CommandSpec::Clean => before.mapped_by(clean_step(run), after),
        CommandSpec::Update => after == before,
    }
}

impl BatchBackend for Npm {
    /// Builds every app with npm for a build and removes the build output
    /// of every app for a clean. An update leaves the batch alone.
    fn execute_command<R>(&mut self, command: &CommandSpec, results: &mut BatchBuildResults, run: &R) where
        R: Fn(&Action) -> BuildResult + Send + Sync,

        ensures
            executed(*command, old(results)@, *run, final(results)@),
    {
        match command {
            CommandSpec::Build(options) => do_typescript_build(
                results,
                options,
                TypeScriptToolCommands {
                    binary_name: "npm",
                    install_command: "install",
                    release_build_argument: "--production",
                },
                run,
            ),
            CommandSpec::Clean => {
                clean_all(results, run);
            },
            _ => {
                proof {
                    results.lemma_wf();
                }
            },
        }
    }
}

} // verus!
