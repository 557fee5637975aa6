//! Building C apps with CMake.

use vstd::prelude::*;

use crate::backends::lfc::{clean_all, clean_step, codegen_step, LFC};
use crate::backends::{
    lemma_continued_transitive, lemma_mapped_by, lemma_mapped_continues, BatchBackend,
    BatchBuildResults, BatchView, BuildCommandOptions, BuildProfile, CommandSpec,
};
use crate::package::target_properties::texts;
use crate::package::App;
use crate::util::errors::{BuildResult, LingoError};
use crate::util::path::{file_stem, file_stem_of, join, joined, src_dir_of};
use crate::util::text::concat;
use crate::util::{action_views, outcome_of, performed, run_all, Action, ActionView};

verus! {

/// Builds C apps with CMake, each app in a build folder of its own.
pub struct CmakeC;

/// The CMake build type of a profile.
pub open spec fn build_type(profile: BuildProfile) -> Seq<char> {
    if profile == BuildProfile::Release {
        "RELEASE"@
    } else {
        "DEBUG"@
    }
}

/// The CMake build type of a profile.
pub fn build_type_name(profile: BuildProfile) -> (name: &'static str)
    ensures
        name@ == build_type(profile),
{
    if profile == BuildProfile::Release {
        "RELEASE"
    } else {
        "DEBUG"
    }
}

/// A definition on a command line whose value stands in double quotes.
pub open spec fn quoted_definition(key: Seq<char>, value: Seq<char>) -> Seq<char> {
    key + "\""@ + value + "\""@
}

/// A definition on a command line whose value stands in double quotes.
pub fn quote_definition(key: &str, value: &str) -> (definition: String)
    ensures
        definition@ == quoted_definition(key@, value@),
{
    let mut definition = concat(key, "\"");
    definition.append(value);
    definition.append("\"");
    definition
}

/// The folder in which the generated code of an app is built.
pub open spec fn app_build_folder(app: App) -> Seq<char> {
    joined(joined(app.output_root@, "src-gen"@), app.main_reactor_name@)
}

/// The arguments with which CMake configures the build of a C app whose
/// sources lie in `source_directory`.
pub open spec fn configure_arguments(app: App, options: BuildCommandOptions, source_directory: Seq<char>) -> Seq<
    Seq<char>,
> {
    seq![
        "-DCMAKE_BUILD_TYPE="@ + build_type(options.profile),
        "-DCMAKE_INSTALL_PREFIX="@ + app.output_root@,
        "-DCMAKE_INSTALL_BINDIR=bin"@,
        quoted_definition("-DLF_SOURCE_DIRECTORY="@, source_directory),
        quoted_definition("-DLF_PACKAGE_DIRECTORY="@, app.root_path@),
        quoted_definition("-DLF_SOURCE_GEN_DIRECTORY="@, app_build_folder(app)),
        quoted_definition("-DLF_FILE_SEPARATOR="@, "/"@),
        app_build_folder(app),
        "-B "@ + app_build_folder(app),
    ]
}

/// What the configuration of a C app consists of: the two build folders
/// are created, the merged CMake code is written next to the generated
/// `CMakeLists.txt`, that file is made to load it, and CMake is run. An
/// app whose main reactor lies below no `src` directory has no plan.
pub open spec fn configure_plan(app: App, options: BuildCommandOptions) -> Option<Seq<ActionView>> {
    match src_dir_of(app.main_reactor@) {
        Some(source_directory) => Some(
            seq![
                ActionView::CreateDirAll(joined(app.output_root@, "build"@)),
                ActionView::CreateDirAll(app_build_folder(app)),
                ActionView::WriteFile {
                    path: joined(app_build_folder(app), "aggregated_cmake_include.cmake"@),
                    content: app.properties.cmake_include@,
                },
                ActionView::AppendToFile {
                    path: joined(app_build_folder(app), "CMakeLists.txt"@),
                    content: "\ninclude(./aggregated_cmake_include.cmake)"@,
                },
                ActionView::Run {
                    program: "cmake"@,
                    args: configure_arguments(app, options, source_directory),
                    current_dir: Some(joined(app.output_root@, "build"@)),
                },
            ],
        ),
        None => None,
    }
}

/// What the compilation of a C app consists of: CMake builds the target
/// that is named like the file of the main reactor. An app whose main
/// reactor names no file has no plan.
pub open spec fn compile_plan(app: App) -> Option<Seq<ActionView>> {
    match file_stem_of(app.main_reactor@) {
        Some(name) => Some(
            seq![
                ActionView::Run {
                    program: "cmake"@,
                    args: seq!["--build"@, "."@, "--target"@, name],
                    current_dir: Some(app_build_folder(app)),
                },
            ],
        ),
        None => None,
    }
}

/// Where the executable of an app is once it is installed; see
/// `App::executable_path`.
pub open spec fn executable_of(app: App) -> Seq<char> {
    joined(
        joined(app.output_root@, "bin"@),
        if app.target == crate::args::TargetLanguage::TypeScript {
            app.name@ + ".js"@
        } else {
            app.name@
        },
    )
}

/// What the installation of a C app consists of: the binary that CMake
/// left in the build folder is moved to the place of the executable.
pub open spec fn install_plan(app: App) -> Seq<ActionView> {
    seq![
        ActionView::Rename {
            from: joined(app_build_folder(app), app.main_reactor_name@),
            to: executable_of(app),
        },
    ]
}

/// The plan of the configuration of an app.
pub fn gen_cmake_files(app: &App, options: &BuildCommandOptions) -> (result: Result<Vec<Action>, LingoError>)
    ensures
        match result {
            Ok(plan) => configure_plan(*app, *options) == Some(action_views(plan@)),
            Err(error) => configure_plan(*app, *options) is None && error is InvalidMainReactor,
        },
{
    let source_directory = match app.src_dir_path() {
        Some(dir) => dir,
        None => {
            return Err(LingoError::InvalidMainReactor);
        },
    };
    let build_dir = join(app.output_root.as_str(), "build");
    // location of the cmake file
    let app_build_folder = join(app.src_gen_dir().as_str(), app.main_reactor_name.as_str());
    let cmake_file = join(app_build_folder.as_str(), "CMakeLists.txt");
    // create potential files that come from the target properties
    let (artifact_path, artifact) = app.properties.write_artifacts(app_build_folder.as_str());

    // cmake args
    let mut args: Vec<String> = Vec::new();
    args.push(concat("-DCMAKE_BUILD_TYPE=", build_type_name(options.profile)));
    args.push(concat("-DCMAKE_INSTALL_PREFIX=", app.output_root.as_str()));
    args.push("-DCMAKE_INSTALL_BINDIR=bin".to_owned());
    args.push(quote_definition("-DLF_SOURCE_DIRECTORY=", source_directory.as_str()));
    args.push(quote_definition("-DLF_PACKAGE_DIRECTORY=", app.root_path.as_str()));
    args.push(quote_definition("-DLF_SOURCE_GEN_DIRECTORY=", app_build_folder.as_str()));
    args.push(quote_definition("-DLF_FILE_SEPARATOR=", "/"));
    args.push(app_build_folder.clone());
    args.push(concat("-B ", app_build_folder.as_str()));
    assert(texts(args@) =~= configure_arguments(*app, *options, source_directory@));

    let mut plan: Vec<Action> = Vec::new();
    plan.push(Action::CreateDirAll(build_dir.clone()));
    plan.push(Action::CreateDirAll(app_build_folder.clone()));
    plan.push(Action::WriteFile { path: artifact_path, content: artifact });
    // append cmake include to generated cmake file
    plan.push(
        Action::AppendToFile {
            path: cmake_file,
            content: "\ninclude(./aggregated_cmake_include.cmake)".to_owned(),
        },
    );
    plan.push(Action::Run { program: "cmake".to_owned(), args, current_dir: Some(build_dir) });
    assert(action_views(plan@) =~= configure_plan(*app, *options).unwrap());
    Ok(plan)
}

/// The plan of the compilation of an app.
pub fn plan_compile(app: &App) -> (result: Result<Vec<Action>, LingoError>)
    ensures
        match result {
            Ok(plan) => compile_plan(*app) == Some(action_views(plan@)),
            Err(error) => compile_plan(*app) is None && error is InvalidMainReactor,
        },
{
    // add one target arg for each app
    let name = match file_stem(app.main_reactor.as_str()) {
        Some(name) => name,
        None => {
            return Err(LingoError::InvalidMainReactor);
        },
    };
    let app_build_folder = join(app.src_gen_dir().as_str(), app.main_reactor_name.as_str());
    // compile everything
    let mut args: Vec<String> = Vec::new();
    args.push("--build".to_owned());
    args.push(".".to_owned());
    args.push("--target".to_owned());
    args.push(name.to_owned());
    assert(texts(args@) =~= seq!["--build"@, "."@, "--target"@, name@]);
    let mut plan: Vec<Action> = Vec::new();
    plan.push(
        Action::Run { program: "cmake".to_owned(), args, current_dir: Some(app_build_folder) },
    );
    assert(action_views(plan@) =~= compile_plan(*app).unwrap());
    Ok(plan)
}

/// The plan of the installation of an app.
pub fn plan_install(app: &App) -> (plan: Vec<Action>)
    ensures
        action_views(plan@) == install_plan(*app),
{
    let app_build_folder = join(app.src_gen_dir().as_str(), app.main_reactor_name.as_str());
    let bin_source = join(app_build_folder.as_str(), app.main_reactor_name.as_str());
    let mut plan: Vec<Action> = Vec::new();
    plan.push(Action::Rename { from: bin_source, to: app.executable_path() });
    assert(action_views(plan@) =~= install_plan(*app));
    plan
}

/// Runs a plan, or hands on the reason why there is none.
pub fn perform<R>(plan: Result<Vec<Action>, LingoError>, run: &R) -> (result: BuildResult) where
    R: Fn(&Action) -> BuildResult,

    requires
        forall|action: &Action| call_requires(*run, (action,)),
    ensures
        match plan {
            Ok(actions) => performed(actions@, *run, result),
            Err(error) => result == Err::<(), LingoError>(error),
        },
        forall|views: Option<Seq<ActionView>>|
            (match plan {
                Ok(actions) => views == Some(action_views(actions@)),
                Err(error) => views is None && error is InvalidMainReactor,
            }) ==> #[trigger] outcome_of(views, *run, result),
{
    match plan {
        Ok(actions) => {
            let result = run_all(&actions, run);
            assert forall|views: Option<Seq<ActionView>>|
                views == Some(action_views(actions@)) implies #[trigger] outcome_of(
                views,
                *run,
                result,
            ) by {
                assert(action_views(actions@) == views.unwrap());
            }
            result
        },
        Err(error) => Err(error),
    }
}

/// The outcomes that the configuration of an app can have.
pub open spec fn configure_step<R>(options: BuildCommandOptions, run: R) -> spec_fn(App, BuildResult) -> bool where
    R: Fn(&Action) -> BuildResult,
 {
    |app: App, outcome: BuildResult| outcome_of(configure_plan(app, options), run, outcome)
}

/// The outcomes that the compilation of an app can have.
pub open spec fn compile_step<R>(run: R) -> spec_fn(App, BuildResult) -> bool where
    R: Fn(&Action) -> BuildResult,
 {
    |app: App, outcome: BuildResult| outcome_of(compile_plan(app), run, outcome)
}

/// The outcomes that the installation of an app can have.
pub open spec fn install_step<R>(run: R) -> spec_fn(App, BuildResult) -> bool where
    R: Fn(&Action) -> BuildResult,
 {
    |app: App, outcome: BuildResult| outcome_of(Some(install_plan(app)), run, outcome)
}

/// Whether `after` is the batch `before` after a build of C apps: the
/// batch keeps going as the options say, the code of every app is
/// generated, and unless only code is asked for, the apps are configured,
/// compiled and installed, step after step.
pub open spec fn built<R>(before: BatchView, options: BuildCommandOptions, run: R, after: BatchView) -> bool where
    R: Fn(&Action) -> BuildResult,
 {
    exists|generated: BatchView|
        {
            &&& #[trigger] before.keeping(options.keep_going).mapped_by(
                codegen_step(options, false, run),
                generated,
            )
            &&& if options.compile_target_code {
                exists|configured: BatchView, compiled: BatchView|
                    {
                        &&& #[trigger] generated.mapped_by(configure_step(options, run), configured)
                        &&& #[trigger] configured.mapped_by(compile_step(run), compiled)
                        &&& compiled.mapped_by(install_step(run), after)
                    }
            } else {
                after == generated
            }
        }
}

/// Builds the apps of the batch: their code is generated, and unless only
/// code is asked for, each app is configured, compiled and installed.
pub fn do_cmake_build<R>(results: &mut BatchBuildResults, options: &BuildCommandOptions, run: &R) where
    R: Fn(&Action) -> BuildResult + Send + Sync,

    requires
        forall|action: &Action| call_requires(*run, (action,)),
    ensures
        old(results)@.continued(final(results)@),
        built(old(results)@, *options, *run, final(results)@),
{
    proof {
        results.lemma_wf();
    }
    results.keep_going(options.keep_going);
    let ghost start = results@;
    LFC::do_parallel_lfc_codegen(options, results, false, run);
    let ghost generated = results@;
    proof {
        results.lemma_wf();
    }
    proof {
        assert(start == old(results)@.keeping(options.keep_going));
        assert(start.mapped_by(codegen_step(*options, false, *run), generated));
    }
    if !options.compile_target_code {
        assert(built(old(results)@, *options, *run, results@));
        return ;
    }
    // generate all CMake files ahead of time
    let configure = |app: &App| -> (outcome: BuildResult)
        ensures
            configure_step(*options, *run)(*app, outcome),
        { perform(gen_cmake_files(app, options), run) };
    results.map(configure);
    let ghost configured = results@;
    // Run cmake to build everything.
    let compile = |app: &App| -> (outcome: BuildResult)
        ensures
            compile_step(*run)(*app, outcome),
        { perform(plan_compile(app), run) };
    results.map(compile);
    let ghost compiled = results@;
    let install = |app: &App| -> (outcome: BuildResult)
        ensures
            install_step(*run)(*app, outcome),
        { perform(Ok(plan_install(app)), run) };
    results.map(install);
    proof {
        results.lemma_wf();
        lemma_mapped_continues(generated, configure, configured);
        lemma_mapped_continues(configured, compile, compiled);
        lemma_mapped_continues(compiled, install, results@);
        lemma_continued_transitive(start, generated, configured);
        lemma_continued_transitive(start, configured, compiled);
        lemma_continued_transitive(start, compiled, results@);
        lemma_mapped_by(generated, configure, configured, configure_step(*options, *run));
        lemma_mapped_by(configured, compile, compiled, compile_step(*run));
        lemma_mapped_by(compiled, install, results@, install_step(*run));
        assert(generated.mapped_by(configure_step(*options, *run), configured)
            && configured.mapped_by(compile_step(*run), compiled) && compiled.mapped_by(
            install_step(*run),
            results@,
        ));
        assert(built(old(results)@, *options, *run, results@));
    }
}

/// Whether `after` is the batch `before` after the command was run for C
/// apps: a build builds them, a clean removes the build output of every
/// app, and an update leaves the batch alone.
pub open spec fn executed<R>(command: CommandSpec, before: BatchView, run: R, after: BatchView) -> bool where
    R: Fn(&Action) -> BuildResult,
 {
    match command {
        CommandSpec::Build(options) => built(before, options, run, after),
        CommandSpec::Clean => before.mapped_by(clean_step(run), after),
        CommandSpec::Update => after == before,
    }
}

impl BatchBackend for CmakeC {
    /// Builds every app with CMake for a build and removes the build output
    /// of every app for a clean. An update leaves the batch alone.
    fn execute_command<R>(&mut self, command: &CommandSpec, results: &mut BatchBuildResults, run: &R) where
        R: Fn(&Action) -> BuildResult + Send + Sync,

        ensures
            executed(*command, old(results)@, *run, final(results)@),
    {
        match command {
            CommandSpec::Build(options) => do_cmake_build(results, options, run),
            CommandSpec::Clean => {
                clean_all(results, run);
            },
            _ => {
                proof {
                    results.lemma_wf();
                }
            },
        }
    }
}

} // verus!
