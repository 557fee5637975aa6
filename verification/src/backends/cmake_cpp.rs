//! Building C++ apps with CMake.

use vstd::prelude::*;

use crate::backends::cmake_c::{
    app_build_folder, build_type, build_type_name, executable_of, perform,
};
use crate::backends::lfc::{clean_all, clean_step, codegen_step, LFC};
use crate::backends::{
    lemma_continued_transitive, lemma_gathered_by, lemma_gathered_continues, lemma_mapped_by,
    lemma_mapped_continues, BatchBackend, BatchBuildResults, BatchView, BuildCommandOptions,
    CommandSpec,
};
use crate::package::target_properties::texts;
use crate::package::App;
use crate::util::errors::{BuildResult, LingoError};
use crate::util::path::{file_stem, file_stem_of, join, joined, src_dir_of};
use crate::util::text::concat;
use crate::util::{action_views, outcome_of, Action, ActionView};

verus! {

/// Builds C++ apps with CMake, all apps of a project in one build folder.
pub struct CmakeCpp;

/// The arguments with which CMake configures the build of a C++ app whose
/// sources lie in `source_directory`.
pub open spec fn configure_arguments(app: App, options: BuildCommandOptions, source_directory: Seq<char>) -> Seq<
    Seq<char>,
> {
    seq![
        "-DCMAKE_BUILD_TYPE="@ + build_type(options.profile),
        "-DCMAKE_INSTALL_PREFIX="@ + app.output_root@,
        "-DCMAKE_INSTALL_BINDIR=bin"@,
        "-DREACTOR_CPP_VALIDATE=ON"@,
        "-DREACTOR_CPP_TRACE=OFF"@,
        "-DREACTOR_CPP_LOG_LEVEL=3"@,
        "-DLF_SRC_PKG_PATH="@ + source_directory,
        joined(app.output_root@, "src-gen"@),
        "-B "@ + joined(app.output_root@, "build"@),
    ]
}

/// What the configuration of a C++ app consists of: the build folder is
/// created, the merged CMake code is written next to the generated
/// `CMakeLists.txt`, that file is made to load it, and CMake is run. An
/// app whose main reactor lies below no `src` directory has no plan.
pub open spec fn configure_plan(app: App, options: BuildCommandOptions) -> Option<Seq<ActionView>> {
    match src_dir_of(app.main_reactor@) {
        Some(source_directory) => Some(
            seq![
                ActionView::CreateDirAll(joined(app.output_root@, "build"@)),
                ActionView::WriteFile {
                    path: joined(app_build_folder(app), "aggregated_cmake_include.cmake"@),
                    content: app.properties.cmake_include@,
                },
                ActionView::AppendToFile {
                    path: joined(app_build_folder(app), "CMakeLists.txt"@),
                    content: "\ninclude("@ + app_build_folder(app)
                        + "/aggregated_cmake_include.cmake)"@,
                },
                ActionView::Run {
                    program: "cmake"@,
                    args: configure_arguments(app, options, source_directory),
                    current_dir: Some(joined(app.output_root@, "build"@)),
                },
            ],
        ),
        None => None,
    }
}

/// The arguments that name the targets of the first `n` apps: for each app
/// `--target` and the name of the file of its main reactor. There are none
/// where one of these main reactors names no file.
pub open spec fn target_arguments(apps: Seq<App>, n: int) -> Option<Seq<Seq<char>>>
    decreases n,
{
    if n <= 0 {
        Some(Seq::empty())
    } else {
        match (target_arguments(apps, n - 1), file_stem_of(apps[n - 1].main_reactor@)) {
            (Some(before), Some(name)) => Some(before + seq!["--target"@, name]),
            _ => None,
        }
    }
}

/// What the compilation of a group of C++ apps consists of: one run of
/// CMake in the build folder of the first app, which builds the targets of
/// all apps.
pub open spec fn compile_plan(apps: Seq<App>) -> Option<Seq<ActionView>> {
    match target_arguments(apps, apps.len() as int) {
        Some(targets) => Some(
            seq![
                ActionView::Run {
                    program: "cmake"@,
                    args: seq!["--build"@, "."@] + targets,
                    current_dir: Some(joined(apps[0].output_root@, "build"@)),
                },
            ],
        ),
        None => None,
    }
}

/// What the installation of a C++ app consists of: CMake installs what was
/// built, and the binary is moved to the place of the executable. An app
/// whose main reactor names no file has no plan.
pub open spec fn install_plan(app: App) -> Option<Seq<ActionView>> {
    match file_stem_of(app.main_reactor@) {
        Some(name) => Some(
            seq![
                ActionView::Run {
                    program: "cmake"@,
                    args: seq!["--install"@, "."@],
                    current_dir: Some(joined(app.output_root@, "build"@)),
                },
                ActionView::Rename {
                    from: joined(joined(app.output_root@, "bin"@), name),
                    to: executable_of(app),
                },
            ],
        ),
        None => None,
    }
}

/// The plan of the configuration of an app.
pub fn gen_cmake_files(app: &App, options: &BuildCommandOptions) -> (result: Result<Vec<Action>, LingoError>)
    ensures
        match result {
            Ok(plan) => configure_plan(*app, *options) == Some(action_views(plan@)),
            Err(error) => configure_plan(*app, *options) is None && error is InvalidMainReactor,
        },
{
    let source_directory = match app.src_dir_path() {
        Some(dir) => dir,
        None => {
            return Err(LingoError::InvalidMainReactor);
        },
    };
    let build_dir = join(app.output_root.as_str(), "build");
    // location of the cmake file
    let app_build_folder = join(app.src_gen_dir().as_str(), app.main_reactor_name.as_str());
    let cmake_file = join(app_build_folder.as_str(), "CMakeLists.txt");
    // create potential files that come from the target properties
    let (artifact_path, artifact) = app.properties.write_artifacts(app_build_folder.as_str());
    // we need to modify the cmake file here to include our generated cmake files
    let src_gen_dir = app.src_gen_dir();
    let mut include_statement = concat("\ninclude(", app_build_folder.as_str());
    include_statement.append("/aggregated_cmake_include.cmake)");

    // cmake args
    let mut args: Vec<String> = Vec::new();
    args.push(concat("-DCMAKE_BUILD_TYPE=", build_type_name(options.profile)));
    args.push(concat("-DCMAKE_INSTALL_PREFIX=", app.output_root.as_str()));
    args.push("-DCMAKE_INSTALL_BINDIR=bin".to_owned());
    args.push("-DREACTOR_CPP_VALIDATE=ON".to_owned());
    args.push("-DREACTOR_CPP_TRACE=OFF".to_owned());
    args.push("-DREACTOR_CPP_LOG_LEVEL=3".to_owned());
    args.push(concat("-DLF_SRC_PKG_PATH=", source_directory.as_str()));
    args.push(src_gen_dir);
    args.push(concat("-B ", build_dir.as_str()));
    assert(texts(args@) =~= configure_arguments(*app, *options, source_directory@));

    let mut plan: Vec<Action> = Vec::new();
    plan.push(Action::CreateDirAll(build_dir.clone()));
    plan.push(Action::WriteFile { path: artifact_path, content: artifact });
    plan.push(Action::AppendToFile { path: cmake_file, content: include_statement });
    plan.push(Action::Run { program: "cmake".to_owned(), args, current_dir: Some(build_dir) });
    assert(action_views(plan@) =~= configure_plan(*app, *options).unwrap());
    Ok(plan)
}

/// The plan of the compilation of a group of apps.
pub fn plan_compile(apps: &Vec<&App>) -> (result: Result<Vec<Action>, LingoError>)
    requires
        apps@.len() > 0,
    ensures
        match result {
            Ok(plan) => compile_plan(apps@.map_values(|app: &App| *app)) == Some(
                action_views(plan@),
            ),
            Err(error) => compile_plan(apps@.map_values(|app: &App| *app)) is None
                && error is InvalidMainReactor,
        },
{
    let ghost group = apps@.map_values(|app: &App| *app);
    let build_dir = join(apps[0].output_root.as_str(), "build");
    // compile everything
    let mut args: Vec<String> = Vec::new();
    args.push("--build".to_owned());
    args.push(".".to_owned());
    assert(texts(args@) =~= seq!["--build"@, "."@] + target_arguments(group, 0).unwrap());
    let mut i: usize = 0;
    while i < apps.len()
        invariant
            i <= apps@.len(),
            group == apps@.map_values(|app: &App| *app),
            target_arguments(group, i as int) is Some,
            texts(args@) == seq!["--build"@, "."@] + target_arguments(group, i as int).unwrap(),
        decreases apps@.len() - i,
    {
        // add one target arg for each app
        let name = match file_stem(apps[i].main_reactor.as_str()) {
            Some(name) => name,
            None => {
                proof {
                    lemma_no_targets(group, i as int + 1, group.len() as int);
                }
                return Err(LingoError::InvalidMainReactor);
            },
        };
        let ghost before = texts(args@);
        args.push("--target".to_owned());
        args.push(name.to_owned());
        proof {
            assert(texts(args@) =~= before + seq!["--target"@, name@]);
            assert(texts(args@) =~= seq!["--build"@, "."@] + target_arguments(
                group,
                i + 1,
            ).unwrap());
        }
        i += 1;
    }
    // note: by parsing CMake stderr we would know which specific targets have failed.
    let mut plan: Vec<Action> = Vec::new();
    plan.push(Action::Run { program: "cmake".to_owned(), args, current_dir: Some(build_dir) });
    assert(action_views(plan@) =~= compile_plan(group).unwrap());
    Ok(plan)
}

/// Where the targets of some apps cannot be named, those of more apps
/// cannot be named either.
proof fn lemma_no_targets(apps: Seq<App>, n: int, m: int)
    requires
        0 <= n <= m,
        target_arguments(apps, n) is None,
    ensures
        target_arguments(apps, m) is None,
    decreases m,
{
    if n < m {
        lemma_no_targets(apps, n, m - 1);
    }
}

/// The plan of the installation of an app.
pub fn plan_install(app: &App) -> (result: Result<Vec<Action>, LingoError>)
    ensures
        match result {
            Ok(plan) => install_plan(*app) == Some(action_views(plan@)),
            Err(error) => install_plan(*app) is None && error is InvalidMainReactor,
        },
{
    let cmake_binary_name = match file_stem(app.main_reactor.as_str()) {
        Some(name) => name,
        None => {
            return Err(LingoError::InvalidMainReactor);
        },
    };
    let build_dir = join(app.output_root.as_str(), "build");
    // installing
    let mut args: Vec<String> = Vec::new();
    args.push("--install".to_owned());
    args.push(".".to_owned());
    assert(texts(args@) =~= seq!["--install"@, "."@]);
    // cleanup: rename executable to match the app name
    let bin_dir = join(app.output_root.as_str(), "bin");
    let mut plan: Vec<Action> = Vec::new();
    plan.push(Action::Run { program: "cmake".to_owned(), args, current_dir: Some(build_dir) });
    plan.push(
        Action::Rename { from: join(bin_dir.as_str(), cmake_binary_name), to: app.executable_path() },
    );
    assert(action_views(plan@) =~= install_plan(*app).unwrap());
    Ok(plan)
}

/// The outcomes that the configuration of an app can have.
pub open spec fn configure_step<R>(options: BuildCommandOptions, run: R) -> spec_fn(App, BuildResult) -> bool where
    R: Fn(&Action) -> BuildResult,
 {
    |app: App, outcome: BuildResult| outcome_of(configure_plan(app, options), run, outcome)
}

/// The outcomes that the compilation of a group of apps can have.
pub open spec fn compile_step<R>(run: R) -> spec_fn(Seq<App>, BuildResult) -> bool where
    R: Fn(&Action) -> BuildResult,
 {
    |apps: Seq<App>, outcome: BuildResult| outcome_of(compile_plan(apps), run, outcome)
}

/// The outcomes that the installation of an app can have.
pub open spec fn install_step<R>(run: R) -> spec_fn(App, BuildResult) -> bool where
    R: Fn(&Action) -> BuildResult,
 {
    |app: App, outcome: BuildResult| outcome_of(install_plan(app), run, outcome)
}

/// Whether `after` is the batch `before` after a build of C++ apps: the
/// batch keeps going as the options say, the code of every app is
/// generated, and unless only code is asked for, the apps are configured
/// one by one, compiled all at once and installed one by one.
pub open spec fn built<R>(before: BatchView, options: BuildCommandOptions, run: R, after: BatchView) -> bool where
    R: Fn(&Action) -> BuildResult,
 {
    exists|generated: BatchView|
        {
            &&& #[trigger] before.keeping(options.keep_going).mapped_by(
                codegen_step(options, false, run),
                generated,
            )
            &&& if options.compile_target_code {
                exists|configured: BatchView, compiled: BatchView|
                    {
                        &&& #[trigger] generated.mapped_by(configure_step(options, run), configured)
                        &&& #[trigger] configured.gathered_by(compile_step(run), compiled)
                        &&& compiled.mapped_by(install_step(run), after)
                    }
            } else {
                after == generated
            }
        }
}

/// Whether `after` is the batch `before` after the command was run for C++
/// apps: a build builds them, a clean removes the build output of every
/// app, and an update leaves the batch alone.
pub open spec fn executed<R>(command: CommandSpec, before: BatchView, run: R, after: BatchView) -> bool where
    R: Fn(&Action) -> BuildResult,
 {
    match command {
        CommandSpec::Build(options) => built(before, options, run, after),
        CommandSpec::Clean => before.mapped_by(clean_step(run), after),
        CommandSpec::Update => after == before,
    }
}

/// Builds the apps of the batch: their code is generated, and unless only
/// code is asked for, each app is configured, all apps are compiled by one
/// run of CMake, and each app is installed.
pub fn do_cmake_build<R>(results: &mut BatchBuildResults, options: &BuildCommandOptions, run: &R) where
    R: Fn(&Action) -> BuildResult + Send + Sync,

    requires
        forall|action: &Action| call_requires(*run, (action,)),
    ensures
        old(results)@.continued(final(results)@),
        built(old(results)@, *options, *run, final(results)@),
{
    proof {
        results.lemma_wf();
    }
    // configure keep going parameter
    results.keep_going(options.keep_going);
    let ghost start = results@;
    // start code-generation
    LFC::do_parallel_lfc_codegen(options, results, false, run);
    let ghost generated = results@;
    proof {
        results.lemma_wf();
        assert(start == old(results)@.keeping(options.keep_going));
        assert(start.mapped_by(codegen_step(*options, false, *run), generated));
    }
    // stop process if the user request code-generation only
    if !options.compile_target_code {
        assert(built(old(results)@, *options, *run, results@));
        return ;
    }
    // generate all CMake files ahead of time
    let configure = |app: &App| -> (outcome: BuildResult)
        ensures
            configure_step(*options, *run)(*app, outcome),
        { perform(gen_cmake_files(app, options), run) };
    results.map(configure);
    let ghost configured = results@;
    // Run cmake to build everything.
    let compile = |apps: &Vec<&App>| -> (outcome: BuildResult)
        requires
            apps@.len() > 0,
        ensures
            compile_step(*run)(apps@.map_values(|app: &App| *app), outcome),
        { perform(plan_compile(apps), run) };
    assert forall|group: &Vec<&App>|
        group@.map_values(|app: &App| *app) == configured.pending(configured.len()) && configured.pending(
            configured.len(),
        ).len() > 0 implies call_requires(compile, (group,)) by {
        assert(group@.map_values(|app: &App| *app).len() == group@.len());
    }
    results.gather(compile);
    let ghost compiled = results@;
    let install = |app: &App| -> (outcome: BuildResult)
        ensures
            install_step(*run)(*app, outcome),
        { perform(plan_install(app), run) };
    results.map(install);
    proof {
        results.lemma_wf();
        lemma_mapped_continues(generated, configure, configured);
        lemma_gathered_continues(configured, compile, compiled);
        lemma_mapped_continues(compiled, install, results@);
        lemma_continued_transitive(start, generated, configured);
        lemma_continued_transitive(start, configured, compiled);
        lemma_continued_transitive(start, compiled, results@);
        lemma_mapped_by(generated, configure, configured, configure_step(*options, *run));
        lemma_gathered_by(configured, compile, compiled, compile_step(*run));
        lemma_mapped_by(compiled, install, results@, install_step(*run));
        assert(generated.mapped_by(configure_step(*options, *run), configured)
            && configured.gathered_by(compile_step(*run), compiled) && compiled.mapped_by(
            install_step(*run),
            results@,
        ));
        assert(built(old(results)@, *options, *run, results@));
    }
}

impl BatchBackend for CmakeCpp {
    /// Builds every app with CMake for a build and removes the build output
    /// of every app for a clean. An update leaves the batch alone.
    fn execute_command<R>(&mut self, command: &CommandSpec, results: &mut BatchBuildResults, run: &R) where
        R: Fn(&Action) -> BuildResult + Send + Sync,

        ensures
            executed(*command, old(results)@, *run, final(results)@),
    {
        match command {
            CommandSpec::Build(options) => do_cmake_build(results, options, run),
            CommandSpec::Clean => {
                clean_all(results, run);
            },
            _ => {
                proof {
                    results.lemma_wf();
                }
            },
        }
    }
}

} // verus!
