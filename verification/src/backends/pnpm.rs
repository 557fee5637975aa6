//! Building TypeScript apps with pnpm.

use vstd::prelude::*;

use crate::backends::cmake_c::{executable_of, perform};
use crate::backends::lfc::{codegen_step, LFC};
use crate::backends::npm::{build_arguments, clean_all, clean_step, extract_name};
use crate::backends::{
    lemma_continued_transitive, lemma_mapped_by, lemma_mapped_continues, BatchBackend,
    BatchBuildResults, BatchView, BuildCommandOptions, BuildProfile, CommandSpec,
};
use crate::package::target_properties::texts;
use crate::package::App;
use crate::util::errors::{BuildResult, LingoError};
use crate::util::path::{file_stem_of, join, joined};
use crate::util::text::concat;
use crate::util::{action_views, outcome_of, Action, ActionView};

verus! {

/// Builds TypeScript apps with pnpm.
pub struct Pnpm;

/// One run of pnpm in the folder of the generated code of an app, with the
/// argument for release builds where the profile is release. An app whose
/// main reactor names no file has no plan.
pub open spec fn pnpm_plan(
    app: App,
    options: BuildCommandOptions,
    arguments: Seq<Seq<char>>,
    release: Seq<char>,
) -> Option<Seq<ActionView>> {
    match file_stem_of(app.main_reactor@) {
        Some(name) => Some(
            seq![
                ActionView::Run {
                    program: "pnpm"@,
                    args: if options.profile == BuildProfile::Release {
                        arguments.push(release)
                    } else {
                        arguments
                    },
                    current_dir: Some(joined(joined(app.output_root@, "src-gen"@), name)),
                },
            ],
        ),
        None => None,
    }
}

/// What is left to do once an app is built: the folder of executables is
/// created and the script that was built is moved to the place of the
/// executable. An app whose main reactor names no file has no plan.
pub open spec fn finish_plan(app: App) -> Option<Seq<ActionView>> {
    match file_stem_of(app.main_reactor@) {
        Some(name) => Some(
            seq![
                ActionView::CreateDirAll(joined(app.output_root@, "bin"@)),
                ActionView::Rename {
                    from: joined(
                        joined(joined(joined(app.output_root@, "src-gen"@), name), "dist"@),
                        name + ".js"@,
                    ),
                    to: executable_of(app),
                },
            ],
        ),
        None => None,
    }
}

/// The plan of one run of pnpm for an app.
pub fn plan_pnpm(app: &App, options: &BuildCommandOptions, arguments: &[&str], release: &str) -> (result:
    Result<Vec<Action>, LingoError>)
    ensures
        match result {
            Ok(plan) => pnpm_plan(
                *app,
                *options,
                arguments@.map_values(|text: &str| text@),
                release@,
            ) == Some(action_views(plan@)),
            Err(error) => file_stem_of(app.main_reactor@) is None && error is InvalidMainReactor,
        },
{
    let file_name = match extract_name(app) {
        Ok(name) => name,
        Err(error) => {
            return Err(error);
        },
    };
    let path = join(join(app.output_root.as_str(), "src-gen").as_str(), file_name.as_str());
    let mut args = crate::util::owned_texts(arguments);
    if options.profile == BuildProfile::Release {
        let ghost before = texts(args@);
        args.push(release.to_owned());
        assert(texts(args@) =~= before.push(release@));
    }
    let mut plan: Vec<Action> = Vec::new();
    plan.push(Action::Run { program: "pnpm".to_owned(), args, current_dir: Some(path) });
    assert(action_views(plan@) =~= pnpm_plan(
        *app,
        *options,
        arguments@.map_values(|text: &str| text@),
        release@,
    ).unwrap());
    Ok(plan)
}

/// The plan of what is left to do once an app is built.
pub fn plan_finish(app: &App) -> (result: Result<Vec<Action>, LingoError>)
    ensures
        match result {
            Ok(plan) => finish_plan(*app) == Some(action_views(plan@)),
            Err(error) => finish_plan(*app) is None && error is InvalidMainReactor,
        },
{
    let file_name = match extract_name(app) {
        Ok(name) => name,
        Err(error) => {
            return Err(error);
        },
    };
    let generated = join(join(app.output_root.as_str(), "src-gen").as_str(), file_name.as_str());
    let script = concat(file_name.as_str(), ".js");
    let path = join(join(generated.as_str(), "dist").as_str(), script.as_str());
    let mut plan: Vec<Action> = Vec::new();
    plan.push(Action::CreateDirAll(join(app.output_root.as_str(), "bin")));
    // cleanup: rename executable to match the app name
    plan.push(Action::Rename { from: path, to: app.executable_path() });
    assert(action_views(plan@) =~= finish_plan(*app).unwrap());
    Ok(plan)
}

/// The outcomes that one run of pnpm for an app can have.
pub open spec fn pnpm_step<R>(
    options: BuildCommandOptions,
    arguments: Seq<Seq<char>>,
    release: Seq<char>,
    run: R,
) -> spec_fn(App, BuildResult) -> bool where R: Fn(&Action) -> BuildResult {
    |app: App, outcome: BuildResult|
        outcome_of(pnpm_plan(app, options, arguments, release), run, outcome)
}

/// The arguments with which the packages of an app are installed.
pub open spec fn install_arguments() -> Seq<Seq<char>> {
    seq!["install"@]
}

/// The outcomes that what is left to do once an app is built can have.
pub open spec fn finish_step<R>(run: R) -> spec_fn(App, BuildResult) -> bool where
    R: Fn(&Action) -> BuildResult,
 {
    |app: App, outcome: BuildResult| outcome_of(finish_plan(app), run, outcome)
}

/// Whether `after` is the batch `before` after a build of TypeScript apps
/// with pnpm: the batch keeps going as the options say, the code of every
/// app is generated, and unless only code is asked for, the packages of
/// each app are installed, the app is built, and its script is moved to
/// the place of the executable.
pub open spec fn built<R>(before: BatchView, options: BuildCommandOptions, run: R, after: BatchView) -> bool where
    R: Fn(&Action) -> BuildResult,
 {
    exists|generated: BatchView|
        {
            &&& #[trigger] before.keeping(options.keep_going).mapped_by(
                codegen_step(options, false, run),
                generated,
            )
            &&& if options.compile_target_code {
                exists|installed: BatchView, compiled: BatchView|
                    {
                        &&& #[trigger] generated.mapped_by(
                            pnpm_step(options, install_arguments(), "--prod"@, run),
                            installed,
                        )
                        &&& #[trigger] installed.mapped_by(
                            pnpm_step(options, build_arguments(), "--production"@, run),
                            compiled,
                        )
                        &&& compiled.mapped_by(finish_step(run), after)
                    }
            } else {
                after == generated
            }
        }
}

/// Whether `after` is the batch `before` after the command was run with
/// pnpm: a build builds the apps, a clean removes the build output of
/// every app and what pnpm left, and an update leaves the batch alone.
pub open spec fn executed<R>(command: CommandSpec, before: BatchView, run: R, after: BatchView) -> bool where
    R: Fn(&Action) -> BuildResult,
 {
    match command {
        CommandSpec::Build(options) => built(before, options, run, after),
        CommandSpec::Clean => before.mapped_by(clean_step(run), after),
        CommandSpec::Update => after == before,
    }
}

/// Builds the apps of the batch: their code is generated, and unless only
/// code is asked for, the packages of each app are installed, the app is
/// built, and its script is moved to the place of the executable.
pub fn do_pnpm_build<R>(results: &mut BatchBuildResults, options: &BuildCommandOptions, run: &R) where
    R: Fn(&Action) -> BuildResult + Send + Sync,

    requires
        forall|action: &Action| call_requires(*run, (action,)),
    ensures
        old(results)@.continued(final(results)@),
        built(old(results)@, *options, *run, final(results)@),
{
    proof {
        results.lemma_wf();
    }
    results.keep_going(options.keep_going);
    let ghost start = results@;
    LFC::do_parallel_lfc_codegen(options, results, false, run);
    let ghost generated = results@;
    proof {
        results.lemma_wf();
        assert(start == old(results)@.keeping(options.keep_going));
        assert(start.mapped_by(codegen_step(*options, false, *run), generated));
    }
    if !options.compile_target_code {
        assert(built(old(results)@, *options, *run, results@));
        return ;
    }
    let install = |app: &App| -> (outcome: BuildResult)
        ensures
            pnpm_step(*options, install_arguments(), "--prod"@, *run)(*app, outcome),
        {
            let arguments = ["install"];
            assert(arguments@.map_values(|text: &str| text@) =~= install_arguments());
            // different to npm
            perform(plan_pnpm(app, options, arguments.as_slice(), "--prod"), run)
        };
    results.map(install);
    let ghost installed = results@;
    let build = |app: &App| -> (outcome: BuildResult)
        ensures
            pnpm_step(*options, build_arguments(), "--production"@, *run)(*app, outcome),
        {
            let arguments = ["run", "build"];
            assert(arguments@.map_values(|text: &str| text@) =~= build_arguments());
            perform(plan_pnpm(app, options, arguments.as_slice(), "--production"), run)
        };
    results.map(build);
    let ghost compiled = results@;
    let finish = |app: &App| -> (outcome: BuildResult)
        ensures
            finish_step(*run)(*app, outcome),
        { perform(plan_finish(app), run) };
    results.map(finish);
    proof {
        results.lemma_wf();
        lemma_mapped_continues(generated, install, installed);
        lemma_mapped_continues(installed, build, compiled);
        lemma_mapped_continues(compiled, finish, results@);
        lemma_continued_transitive(start, generated, installed);
        lemma_continued_transitive(start, installed, compiled);
        lemma_continued_transitive(start, compiled, results@);
        lemma_mapped_by(
            generated,
            install,
            installed,
            pnpm_step(*options, install_arguments(), "--prod"@, *run),
        );
        lemma_mapped_by(
            installed,
            build,
            compiled,
            pnpm_step(*options, build_arguments(), "--production"@, *run),
        );
        lemma_mapped_by(compiled, finish, results@, finish_step(*run));
        assert(generated.mapped_by(
            pnpm_step(*options, install_arguments(), "--prod"@, *run),
            installed,
        ) && installed.mapped_by(
            pnpm_step(*options, build_arguments(), "--production"@, *run),
            compiled,
        ) && compiled.mapped_by(finish_step(*run), results@));
        assert(built(old(results)@, *options, *run, results@));
    }
}

impl BatchBackend for Pnpm {
    /// Builds every app with pnpm for a build and removes the build output
    /// of every app for a clean. An update leaves the batch alone.
    fn execute_command<R>(&mut self, command: &CommandSpec, results: &mut BatchBuildResults, run: &R) where
        R: Fn(&Action) -> BuildResult + Send + Sync,

        ensures
            executed(*command, old(results)@, *run, final(results)@),
    {
        match command {
            CommandSpec::Build(options) => do_pnpm_build(results, options, run),
            CommandSpec::Clean => {
                clean_all(results, run);
            },
            _ => {
                proof {
                    results.lemma_wf();
                }
            },
        }
    }
}

} // verus!
