use std::cell::RefCell;
use std::sync::Arc;
use std::sync::Mutex;

use lingo::args::{BuildSystem, Platform, TargetLanguage};
use lingo::backends::{
    dispatch, enrich, execute_command, group_apps, BatchBuildResults, BuildCommandOptions,
    BuildProfile, CommandSpec,
};
use lingo::package::lock::DependencyLock;
use lingo::package::management::DependencyManager;
use lingo::package::target_properties::{AppTargetProperties, AutoCmakeLoad, LibraryTargetProperties};
use lingo::package::tree::{DependencyTreeNode, PackageDetails, ProjectSource};
use lingo::package::version::{Requirement, Versioning};
use lingo::package::{App, Config, PackageDescription};
use lingo::util::errors::{BuildResult, LingoError};
use lingo::util::Action;
use lingo::WhichError;

fn app(name: &str, target: TargetLanguage, platform: Platform) -> App {
    App {
        root_path: "/project".to_string(),
        name: name.to_string(),
        output_root: "/project/build".to_string(),
        main_reactor: format!("/project/src/{}.lf", name),
        main_reactor_name: name.to_string(),
        target,
        platform,
        properties: AppTargetProperties::default(),
    }
}

fn cpp(name: &str) -> App {
    app(name, TargetLanguage::Cpp, Platform::Native)
}

fn fail(name: &str) -> LingoError {
    LingoError::CommandFailed(format!("build {}", name), "exit status: 1".to_string())
}

fn outcomes(batch: &BatchBuildResults) -> Vec<(String, String)> {
    (0..batch.len())
        .map(|i| {
            (
                batch.app(i).name.clone(),
                match batch.outcome(i) {
                    Ok(()) => "ok".to_string(),
                    Err(error) => error.to_string(),
                },
            )
        })
        .collect()
}

fn line(name: &str, outcome: &str) -> (String, String) {
    (name.to_string(), outcome.to_string())
}

#[test]
fn new_batch_is_empty() {
    let batch = BatchBuildResults::new();
    assert_eq!(batch.len(), 0);
    assert!(!batch.is_aborted());
    assert!(!batch.has_failed());
    assert!(batch.print_results().is_empty());
}

#[test]
fn batch_for_apps_holds_one_pending_entry_per_app() {
    let apps = vec![cpp("A"), cpp("B"), cpp("C")];
    let refs: Vec<&App> = apps.iter().collect();
    let batch = BatchBuildResults::for_apps(&refs);
    assert_eq!(outcomes(&batch), vec![line("A", "ok"), line("B", "ok"), line("C", "ok")]);
    assert!(!batch.is_aborted());
    assert!(!batch.has_failed());
}

#[test]
fn map_with_keep_going_isolates_failures() {
    let apps = vec![cpp("A"), cpp("B"), cpp("C")];
    let refs: Vec<&App> = apps.iter().collect();
    let mut batch = BatchBuildResults::for_apps(&refs);
    batch.keep_going(true);
    let attempted = RefCell::new(Vec::new());
    batch.map(|app: &App| {
        attempted.borrow_mut().push(app.name.clone());
        if app.name == "B" {
            Err(fail("B"))
        } else {
            Ok(())
        }
    });
    assert_eq!(attempted.into_inner(), vec!["A", "B", "C"]);
    assert!(batch.outcome(0).is_ok());
    assert!(matches!(batch.outcome(1), Err(LingoError::CommandFailed(command, _)) if command == "build B"));
    assert!(batch.outcome(2).is_ok());
    assert!(!batch.is_aborted());
    assert!(batch.has_failed());
}

#[test]
fn map_without_keep_going_halts_at_first_failure() {
    let apps = vec![cpp("A"), cpp("B"), cpp("C")];
    let refs: Vec<&App> = apps.iter().collect();
    let mut batch = BatchBuildResults::for_apps(&refs);
    let attempted = RefCell::new(Vec::new());
    batch.map(|app: &App| {
        attempted.borrow_mut().push(app.name.clone());
        if app.name == "B" {
            Err(fail("B"))
        } else {
            Ok(())
        }
    });
    assert_eq!(attempted.into_inner(), vec!["A", "B"]);
    assert!(batch.outcome(0).is_ok());
    assert!(matches!(batch.outcome(1), Err(LingoError::CommandFailed(_, _))));
    assert!(matches!(batch.outcome(2), Err(LingoError::Aborted)));
    assert!(batch.is_aborted());
}

#[test]
fn stopped_batch_runs_no_later_step() {
    let apps = vec![cpp("A"), cpp("B")];
    let refs: Vec<&App> = apps.iter().collect();
    let mut batch = BatchBuildResults::for_apps(&refs);
    batch.map(|app: &App| if app.name == "B" { Err(fail("B")) } else { Ok(()) });
    assert!(batch.is_aborted());
    let calls = RefCell::new(0);
    batch.map(|_app: &App| {
        *calls.borrow_mut() += 1;
        Ok(())
    });
    batch.par_map(|_app: &App| -> BuildResult { panic!("a stopped batch runs nothing") });
    batch.gather(|_apps: &Vec<&App>| -> BuildResult { panic!("a stopped batch runs nothing") });
    assert_eq!(*calls.borrow(), 0);
    assert!(batch.outcome(0).is_ok());
    assert!(matches!(batch.outcome(1), Err(LingoError::CommandFailed(_, _))));
}

#[test]
fn failed_app_is_not_fed_to_later_steps() {
    let apps = vec![cpp("A"), cpp("B"), cpp("C")];
    let refs: Vec<&App> = apps.iter().collect();
    let mut batch = BatchBuildResults::for_apps(&refs);
    batch.keep_going(true);
    batch.map(|app: &App| if app.name == "B" { Err(fail("B")) } else { Ok(()) });
    let second = RefCell::new(Vec::new());
    batch.map(|app: &App| {
        second.borrow_mut().push(app.name.clone());
        Ok(())
    });
    assert_eq!(second.into_inner(), vec!["A", "C"]);
    let third = Mutex::new(Vec::new());
    batch.par_map(|app: &App| {
        third.lock().unwrap().push(app.name.clone());
        Ok(())
    });
    let mut seen = third.into_inner().unwrap();
    seen.sort();
    assert_eq!(seen, vec!["A", "C"]);
    assert!(matches!(batch.outcome(1), Err(LingoError::CommandFailed(command, _)) if command == "build B"));
}

#[test]
fn steps_can_be_chained() {
    let apps = vec![cpp("A"), cpp("B"), cpp("C")];
    let refs: Vec<&App> = apps.iter().collect();
    let mut batch = BatchBuildResults::for_apps(&refs);
    batch.keep_going(true);
    let log = Mutex::new(Vec::new());
    batch
        .map(|app: &App| if app.name == "A" { Err(fail("A")) } else { Ok(()) })
        .par_map(|app: &App| if app.name == "B" { Err(fail("B")) } else { Ok(()) })
        .gather(|apps: &Vec<&App>| {
            log.lock().unwrap().push(apps.iter().map(|app| app.name.clone()).collect::<Vec<_>>());
            Ok(())
        })
        .map(|app: &App| {
            log.lock().unwrap().push(vec![app.name.clone()]);
            Ok(())
        });
    assert_eq!(log.into_inner().unwrap(), vec![vec!["C".to_string()], vec!["C".to_string()]]);
    assert!(batch.outcome(0).is_err());
    assert!(batch.outcome(1).is_err());
    assert!(batch.outcome(2).is_ok());
}

#[test]
fn par_map_records_each_outcome_at_its_app() {
    let apps: Vec<App> = (0..40).map(|i| cpp(&format!("app{:02}", i))).collect();
    let refs: Vec<&App> = apps.iter().collect();
    let mut batch = BatchBuildResults::for_apps(&refs);
    batch.keep_going(true);
    batch.par_map(|app: &App| {
        if app.name.ends_with('3') {
            Err(fail(&app.name))
        } else {
            Ok(())
        }
    });
    for i in 0..batch.len() {
        let name = &batch.app(i).name;
        match batch.outcome(i) {
            Ok(()) => assert!(!name.ends_with('3')),
            Err(LingoError::CommandFailed(command, _)) => {
                assert!(name.ends_with('3'));
                assert_eq!(command, &format!("build {}", name));
            }
            Err(_) => panic!("unexpected failure"),
        }
    }
    assert!(!batch.is_aborted());
}

#[test]
fn par_map_without_keep_going_stops_the_batch() {
    let apps = vec![cpp("A"), cpp("B"), cpp("C")];
    let refs: Vec<&App> = apps.iter().collect();
    let mut batch = BatchBuildResults::for_apps(&refs);
    batch.par_map(|app: &App| if app.name == "B" { Err(fail("B")) } else { Ok(()) });
    assert!(batch.outcome(0).is_ok());
    assert!(matches!(batch.outcome(1), Err(LingoError::CommandFailed(_, _))));
    assert!(matches!(batch.outcome(2), Err(LingoError::Aborted)));
    assert!(batch.is_aborted());
}

#[test]
fn gather_runs_once_for_all_pending_apps() {
    let apps = vec![cpp("A"), cpp("B"), cpp("C")];
    let refs: Vec<&App> = apps.iter().collect();
    let mut batch = BatchBuildResults::for_apps(&refs);
    batch.keep_going(true);
    batch.map(|app: &App| if app.name == "A" { Err(fail("A")) } else { Ok(()) });
    let seen = RefCell::new(Vec::new());
    batch.gather(|apps: &Vec<&App>| {
        seen.borrow_mut().push(apps.iter().map(|app| app.name.clone()).collect::<Vec<_>>());
        Ok(())
    });
    assert_eq!(seen.into_inner(), vec![vec!["B".to_string(), "C".to_string()]]);
    assert!(batch.outcome(0).is_err());
    assert!(batch.outcome(1).is_ok());
    assert!(batch.outcome(2).is_ok());
}

#[test]
fn gather_failure_is_shared_by_the_group() {
    let apps = vec![cpp("A"), cpp("B")];
    let refs: Vec<&App> = apps.iter().collect();
    let mut batch = BatchBuildResults::for_apps(&refs);
    batch.keep_going(true);
    batch.gather(|_apps: &Vec<&App>| Err(fail("all")));
    let first = match batch.outcome(0) {
        Err(LingoError::Shared(error)) => error.clone(),
        _ => panic!("A receives the shared failure"),
    };
    let second = match batch.outcome(1) {
        Err(LingoError::Shared(error)) => error.clone(),
        _ => panic!("B receives the shared failure"),
    };
    assert!(Arc::ptr_eq(&first, &second));
    assert!(matches!(&*first, LingoError::CommandFailed(command, _) if command == "build all"));
    assert!(!batch.is_aborted());
}

#[test]
fn gather_failure_without_keep_going_stops_the_batch() {
    let apps = vec![cpp("A"), cpp("B")];
    let refs: Vec<&App> = apps.iter().collect();
    let mut batch = BatchBuildResults::for_apps(&refs);
    batch.gather(|_apps: &Vec<&App>| Err(fail("all")));
    assert!(matches!(batch.outcome(0), Err(LingoError::Shared(_))));
    assert!(matches!(batch.outcome(1), Err(LingoError::Shared(_))));
    assert!(batch.is_aborted());
}

#[test]
fn gather_spares_apps_that_failed_before() {
    let apps = vec![cpp("A"), cpp("B")];
    let refs: Vec<&App> = apps.iter().collect();
    let mut batch = BatchBuildResults::for_apps(&refs);
    batch.keep_going(true);
    batch.map(|app: &App| if app.name == "A" { Err(fail("A")) } else { Ok(()) });
    batch.gather(|_apps: &Vec<&App>| Err(fail("all")));
    assert!(matches!(batch.outcome(0), Err(LingoError::CommandFailed(command, _)) if command == "build A"));
    assert!(matches!(batch.outcome(1), Err(LingoError::Shared(_))));
}

#[test]
fn gather_is_not_run_without_pending_apps() {
    let apps = vec![cpp("A")];
    let refs: Vec<&App> = apps.iter().collect();
    let mut batch = BatchBuildResults::for_apps(&refs);
    batch.keep_going(true);
    batch.map(|_app: &App| Err(fail("A")));
    batch.gather(|_apps: &Vec<&App>| -> BuildResult { panic!("nothing is pending") });
    assert!(matches!(batch.outcome(0), Err(LingoError::CommandFailed(_, _))));
}

#[test]
fn append_sorts_by_name_and_keeps_outcomes() {
    let first = vec![cpp("delta"), cpp("alpha")];
    let second = vec![cpp("charlie"), cpp("bravo")];
    let first_refs: Vec<&App> = first.iter().collect();
    let second_refs: Vec<&App> = second.iter().collect();
    let mut left = BatchBuildResults::for_apps(&first_refs);
    left.keep_going(true);
    left.map(|app: &App| if app.name == "alpha" { Err(fail("alpha")) } else { Ok(()) });
    let mut right = BatchBuildResults::for_apps(&second_refs);
    right.keep_going(true);
    right.map(|app: &App| if app.name == "charlie" { Err(LingoError::InvalidMainReactor) } else { Ok(()) });
    let mut all = BatchBuildResults::new();
    all.append(left);
    all.append(right);
    assert_eq!(
        outcomes(&all),
        vec![
            line("alpha", "Command exited with status exit status: 1: build alpha"),
            line("bravo", "ok"),
            line("charlie", "Not a valid path path to a file that contains a main reactor"),
            line("delta", "ok"),
        ]
    );
    assert!(!all.is_aborted());
}

#[test]
fn append_is_stable_for_equal_names() {
    let first = vec![cpp("same")];
    let second = vec![cpp("same"), cpp("Same"), cpp("sam")];
    let first_refs: Vec<&App> = first.iter().collect();
    let second_refs: Vec<&App> = second.iter().collect();
    let mut left = BatchBuildResults::for_apps(&first_refs);
    left.keep_going(true);
    left.map(|_app: &App| Err(fail("first")));
    let right = BatchBuildResults::for_apps(&second_refs);
    let mut all = BatchBuildResults::new();
    all.append(left);
    all.append(right);
    assert_eq!(
        outcomes(&all),
        vec![
            line("Same", "ok"),
            line("sam", "ok"),
            line("same", "Command exited with status exit status: 1: build first"),
            line("same", "ok"),
        ]
    );
}

#[test]
fn append_of_a_stopped_batch_stops_the_whole() {
    let apps = vec![cpp("A")];
    let refs: Vec<&App> = apps.iter().collect();
    let mut stopped = BatchBuildResults::for_apps(&refs);
    stopped.map(|_app: &App| Err(fail("A")));
    let mut all = BatchBuildResults::new();
    all.append(stopped);
    assert!(all.is_aborted());
}

#[test]
fn results_are_printed_one_line_per_app() {
    let apps = vec![cpp("A"), cpp("B")];
    let refs: Vec<&App> = apps.iter().collect();
    let mut batch = BatchBuildResults::for_apps(&refs);
    batch.keep_going(true);
    batch.map(|app: &App| if app.name == "B" { Err(LingoError::UseWestBuildToBuildApp) } else { Ok(()) });
    assert_eq!(
        batch.print_results(),
        vec![
            "- A: Success".to_string(),
            "- B: Error: Use `west lf-build` to build and run Zephyr programs.".to_string(),
        ]
    );
}

#[test]
fn apps_are_grouped_by_build_system_and_language() {
    let apps = vec![
        cpp("a"),
        app("b", TargetLanguage::C, Platform::Native),
        cpp("c"),
        app("d", TargetLanguage::TypeScript, Platform::Native),
        app("e", TargetLanguage::C, Platform::Native),
        app("f", TargetLanguage::Rust, Platform::Native),
    ];
    let systems = vec![
        BuildSystem::CMake,
        BuildSystem::CMake,
        BuildSystem::CMake,
        BuildSystem::Npm,
        BuildSystem::CMake,
        BuildSystem::LFC,
    ];
    let groups = group_apps(&apps, &systems);
    let found: Vec<(BuildSystem, TargetLanguage, Vec<&str>)> = groups
        .iter()
        .map(|group| {
            (group.build_system, group.target, group.apps.iter().map(|app| app.name.as_str()).collect())
        })
        .collect();
    assert_eq!(
        found,
        vec![
            (BuildSystem::CMake, TargetLanguage::Cpp, vec!["a", "c"]),
            (BuildSystem::CMake, TargetLanguage::C, vec!["b", "e"]),
            (BuildSystem::Npm, TargetLanguage::TypeScript, vec!["d"]),
            (BuildSystem::LFC, TargetLanguage::Rust, vec!["f"]),
        ]
    );
}

#[test]
fn enrich_merges_library_code_into_every_app() {
    let mut apps = vec![cpp("a"), cpp("b")];
    apps[0].properties.cmake_include = AutoCmakeLoad::new("own".to_string());
    let library = LibraryTargetProperties {
        cmake_include: AutoCmakeLoad::new("lib".to_string()),
        sources: Vec::new(),
        artifacts: Vec::new(),
    };
    enrich(&mut apps, &library);
    assert_eq!(apps[0].name, "a");
    assert_eq!(apps[0].properties.cmake_include.as_str(), "own\n# ------------------------- \nlib");
    assert_eq!(apps[1].properties.cmake_include.as_str(), "\n# ------------------------- \nlib");
}

fn config(apps: Vec<App>) -> Config {
    Config {
        package: PackageDescription {
            name: "project".to_string(),
            version: Versioning::new("0.1.0").unwrap(),
            authors: None,
            website: None,
            license: None,
            description: None,
        },
        apps,
        library: None,
        dependencies: vec![(
            "io".to_string(),
            PackageDetails {
                version: Requirement::new("*").unwrap(),
                mutual_exclusive: ProjectSource::Path("../io".to_string()),
                git_tag: None,
                git_rev: None,
            },
        )],
    }
}

fn options(keep_going: bool) -> BuildCommandOptions {
    BuildCommandOptions {
        profile: BuildProfile::Debug,
        compile_target_code: false,
        lfc_exec_path: "/opt/lfc/bin/lfc".to_string(),
        max_threads: 0,
        keep_going,
    }
}

fn no_pnpm(_binary: &str) -> Result<String, WhichError> {
    Err(WhichError::CannotFindBinaryPath)
}

fn manager_with(code: &str) -> DependencyManager {
    let node = DependencyTreeNode {
        name: "io".to_string(),
        version: Versioning::new("1.0.0").unwrap(),
        package: PackageDetails {
            version: Requirement::new("*").unwrap(),
            mutual_exclusive: ProjectSource::Path("../io".to_string()),
            git_tag: None,
            git_rev: None,
        },
        location: "build/libraries/x".to_string(),
        include_path: "src/lib".to_string(),
        hash: "x".to_string(),
        dependencies: Vec::new(),
        properties: LibraryTargetProperties {
            cmake_include: AutoCmakeLoad::new(code.to_string()),
            sources: Vec::new(),
            artifacts: Vec::new(),
        },
    };
    DependencyManager { pulling_queue: Vec::new(), lock: DependencyLock::create(vec![node]) }
}

#[test]
fn execute_build_runs_every_app_and_sorts_by_name() {
    let mut config = config(vec![
        app("zeta", TargetLanguage::C, Platform::Native),
        cpp("beta"),
        app("alpha", TargetLanguage::TypeScript, Platform::Native),
    ]);
    let runs = Mutex::new(Vec::new());
    let result = execute_command(
        &CommandSpec::Build(options(true)),
        &mut config,
        &no_pnpm,
        |_dependencies: &Vec<(String, PackageDetails)>| Ok(manager_with("lib")),
        &|action: &Action| {
            if let Action::Run { program, .. } = action {
                runs.lock().unwrap().push(program.clone());
            }
            Ok(())
        },
    );
    assert_eq!(outcomes(&result), vec![line("alpha", "ok"), line("beta", "ok"), line("zeta", "ok")]);
    assert_eq!(runs.into_inner().unwrap().len(), 3);
    assert_eq!(
        result.app(0).properties.cmake_include.as_str(),
        "\n# ------------------------- \n\n# ------------------------- \nlib"
    );
}

#[test]
fn execute_build_isolates_failure_with_keep_going() {
    let mut config = config(vec![cpp("A"), cpp("B"), cpp("C")]);
    let result = execute_command(
        &CommandSpec::Build(options(true)),
        &mut config,
        &no_pnpm,
        |_dependencies: &Vec<(String, PackageDetails)>| Ok(manager_with("")),
        &|action: &Action| match action {
            Action::CreateDirAll(_) => Ok(()),
            Action::Run { args, .. } if args[0].contains("/project/src/B.lf") => Err(fail("B")),
            _ => Ok(()),
        },
    );
    assert!(result.outcome(0).is_ok());
    assert!(matches!(result.outcome(1), Err(LingoError::CommandFailed(command, _)) if command == "build B"));
    assert!(result.outcome(2).is_ok());
    assert!(!result.is_aborted());
}

#[test]
fn execute_build_without_keep_going_stops_later_groups() {
    let mut config = config(vec![
        cpp("A"),
        app("B", TargetLanguage::C, Platform::Native),
        app("C", TargetLanguage::Python, Platform::Native),
    ]);
    let attempted = Mutex::new(Vec::new());
    let result = execute_command(
        &CommandSpec::Build(options(false)),
        &mut config,
        &no_pnpm,
        |_dependencies: &Vec<(String, PackageDetails)>| Ok(manager_with("")),
        &|action: &Action| match action {
            Action::Run { args, .. } => {
                attempted.lock().unwrap().push(args[0].clone());
                Err(fail("first"))
            }
            _ => Ok(()),
        },
    );
    assert_eq!(attempted.into_inner().unwrap().len(), 1);
    assert!(matches!(result.outcome(0), Err(LingoError::CommandFailed(_, _))));
    assert!(matches!(result.outcome(1), Err(LingoError::Aborted)));
    assert!(matches!(result.outcome(2), Err(LingoError::Aborted)));
    assert!(result.is_aborted());
}

#[test]
fn execute_build_refuses_zephyr_apps() {
    let mut config = config(vec![cpp("native"), app("board", TargetLanguage::C, Platform::Zephyr)]);
    let result = execute_command(
        &CommandSpec::Build(options(true)),
        &mut config,
        &no_pnpm,
        |_dependencies: &Vec<(String, PackageDetails)>| Ok(manager_with("")),
        &|_action: &Action| Ok(()),
    );
    assert_eq!(
        outcomes(&result),
        vec![
            line("board", "Use `west lf-build` to build and run Zephyr programs."),
            line("native", "ok"),
        ]
    );
}

#[test]
fn execute_build_fails_every_app_when_resolution_fails() {
    let mut config = config(vec![cpp("B"), cpp("A")]);
    let result = execute_command(
        &CommandSpec::Build(options(true)),
        &mut config,
        &no_pnpm,
        |_dependencies: &Vec<(String, PackageDetails)>| Err(LingoError::NoViableVersion("io".to_string())),
        &|_action: &Action| -> BuildResult { panic!("nothing is built") },
    );
    assert_eq!(result.len(), 2);
    assert_eq!(result.app(0).name, "A");
    for i in 0..2 {
        match result.outcome(i) {
            Err(LingoError::Shared(error)) => {
                assert!(matches!(&**error, LingoError::NoViableVersion(name) if name == "io"))
            }
            _ => panic!("every app fails with the failure of the resolution"),
        }
    }
}

#[test]
fn execute_hands_the_dependencies_to_the_resolution() {
    let mut config = config(vec![cpp("A")]);
    let seen = RefCell::new(Vec::new());
    let _ = execute_command(
        &CommandSpec::Build(options(true)),
        &mut config,
        &no_pnpm,
        |dependencies: &Vec<(String, PackageDetails)>| {
            seen.borrow_mut().extend(dependencies.iter().map(|(name, _)| name.clone()));
            Ok(manager_with(""))
        },
        &|_action: &Action| Ok(()),
    );
    assert_eq!(seen.into_inner(), vec!["io"]);
}

#[test]
fn execute_clean_removes_output_root_and_artifacts() {
    let mut config = config(vec![cpp("A"), app("B", TargetLanguage::TypeScript, Platform::Native)]);
    let actions = Mutex::new(Vec::new());
    let result = execute_command(
        &CommandSpec::Clean,
        &mut config,
        &no_pnpm,
        |_dependencies: &Vec<(String, PackageDetails)>| -> Result<DependencyManager, LingoError> {
            panic!("a clean resolves nothing")
        },
        &|action: &Action| {
            let text = match action {
                Action::RemoveDirAll(path) => format!("remove {}", path),
                Action::DeleteSubdirs { root, subdirs } => format!("delete {} {}", root, subdirs.join(",")),
                _ => "other".to_string(),
            };
            actions.lock().unwrap().push(text);
            Ok(())
        },
    );
    assert_eq!(outcomes(&result), vec![line("A", "ok"), line("B", "ok")]);
    assert_eq!(
        actions.into_inner().unwrap(),
        vec![
            "remove /project/build".to_string(),
            "delete /project/build bin,include,src-gen,lib64,share,build".to_string(),
            "delete /project/build bin,include,src-gen,lib64,share,build".to_string(),
            "delete /project/build node_modules,dist".to_string(),
        ]
    );
}

#[test]
fn execute_update_leaves_every_app_pending() {
    let mut config = config(vec![cpp("A")]);
    let result = execute_command(
        &CommandSpec::Update,
        &mut config,
        &no_pnpm,
        |_dependencies: &Vec<(String, PackageDetails)>| -> Result<DependencyManager, LingoError> {
            panic!("an update resolves nothing here")
        },
        &|_action: &Action| -> BuildResult { panic!("an update runs nothing here") },
    );
    assert_eq!(outcomes(&result), vec![line("A", "ok")]);
}

#[test]
fn execute_of_empty_project_gives_empty_results() {
    let mut config = config(Vec::new());
    let result = execute_command(
        &CommandSpec::Clean,
        &mut config,
        &no_pnpm,
        |_dependencies: &Vec<(String, PackageDetails)>| Ok(manager_with("")),
        &|_action: &Action| -> BuildResult { panic!("there is nothing to clean") },
    );
    assert_eq!(result.len(), 0);
}

#[test]
fn dispatch_fails_group_without_backend() {
    let apps = vec![app("a", TargetLanguage::C, Platform::Native)];
    let refs: Vec<&App> = apps.iter().collect();
    let mut batch = BatchBuildResults::for_apps(&refs);
    batch.keep_going(true);
    dispatch(BuildSystem::Cargo, TargetLanguage::Rust, &CommandSpec::Clean, &mut batch, &|_action: &Action| Ok(()));
    assert!(matches!(batch.outcome(0), Err(LingoError::UnsupportedBuildSystem)));
    let mut other = BatchBuildResults::for_apps(&refs);
    dispatch(BuildSystem::Npm, TargetLanguage::C, &CommandSpec::Clean, &mut other, &|_action: &Action| Ok(()));
    assert!(matches!(other.outcome(0), Err(LingoError::UnsupportedBuildSystem)));
}
