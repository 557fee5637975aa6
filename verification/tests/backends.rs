use std::sync::Mutex;

use lingo::args::{Platform, TargetLanguage};
use lingo::backends::cmake_c;
use lingo::backends::cmake_c::CmakeC;
use lingo::backends::cmake_cpp;
use lingo::backends::cmake_cpp::CmakeCpp;
use lingo::backends::lfc::{LfcJsonArgs, LFC};
use lingo::backends::npm;
use lingo::backends::npm::{Npm, TypeScriptToolCommands};
use lingo::backends::pnpm;
use lingo::backends::pnpm::Pnpm;
use lingo::backends::{BatchBackend, BatchBuildResults, BuildCommandOptions, BuildProfile, CommandSpec};
use lingo::package::target_properties::{AppTargetProperties, AutoCmakeLoad};
use lingo::package::App;
use lingo::util::errors::{BuildResult, LingoError};
use lingo::util::{default_build_clean, delete_subdirs, run_all, Action};

fn app(name: &str, target: TargetLanguage) -> App {
    App {
        root_path: "/project".to_string(),
        name: name.to_string(),
        output_root: "/project/build".to_string(),
        main_reactor: format!("/project/src/{}.lf", name),
        main_reactor_name: name.to_string(),
        target,
        platform: Platform::Native,
        properties: AppTargetProperties {
            cmake_include: AutoCmakeLoad::new("set(X 1)".to_string()),
            fast: false,
        },
    }
}

fn options(profile: BuildProfile, compile: bool) -> BuildCommandOptions {
    BuildCommandOptions {
        profile,
        compile_target_code: compile,
        lfc_exec_path: "/opt/lfc/bin/lfc".to_string(),
        max_threads: 0,
        keep_going: true,
    }
}

fn show(action: &Action) -> String {
    match action {
        Action::CreateDirAll(path) => format!("mkdir {}", path),
        Action::RemoveDirAll(path) => format!("rmdir {}", path),
        Action::CopyDirAll { from, to } => format!("copy {} {}", from, to),
        Action::WriteFile { path, content } => format!("write {} {:?}", path, content),
        Action::AppendToFile { path, content } => format!("append {} {:?}", path, content),
        Action::Rename { from, to } => format!("rename {} {}", from, to),
        Action::Run { program, args, current_dir } => {
            format!("run [{}] {} {}", current_dir.clone().unwrap_or_default(), program, args.join(" | "))
        }
        Action::DeleteSubdirs { root, subdirs } => format!("delete {} {}", root, subdirs.join(",")),
    }
}

fn shown(plan: &[Action]) -> Vec<String> {
    plan.iter().map(show).collect()
}

#[test]
fn run_all_stops_at_first_failure() {
    let plan = vec![
        Action::CreateDirAll("a".to_string()),
        Action::CreateDirAll("b".to_string()),
        Action::CreateDirAll("c".to_string()),
    ];
    let seen = Mutex::new(Vec::new());
    let result = run_all(&plan, &|action: &Action| {
        seen.lock().unwrap().push(show(action));
        if show(action) == "mkdir b" {
            Err(LingoError::FetchFailed("b".to_string()))
        } else {
            Ok(())
        }
    });
    assert!(matches!(result, Err(LingoError::FetchFailed(reason)) if reason == "b"));
    assert_eq!(seen.into_inner().unwrap(), vec!["mkdir a", "mkdir b"]);
    assert!(run_all(&plan, &|_action: &Action| Ok(())).is_ok());
    assert!(run_all(&Vec::new(), &|_action: &Action| -> BuildResult { panic!("nothing to run") }).is_ok());
}

#[test]
fn clean_deletes_build_artifacts() {
    let seen = Mutex::new(Vec::new());
    let run = |action: &Action| {
        seen.lock().unwrap().push(show(action));
        Ok(())
    };
    assert!(default_build_clean("/project/build", &run).is_ok());
    assert!(delete_subdirs("/project/build", &["node_modules", "dist"], &run).is_ok());
    assert_eq!(
        seen.into_inner().unwrap(),
        vec![
            "delete /project/build bin,include,src-gen,lib64,share,build",
            "delete /project/build node_modules,dist"
        ]
    );
}

#[test]
fn lfc_arguments_as_json() {
    let blink = app("Blink", TargetLanguage::C);
    assert_eq!(
        LfcJsonArgs::new(&blink, true).to_string(),
        "{\"out\":\"/project/build\",\"properties\":{\"fast\":false},\"src\":\"/project/src/Blink.lf\"}"
    );
    assert_eq!(LfcJsonArgs::new(&blink, true).to_properties(), "{\"fast\":false}");
    assert_eq!(LfcJsonArgs::new(&blink, false).to_properties(), "{\"fast\":false,\"no-compile\":true}");
    let mut fast = app("Blink", TargetLanguage::C);
    fast.properties.fast = true;
    assert_eq!(LfcJsonArgs::new(&fast, false).to_properties(), "{\"fast\":true,\"no-compile\":true}");
}

#[test]
fn lfc_arguments_escape_paths() {
    let mut odd = app("Blink", TargetLanguage::C);
    odd.main_reactor = "/pro\"ject/src/Bli\\nk.lf".to_string();
    odd.output_root = "/tmp/a\tb".to_string();
    assert_eq!(
        LfcJsonArgs::new(&odd, true).to_string(),
        "{\"out\":\"/tmp/a\\tb\",\"properties\":{\"fast\":false},\"src\":\"/pro\\\"ject/src/Bli\\\\nk.lf\"}"
    );
}

#[test]
fn lfc_codegen_plan() {
    let blink = app("Blink", TargetLanguage::C);
    let plan = LFC::plan_lfc_codegen(&blink, &options(BuildProfile::Debug, true), false);
    assert_eq!(
        shown(&plan),
        vec![
            "mkdir /project/build".to_string(),
            "run [] /opt/lfc/bin/lfc --json={\"out\":\"/project/build\",\"properties\":{\"fast\":false,\"no-compile\":true},\"src\":\"/project/src/Blink.lf\"}".to_string(),
        ]
    );
}

#[test]
fn lfc_codegen_runs_its_plan() {
    let blink = app("Blink", TargetLanguage::C);
    let seen = Mutex::new(Vec::new());
    let result = LFC::do_lfc_codegen(&blink, &options(BuildProfile::Debug, true), true, &|action: &Action| {
        seen.lock().unwrap().push(show(action));
        Ok(())
    });
    assert!(result.is_ok());
    assert_eq!(seen.into_inner().unwrap().len(), 2);
}

#[test]
fn cmake_c_configure_plan() {
    let blink = app("Blink", TargetLanguage::C);
    let plan = cmake_c::gen_cmake_files(&blink, &options(BuildProfile::Release, true)).unwrap();
    assert_eq!(
        shown(&plan),
        vec![
            "mkdir /project/build/build",
            "mkdir /project/build/src-gen/Blink",
            "write /project/build/src-gen/Blink/aggregated_cmake_include.cmake \"set(X 1)\"",
            "append /project/build/src-gen/Blink/CMakeLists.txt \"\\ninclude(./aggregated_cmake_include.cmake)\"",
            "run [/project/build/build] cmake -DCMAKE_BUILD_TYPE=RELEASE | -DCMAKE_INSTALL_PREFIX=/project/build | -DCMAKE_INSTALL_BINDIR=bin | -DLF_SOURCE_DIRECTORY=\"/project/src\" | -DLF_PACKAGE_DIRECTORY=\"/project\" | -DLF_SOURCE_GEN_DIRECTORY=\"/project/build/src-gen/Blink\" | -DLF_FILE_SEPARATOR=\"/\" | /project/build/src-gen/Blink | -B /project/build/src-gen/Blink",
        ]
    );
}

#[test]
fn cmake_c_needs_a_src_directory() {
    let mut stray = app("Blink", TargetLanguage::C);
    stray.main_reactor = "/project/Blink.lf".to_string();
    assert!(matches!(
        cmake_c::gen_cmake_files(&stray, &options(BuildProfile::Debug, true)),
        Err(LingoError::InvalidMainReactor)
    ));
}

#[test]
fn cmake_c_compile_and_install_plans() {
    let blink = app("Blink", TargetLanguage::C);
    assert_eq!(
        shown(&cmake_c::plan_compile(&blink).unwrap()),
        vec!["run [/project/build/src-gen/Blink] cmake --build | . | --target | Blink"]
    );
    assert_eq!(
        shown(&cmake_c::plan_install(&blink)),
        vec!["rename /project/build/src-gen/Blink/Blink /project/build/bin/Blink"]
    );
    let mut nameless = app("Blink", TargetLanguage::C);
    nameless.main_reactor = "/project/src/..".to_string();
    assert!(matches!(cmake_c::plan_compile(&nameless), Err(LingoError::InvalidMainReactor)));
}

#[test]
fn cmake_build_type_names() {
    assert_eq!(cmake_c::build_type_name(BuildProfile::Release), "RELEASE");
    assert_eq!(cmake_c::build_type_name(BuildProfile::Debug), "DEBUG");
    assert_eq!(cmake_c::quote_definition("-DX=", "a b"), "-DX=\"a b\"");
}

#[test]
fn perform_hands_on_missing_plan() {
    let result = cmake_c::perform(Err(LingoError::InvalidMainReactor), &|_action: &Action| -> BuildResult {
        panic!("nothing to run")
    });
    assert!(matches!(result, Err(LingoError::InvalidMainReactor)));
}

#[test]
fn cmake_cpp_configure_plan() {
    let blink = app("Blink", TargetLanguage::Cpp);
    let plan = cmake_cpp::gen_cmake_files(&blink, &options(BuildProfile::Debug, true)).unwrap();
    assert_eq!(
        shown(&plan),
        vec![
            "mkdir /project/build/build",
            "write /project/build/src-gen/Blink/aggregated_cmake_include.cmake \"set(X 1)\"",
            "append /project/build/src-gen/Blink/CMakeLists.txt \"\\ninclude(/project/build/src-gen/Blink/aggregated_cmake_include.cmake)\"",
            "run [/project/build/build] cmake -DCMAKE_BUILD_TYPE=DEBUG | -DCMAKE_INSTALL_PREFIX=/project/build | -DCMAKE_INSTALL_BINDIR=bin | -DREACTOR_CPP_VALIDATE=ON | -DREACTOR_CPP_TRACE=OFF | -DREACTOR_CPP_LOG_LEVEL=3 | -DLF_SRC_PKG_PATH=/project/src | /project/build/src-gen | -B /project/build/build",
        ]
    );
}

#[test]
fn cmake_cpp_compiles_all_targets_at_once() {
    let first = app("Blink", TargetLanguage::Cpp);
    let second = app("Web", TargetLanguage::Cpp);
    let group = vec![&first, &second];
    assert_eq!(
        shown(&cmake_cpp::plan_compile(&group).unwrap()),
        vec!["run [/project/build/build] cmake --build | . | --target | Blink | --target | Web"]
    );
    let mut nameless = app("Blink", TargetLanguage::Cpp);
    nameless.main_reactor = "/project/src/..".to_string();
    let broken = vec![&first, &nameless];
    assert!(matches!(cmake_cpp::plan_compile(&broken), Err(LingoError::InvalidMainReactor)));
}

#[test]
fn cmake_cpp_install_plan() {
    let blink = app("blinker", TargetLanguage::Cpp);
    let mut renamed = blink;
    renamed.main_reactor = "/project/src/Blink.lf".to_string();
    assert_eq!(
        shown(&cmake_cpp::plan_install(&renamed).unwrap()),
        vec![
            "run [/project/build/build] cmake --install | .",
            "rename /project/build/bin/Blink /project/build/bin/blinker"
        ]
    );
}

#[test]
fn npm_location_below_src() {
    let mut web = app("Web", TargetLanguage::TypeScript);
    web.main_reactor = "/project/src/ui/Web.lf".to_string();
    assert_eq!(npm::extract_location(&web).unwrap(), "ui/Web");
    assert_eq!(npm::extract_name(&web).unwrap(), "Web");
    web.main_reactor = "/elsewhere/src/Web.lf".to_string();
    assert!(matches!(npm::extract_location(&web), Err(LingoError::InvalidMainReactor)));
    web.main_reactor = "/project/lib/Web.lf".to_string();
    assert!(matches!(npm::extract_location(&web), Err(LingoError::InvalidMainReactor)));
}

#[test]
fn npm_plans() {
    let web = app("Web", TargetLanguage::TypeScript);
    let commands =
        TypeScriptToolCommands { binary_name: "npm", install_command: "install", release_build_argument: "--production" };
    assert_eq!(
        shown(&npm::plan_tool(&web, &options(BuildProfile::Release, true), &commands, &["install"]).unwrap()),
        vec!["run [/project/build/src-gen/Web] npm install | --production"]
    );
    assert_eq!(
        shown(&npm::plan_tool(&web, &options(BuildProfile::Debug, true), &commands, &["run", "build"]).unwrap()),
        vec!["run [/project/build/src-gen/Web] npm run | build"]
    );
    assert_eq!(
        shown(&npm::plan_finish(&web).unwrap()),
        vec![
            "mkdir /project/build/bin",
            "rename /project/build/src-gen/Web/dist/Web.js /project/build/bin/Web.js"
        ]
    );
}

#[test]
fn pnpm_plans() {
    let web = app("Web", TargetLanguage::TypeScript);
    assert_eq!(
        shown(&pnpm::plan_pnpm(&web, &options(BuildProfile::Release, true), &["install"], "--prod").unwrap()),
        vec!["run [/project/build/src-gen/Web] pnpm install | --prod"]
    );
    assert_eq!(
        shown(&pnpm::plan_pnpm(&web, &options(BuildProfile::Debug, true), &["run", "build"], "--production").unwrap()),
        vec!["run [/project/build/src-gen/Web] pnpm run | build"]
    );
    assert_eq!(
        shown(&pnpm::plan_finish(&web).unwrap()),
        vec![
            "mkdir /project/build/bin",
            "rename /project/build/src-gen/Web/dist/Web.js /project/build/bin/Web.js"
        ]
    );
}

fn build_with(backend: &mut dyn FnMut(&CommandSpec, &mut BatchBuildResults, &Mutex<Vec<String>>), command: CommandSpec, apps: &[App]) -> (Vec<String>, Vec<bool>) {
    let refs: Vec<&App> = apps.iter().collect();
    let mut batch = BatchBuildResults::for_apps(&refs);
    let seen = Mutex::new(Vec::new());
    backend(&command, &mut batch, &seen);
    let ok = (0..batch.len()).map(|i| batch.outcome(i).is_ok()).collect();
    (seen.into_inner().unwrap(), ok)
}

fn programs(seen: &[String]) -> Vec<String> {
    seen.iter().filter(|line| line.starts_with("run ")).map(|line| line.split(' ').nth(2).unwrap().to_string()).collect()
}

#[test]
fn cmake_c_backend_builds_in_stages() {
    let apps = vec![app("A", TargetLanguage::C), app("B", TargetLanguage::C)];
    let (seen, ok) = build_with(
        &mut |command, batch, seen| {
            CmakeC.execute_command(command, batch, &|action: &Action| {
                seen.lock().unwrap().push(show(action));
                Ok(())
            })
        },
        CommandSpec::Build(options(BuildProfile::Debug, true)),
        &apps,
    );
    assert_eq!(ok, vec![true, true]);
    let mut runs = programs(&seen);
    runs.sort();
    assert_eq!(runs, vec!["/opt/lfc/bin/lfc", "/opt/lfc/bin/lfc", "cmake", "cmake", "cmake", "cmake"]);
    assert_eq!(seen.iter().filter(|line| line.starts_with("rename ")).count(), 2);
}

#[test]
fn cmake_c_backend_only_generates_code_when_asked() {
    let apps = vec![app("A", TargetLanguage::C)];
    let (seen, ok) = build_with(
        &mut |command, batch, seen| {
            CmakeC.execute_command(command, batch, &|action: &Action| {
                seen.lock().unwrap().push(show(action));
                Ok(())
            })
        },
        CommandSpec::Build(options(BuildProfile::Debug, false)),
        &apps,
    );
    assert_eq!(ok, vec![true]);
    assert_eq!(programs(&seen), vec!["/opt/lfc/bin/lfc"]);
}

#[test]
fn cmake_cpp_backend_shares_group_failure() {
    let apps = vec![app("A", TargetLanguage::Cpp), app("B", TargetLanguage::Cpp)];
    let refs: Vec<&App> = apps.iter().collect();
    let mut batch = BatchBuildResults::for_apps(&refs);
    CmakeCpp.execute_command(
        &CommandSpec::Build(options(BuildProfile::Debug, true)),
        &mut batch,
        &|action: &Action| match action {
            Action::Run { args, .. } if args[0] == "--build" => {
                Err(LingoError::CommandFailed("cmake --build .".to_string(), "exit status: 2".to_string()))
            }
            _ => Ok(()),
        },
    );
    assert!(matches!(batch.outcome(0), Err(LingoError::Shared(_))));
    assert!(matches!(batch.outcome(1), Err(LingoError::Shared(_))));
    assert_eq!(batch.outcome(0).as_ref().unwrap_err().to_string(), "Command exited with status exit status: 2: cmake --build .");
}

#[test]
fn typescript_backends_build_in_stages() {
    let apps = vec![app("Web", TargetLanguage::TypeScript)];
    let (seen, ok) = build_with(
        &mut |command, batch, seen| {
            Npm.execute_command(command, batch, &|action: &Action| {
                seen.lock().unwrap().push(show(action));
                Ok(())
            })
        },
        CommandSpec::Build(options(BuildProfile::Release, true)),
        &apps,
    );
    assert_eq!(ok, vec![true]);
    assert_eq!(programs(&seen), vec!["/opt/lfc/bin/lfc", "npm", "npm"]);
    assert!(seen.contains(&"run [/project/build/src-gen/Web] npm run | build | --production".to_string()));
    let (seen, ok) = build_with(
        &mut |command, batch, seen| {
            Pnpm.execute_command(command, batch, &|action: &Action| {
                seen.lock().unwrap().push(show(action));
                Ok(())
            })
        },
        CommandSpec::Build(options(BuildProfile::Release, true)),
        &apps,
    );
    assert_eq!(ok, vec![true]);
    assert_eq!(programs(&seen), vec!["/opt/lfc/bin/lfc", "pnpm", "pnpm"]);
    assert!(seen.contains(&"run [/project/build/src-gen/Web] pnpm install | --prod".to_string()));
}

#[test]
fn backends_clean_every_app() {
    let apps = vec![app("A", TargetLanguage::Python), app("B", TargetLanguage::Python)];
    let (seen, ok) = build_with(
        &mut |command, batch, seen| {
            LFC.execute_command(command, batch, &|action: &Action| {
                seen.lock().unwrap().push(show(action));
                Ok(())
            })
        },
        CommandSpec::Clean,
        &apps,
    );
    assert_eq!(ok, vec![true, true]);
    assert_eq!(seen, vec!["delete /project/build bin,include,src-gen,lib64,share,build"; 2]);
}

#[test]
fn backends_leave_batch_alone_on_update() {
    let apps = vec![app("A", TargetLanguage::C)];
    let (seen, ok) = build_with(
        &mut |command, batch, _seen| {
            CmakeC.execute_command(command, batch, &|_action: &Action| -> BuildResult { panic!("nothing to run") })
        },
        CommandSpec::Update,
        &apps,
    );
    assert!(seen.is_empty());
    assert_eq!(ok, vec![true]);
}

fn pnpm_build_failing_for_b(keep_going: bool) -> (Vec<String>, Vec<bool>) {
    let apps = vec![
        app("A", TargetLanguage::TypeScript),
        app("B", TargetLanguage::TypeScript),
        app("C", TargetLanguage::TypeScript),
    ];
    let refs: Vec<&App> = apps.iter().collect();
    let mut batch = BatchBuildResults::for_apps(&refs);
    let seen = Mutex::new(Vec::new());
    let mut build = options(BuildProfile::Release, true);
    build.keep_going = keep_going;
    Pnpm.execute_command(&CommandSpec::Build(build), &mut batch, &|action: &Action| {
        match action {
            Action::Run { program, current_dir, .. } if program == "pnpm" => {
                let directory = current_dir.clone().unwrap_or_default();
                seen.lock().unwrap().push(show(action));
                if directory.ends_with("/B") {
                    Err(LingoError::CommandFailed("pnpm".to_string(), "exit status: 1".to_string()))
                } else {
                    Ok(())
                }
            }
            _ => Ok(()),
        }
    });
    let ok = (0..batch.len()).map(|i| batch.outcome(i).is_ok()).collect();
    let seen = seen.into_inner().unwrap();
    (seen, ok)
}

#[test]
fn pnpm_build_keeps_going_after_a_failure() {
    let (seen, ok) = pnpm_build_failing_for_b(true);
    assert_eq!(ok, vec![true, false, true]);
    assert!(seen.contains(&"run [/project/build/src-gen/C] pnpm install | --prod".to_string()));
    assert!(seen.contains(&"run [/project/build/src-gen/C] pnpm run | build | --production".to_string()));
    assert!(!seen.iter().any(|line| line.starts_with("run [/project/build/src-gen/B] pnpm run")));
}

#[test]
fn pnpm_build_stops_at_a_failure_unless_told_to_keep_going() {
    let (seen, ok) = pnpm_build_failing_for_b(false);
    assert_eq!(ok, vec![true, false, false]);
    assert!(seen.contains(&"run [/project/build/src-gen/A] pnpm install | --prod".to_string()));
    assert!(!seen.contains(&"run [/project/build/src-gen/C] pnpm install | --prod".to_string()));
}
