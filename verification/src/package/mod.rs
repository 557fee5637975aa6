//! Projects: their manifest, their apps and the library they export.

pub mod lock;
pub mod management;
pub mod target_properties;
pub mod tree;
pub mod version;

use vstd::prelude::*;

use crate::args::{BuildSystem, Command, InitArgs, Platform, TargetLanguage};
use crate::package::target_properties::texts;
use crate::util::analyzer::MainReactorSpec;
use crate::util::errors::{BuildResult, LingoError};
use crate::util::text::text_eq;
use crate::package::target_properties::{
    AppTargetProperties, AppTargetPropertiesFile, LibraryTargetProperties,
    LibraryTargetPropertiesFile,
};
use crate::package::tree::PackageDetails;
use crate::package::version::Versioning;
use crate::util::sha1dir::DirEntry;
use crate::util::path::{
    file_name, file_name_of, file_stem, file_stem_of, join, joined, src_dir, src_dir_of,
};
use crate::util::text::concat;
use crate::WhichError;

verus! {

/// place where are the build artifacts will be dropped
pub const OUTPUT_DIRECTORY: &'static str = "build";

/// name of the folder inside the `OUTPUT_DIRECTORY` where libraries
/// will be loaded (cloned, extracted, copied) into for further processing.
pub const LIBRARY_DIRECTORY: &'static str = "libraries";

/// default folder for lf executable files
pub const DEFAULT_EXECUTABLE_FOLDER: &'static str = "src";

/// default folder for lf library files
pub const DEFAULT_LIBRARY_FOLDER: &'static str = "src/lib";

/// the main reactor of an app that names none
pub const DEFAULT_MAIN_REACTOR_RELPATH: &'static str = "src/Main.lf";

/// Whether a new project can be set up in a directory: it holds neither
/// sources nor a git repository yet. `present` tells whether a path exists.
pub fn is_valid_location_for_project<E>(path: &str, present: &E) -> (valid: bool) where
    E: Fn(&str) -> bool,

    requires
        forall|probe: &str| call_requires(*present, (probe,)),
    ensures
        valid ==> forall|folder: Seq<char>| #[trigger]
            is_project_folder(folder) ==> exists|probe: &str|
                probe@ == joined(path@, folder) && call_ensures(*present, (probe,), false),
        !valid ==> exists|probe: &str, folder: Seq<char>|
            is_project_folder(folder) && probe@ == joined(path@, folder) && call_ensures(
                *present,
                (probe,),
                true,
            ),
{
    let sources = join(path, DEFAULT_EXECUTABLE_FOLDER);
    if present(sources.as_str()) {
        assert(is_project_folder(DEFAULT_EXECUTABLE_FOLDER@));
        return false;
    }
    let git = join(path, ".git");
    if present(git.as_str()) {
        assert(is_project_folder(".git"@));
        return false;
    }
    let library = join(path, DEFAULT_LIBRARY_FOLDER);
    if present(library.as_str()) {
        assert(is_project_folder(DEFAULT_LIBRARY_FOLDER@));
        return false;
    }
    true
}

/// Whether a folder is one of those that mark an existing project: the
/// sources of apps, the sources of a library, or a git repository.
pub open spec fn is_project_folder(folder: Seq<char>) -> bool {
    folder == DEFAULT_EXECUTABLE_FOLDER@ || folder == ".git"@ || folder == DEFAULT_LIBRARY_FOLDER@
}

/// list of apps inside a toml file
#[derive(Debug)]
pub struct AppVec {
    pub app: Vec<AppFile>,
}

/// The top of a manifest: what the package is.
#[derive(Debug)]
pub struct PackageDescription {
    pub name: String,
    pub version: Versioning,
    pub authors: Option<Vec<String>>,
    pub website: Option<String>,
    pub license: Option<String>,
    pub description: Option<String>,
}

/// The Lingo.toml format is defined by this struct
#[derive(Debug)]
pub struct ConfigFile {
    /// top level package description
    pub package: PackageDescription,
    /// list of apps defined inside this package
    pub apps: Option<Vec<AppFile>>,
    /// library exported by this Lingo Toml
    pub library: Option<LibraryFile>,
    /// Dependencies for required to build this Lingua-Franca Project
    pub dependencies: Vec<(String, PackageDetails)>,
}

/// This struct is used after filling in all the defaults
#[derive(Debug)]
pub struct Config {
    /// top level package description
    pub package: PackageDescription,
    /// list of apps defined inside this package
    pub apps: Vec<App>,
    /// library exported by this package
    pub library: Option<Library>,
    /// Dependencies for required to build this Lingua-Franca Project
    pub dependencies: Vec<(String, PackageDetails)>,
}

/// The Format inside the Lingo.toml under [lib]
#[derive(Debug)]
pub struct LibraryFile {
    /// if not specified will default to value specified in the package description
    pub name: Option<String>,
    /// if not specified will default to ./lib
    pub location: Option<String>,
    /// target language of the library
    pub target: TargetLanguage,
    /// platform of this project
    pub platform: Option<Platform>,
    /// target properties of that lingua-franca app
    pub properties: LibraryTargetPropertiesFile,
}

/// A unit that exports sources and properties instead of an executable.
#[derive(Debug)]
pub struct Library {
    /// if not specified will default to value specified in the package description
    pub name: String,
    /// if not specified will default to ./src
    pub location: String,
    /// target of the app
    pub target: TargetLanguage,
    /// platform of this project
    pub platform: Platform,
    /// target properties of that lingua-franca app
    pub properties: LibraryTargetProperties,
    /// Root directory where to place src-gen and other compilation-specifics stuff.
    pub output_root: String,
}

/// Schema of the configuration parsed from the Lingo.toml
#[derive(Debug)]
pub struct AppFile {
    /// if not specified will default to value specified in the package description
    pub name: Option<String>,
    /// if not specified will default to main.lf
    pub main: Option<String>,
    /// target of the app
    pub target: TargetLanguage,
    /// platform of this project
    pub platform: Option<Platform>,
    /// target properties of that lingua-franca app
    pub properties: AppTargetPropertiesFile,
}

/// A buildable unit: one executable from one main reactor.
#[derive(Debug)]
pub struct App {
    /// Absolute path to the directory where the Lingo.toml file is located.
    pub root_path: String,
    /// Name of the app (and the final binary).
    pub name: String,
    /// Root directory where to place src-gen and other compilation-specifics stuff.
    pub output_root: String,
    /// Absolute path to the main reactor file.
    pub main_reactor: String,
    /// main reactor name
    pub main_reactor_name: String,
    /// target language of this lf program
    pub target: TargetLanguage,
    /// platform for which this program should be compiled
    pub platform: Platform,
    /// target properties of that lingua-franca app
    pub properties: AppTargetProperties,
}

/// A package as it lies in a directory: the entries of the directory and the
/// manifest with its defaults filled in.
#[derive(Debug)]
pub struct PackageDirectory {
    /// every file, link and directory below the root of the package
    pub entries: Vec<DirEntry>,
    /// the manifest of the package
    pub config: Config,
}

/// The name that an app or a library gets: the one that its entry states,
/// else the stem of its file, else the name of the package.
pub open spec fn unit_name(stated: Option<String>, file: Option<String>, package_name: Seq<char>) -> Seq<
    char,
> {
    match stated {
        Some(name) => name@,
        None => match file {
            Some(file) => match file_stem_of(file@) {
                Some(stem) => stem,
                None => package_name,
            },
            None => package_name,
        },
    }
}

/// The path of the main reactor of an app below the directory of its
/// manifest.
pub open spec fn main_reactor_path(main: Option<String>, path: Seq<char>) -> Seq<char> {
    match main {
        Some(main) => joined(path, main@),
        None => joined(path, DEFAULT_MAIN_REACTOR_RELPATH@),
    }
}

/// The name of the main reactor in a file: the name of the file without its
/// last three characters, which are `.lf`. A path without file name, or with
/// a shorter one, gives the empty name.
pub open spec fn main_reactor_name_of(main_reactor: Seq<char>) -> Seq<char> {
    match file_name_of(main_reactor) {
        Some(name) => if name.len() >= 3 {
            name.take(name.len() - 3)
        } else {
            Seq::empty()
        },
        None => Seq::empty(),
    }
}

/// The name of a unit; see [`unit_name`].
fn name_unit(stated: Option<String>, file: &Option<String>, package_name: &str) -> (name: String)
    ensures
        name@ == unit_name(stated, *file, package_name@),
{
    match stated {
        Some(name) => name,
        None => match file {
            Some(file) => match file_stem(file.as_str()) {
                Some(stem) => stem.to_owned(),
                None => package_name.to_owned(),
            },
            None => package_name.to_owned(),
        },
    }
}

impl AppFile {
    /// Whether `app` is this entry with all defaults filled in, for a
    /// manifest that lies in the directory `path`.
    pub open spec fn converts_to(self, package_name: Seq<char>, path: Seq<char>, app: App) -> bool {
        &&& app.root_path@ == path
        &&& app.name@ == unit_name(self.name, self.main, package_name)
        &&& app.output_root@ == joined(path, OUTPUT_DIRECTORY@)
        &&& app.main_reactor@ == main_reactor_path(self.main, path)
        &&& app.main_reactor_name@ == main_reactor_name_of(app.main_reactor@)
        &&& app.target == self.target
        &&& app.platform == match self.platform {
            Some(platform) => platform,
            None => Platform::Native,
        }
        &&& app.properties.fast == self.properties.fast
    }

    /// Fills in the defaults of an app: its name, its main reactor, its
    /// platform and where its build output goes. `read` loads the CMake
    /// include file where the entry names one.
    pub fn convert<R>(self, package_name: &str, path: &str, read: &R) -> (app: App) where
        R: Fn(&str) -> String,

        requires
            forall|file: &str| call_requires(*read, (file,)),
        ensures
            self.converts_to(package_name@, path@, app),
            match self.properties.cmake_include {
                Some(cmake_file) => exists|file: &str, code: String|
                    file@ == joined(path@, cmake_file@) && call_ensures(*read, (file,), code)
                        && app.properties.cmake_include@ == code@,
                None => app.properties.cmake_include@ == Seq::<char>::empty(),
            },
    {
        let name = name_unit(self.name, &self.main, package_name);
        let abs = match &self.main {
            Some(main) => join(path, main.as_str()),
            None => join(path, DEFAULT_MAIN_REACTOR_RELPATH),
        };
        let main_reactor_name = match file_name(abs.as_str()) {
            Some(temp) => {
                let length = temp.unicode_len();
                if length >= 3 {
                    temp.substring_char(0, length - 3).to_owned()
                } else {
                    String::new()
                }
            },
            None => String::new(),
        };
        App {
            root_path: path.to_owned(),
            name,
            output_root: join(path, OUTPUT_DIRECTORY),
            main_reactor: abs,
            main_reactor_name,
            target: self.target,
            platform: match self.platform {
                Some(platform) => platform,
                None => Platform::Native,
            },
            properties: self.properties.from(path, read),
        }
    }
}

impl LibraryFile {
    /// Whether `library` is this entry with all defaults filled in, for a
    /// manifest that lies in the directory `path`.
    pub open spec fn converts_to(self, package_name: Seq<char>, path: Seq<char>, library: Library) -> bool {
        &&& library.name@ == unit_name(self.name, self.location, package_name)
        &&& library.location@ == match self.location {
            Some(location) => joined(path, location@),
            None => joined(path, DEFAULT_LIBRARY_FOLDER@),
        }
        &&& library.target == self.target
        &&& library.platform == match self.platform {
            Some(platform) => platform,
            None => Platform::Native,
        }
        &&& library.properties.sources == self.properties.sources
        &&& library.properties.artifacts == self.properties.artifacts
        &&& library.output_root@ == joined(path, OUTPUT_DIRECTORY@)
    }

    /// Fills in the defaults of a library: its name, its location and its
    /// platform. `read` loads the CMake include file where the entry names
    /// one.
    pub fn convert<R>(self, package_name: &str, path: &str, read: &R) -> (library: Library) where
        R: Fn(&str) -> String,

        requires
            forall|file: &str| call_requires(*read, (file,)),
        ensures
            self.converts_to(package_name@, path@, library),
            match self.properties.cmake_include {
                Some(cmake_file) => exists|file: &str, code: String|
                    file@ == joined(path@, cmake_file@) && call_ensures(*read, (file,), code)
                        && library.properties.cmake_include@ == code@,
                None => library.properties.cmake_include@ == Seq::<char>::empty(),
            },
    {
        let name = name_unit(self.name, &self.location, package_name);
        let location = match &self.location {
            Some(location) => join(path, location.as_str()),
            None => join(path, DEFAULT_LIBRARY_FOLDER),
        };
        Library {
            name,
            location,
            target: self.target,
            platform: match self.platform {
                Some(platform) => platform,
                None => Platform::Native,
            },
            properties: self.properties.from(path, read),
            output_root: join(path, OUTPUT_DIRECTORY),
        }
    }
}

impl App {
    /// Whether `system` is the build system of the app: CMake for C and
    /// C++; for TypeScript pnpm where `which` finds it and npm where not;
    /// the code generator itself for every other language.
    pub open spec fn builds_with<W>(self, which: W, system: BuildSystem) -> bool where
        W: Fn(&str) -> Result<String, WhichError>,
     {
        match self.target {
            TargetLanguage::C => system == BuildSystem::CMake,
            TargetLanguage::Cpp => system == BuildSystem::CMake,
            TargetLanguage::TypeScript => exists|binary: &str, found: Result<String, WhichError>|
                binary@ == "pnpm"@ && #[trigger] call_ensures(which, (binary,), found) && system == (
                if found is Ok {
                    BuildSystem::Pnpm
                } else {
                    BuildSystem::Npm
                }),
            _ => system == BuildSystem::LFC,
        }
    }

    /// The build system of the app; see `builds_with`.
    pub fn build_system<W>(&self, which: &W) -> (system: BuildSystem) where
        W: Fn(&str) -> Result<String, WhichError>,

        requires
            self.target == TargetLanguage::TypeScript ==> forall|binary: &str|
                binary@ == "pnpm"@ ==> call_requires(*which, (binary,)),
        ensures
            self.builds_with(*which, system),
    {
        match self.target {
            TargetLanguage::C => BuildSystem::CMake,
            TargetLanguage::Cpp => BuildSystem::CMake,
            TargetLanguage::TypeScript => {
                let found = which("pnpm");
                assert(call_ensures(*which, ("pnpm",), found));
                if found.is_ok() {
                    BuildSystem::Pnpm
                } else {
                    BuildSystem::Npm
                }
            },
            _ => BuildSystem::LFC,
        }
    }

    /// The directory that the code generator writes to.
    pub fn src_gen_dir(&self) -> (dir: String)
        ensures
            dir@ == joined(self.output_root@, "src-gen"@),
    {
        join(self.output_root.as_str(), "src-gen")
    }

    /// Where the executable of the app is left: in `bin` below the output
    /// root, under the name of the app, with `.js` behind it for TypeScript.
    pub fn executable_path(&self) -> (path: String)
        ensures
            path@ == joined(
                joined(self.output_root@, "bin"@),
                if self.target == TargetLanguage::TypeScript {
                    self.name@ + ".js"@
                } else {
                    self.name@
                },
            ),
    {
        let p = join(self.output_root.as_str(), "bin");
        if self.target == TargetLanguage::TypeScript {
            let file = concat(self.name.as_str(), ".js");
            join(p.as_str(), file.as_str())
        } else {
            join(p.as_str(), self.name.as_str())
        }
    }

    /// The nearest directory named `src` at or above the main reactor.
    pub fn src_dir_path(&self) -> (dir: Option<String>)
        ensures
            match dir {
                Some(dir) => src_dir_of(self.main_reactor@) == Some(dir@),
                None => src_dir_of(self.main_reactor@) is None,
            },
    {
        match src_dir(self.main_reactor.as_str()) {
            Some(dir) => Some(dir.to_owned()),
            None => None,
        }
    }
}

impl ConfigFile {
    /// The `path` is the path to the directory containing the Lingo.toml file.
    ///
    /// Every app and the library get their defaults filled in; the package
    /// description and the dependencies are taken over as they are.
    pub fn to_config<R>(self, path: &str, read: &R) -> (config: Config) where R: Fn(&str) -> String
        requires
            forall|file: &str| call_requires(*read, (file,)),
        ensures
            config.package == self.package,
            config.dependencies == self.dependencies,
            match self.apps {
                Some(apps) => config.apps@.len() == apps@.len() && forall|i: int|
                    0 <= i < apps@.len() ==> (#[trigger] apps@[i]).converts_to(
                        self.package.name@,
                        path@,
                        config.apps@[i],
                    ),
                None => config.apps@.len() == 0,
            },
            match self.library {
                Some(library) => config.library is Some && library.converts_to(
                    self.package.name@,
                    path@,
                    config.library.unwrap(),
                ),
                None => config.library is None,
            },
    {
        let ConfigFile { package, apps, library, dependencies } = self;
        let mut converted: Vec<App> = Vec::new();
        match apps {
            Some(mut app_files) => {
                let ghost all = app_files@;
                while app_files.len() > 0
                    invariant
                        forall|file: &str| call_requires(*read, (file,)),
                        converted@.len() + app_files@.len() == all.len(),
                        app_files@ == all.skip(converted@.len() as int),
                        forall|i: int|
                            0 <= i < converted@.len() ==> (#[trigger] all[i]).converts_to(
                                package.name@,
                                path@,
                                converted@[i],
                            ),
                    decreases app_files@.len(),
                {
                    let app_file = app_files.remove(0);
                    assert(app_file == all[converted@.len() as int]);
                    let app = app_file.convert(package.name.as_str(), path, read);
                    converted.push(app);
                    assert(app_files@ =~= all.skip(converted@.len() as int));
                }
            },
            None => {},
        }
        let library = match library {
            Some(lib) => Some(lib.convert(package.name.as_str(), path, read)),
            None => None,
        };
        Config { package, apps: converted, library, dependencies }
    }
}

/// Whether an app of that name is among the apps.
pub open spec fn is_app_name(apps: Seq<App>, name: Seq<char>) -> bool {
    exists|i: int| 0 <= i < apps.len() && (#[trigger] apps[i]).name@ == name
}

/// Whether the name is among the names.
pub open spec fn is_listed(names: Seq<String>, name: Seq<char>) -> bool {
    exists|i: int| 0 <= i < names.len() && (#[trigger] names[i])@ == name
}

/// Those of the first `n` names that are the name of no app, in order.
pub open spec fn unknown_names(apps: Seq<App>, names: Seq<String>, n: int) -> Seq<Seq<char>>
    decreases n,
{
    if n <= 0 {
        Seq::empty()
    } else if is_app_name(apps, names[n - 1]@) {
        unknown_names(apps, names, n - 1)
    } else {
        unknown_names(apps, names, n - 1).push(names[n - 1]@)
    }
}

/// Those of the first `n` apps whose name is among the names, in order.
pub open spec fn selected_apps(apps: Seq<App>, names: Seq<String>, n: int) -> Seq<App>
    decreases n,
{
    if n <= 0 {
        Seq::empty()
    } else if is_listed(names, apps[n - 1].name@) {
        selected_apps(apps, names, n - 1).push(apps[n - 1])
    } else {
        selected_apps(apps, names, n - 1)
    }
}

/// Whether an app of that name is among the apps.
fn has_app(apps: &Vec<App>, name: &str) -> (found: bool)
    ensures
        found == is_app_name(apps@, name@),
{
    let mut i: usize = 0;
    while i < apps.len()
        invariant
            i <= apps@.len(),
            forall|k: int| 0 <= k < i ==> (#[trigger] apps@[k]).name@ != name@,
        decreases apps@.len() - i,
    {
        if text_eq(apps[i].name.as_str(), name) {
            return true;
        }
        i += 1;
    }
    false
}

/// Whether the name is among the names.
fn has_name(names: &Vec<String>, name: &str) -> (found: bool)
    ensures
        found == is_listed(names@, name@),
{
    let mut i: usize = 0;
    while i < names.len()
        invariant
            i <= names@.len(),
            forall|k: int| 0 <= k < i ==> (#[trigger] names@[k])@ != name@,
        decreases names@.len() - i,
    {
        if text_eq(names[i].as_str(), name) {
            return true;
        }
        i += 1;
    }
    false
}

impl Config {
    /// Restricts the project to the apps that were asked for by name.
    ///
    /// Where a name is the name of no app, nothing changes and the error
    /// lists all such names. Otherwise the apps that were named stay, in
    /// their order; where no name is given, all apps stay.
    pub fn select_apps(&mut self, names: &Vec<String>) -> (result: BuildResult)
        ensures
            final(self).package == old(self).package,
            final(self).library == old(self).library,
            final(self).dependencies == old(self).dependencies,
            match result {
                Ok(_) => unknown_names(old(self).apps@, names@, names@.len() as int).len() == 0
                    && final(self).apps@ == (if names@.len() == 0 {
                    old(self).apps@
                } else {
                    selected_apps(old(self).apps@, names@, old(self).apps@.len() as int)
                }),
                Err(error) => final(self).apps == old(self).apps && (
                error matches LingoError::UnknownAppNames(unknown) && unknown@.len() > 0 && texts(
                    unknown@,
                ) == unknown_names(old(self).apps@, names@, names@.len() as int)),
            },
    {
        let mut unknown: Vec<String> = Vec::new();
        let mut i: usize = 0;
        assert(texts(unknown@) =~= unknown_names(self.apps@, names@, 0));
        while i < names.len()
            invariant
                i <= names@.len(),
                *self == *old(self),
                texts(unknown@) == unknown_names(self.apps@, names@, i as int),
            decreases names@.len() - i,
        {
            if !has_app(&self.apps, names[i].as_str()) {
                let ghost before = texts(unknown@);
                unknown.push(names[i].clone());
                assert(texts(unknown@) =~= before.push(names@[i as int]@));
            }
            i += 1;
        }
        if unknown.len() > 0 {
            return Err(LingoError::UnknownAppNames(unknown));
        }
        assert(texts(unknown@).len() == unknown@.len());
        // Now remove the apps that were not selected by the CLI
        if names.len() > 0 {
            let ghost all = self.apps@;
            let mut kept: Vec<App> = Vec::new();
            let ghost mut done: int = 0;
            while self.apps.len() > 0
                invariant
                    0 <= done,
                    done + self.apps@.len() == all.len(),
                    self.apps@ == all.skip(done),
                    kept@ == selected_apps(all, names@, done),
                    self.package == old(self).package,
                    self.library == old(self).library,
                    self.dependencies == old(self).dependencies,
                decreases self.apps@.len(),
            {
                let app = self.apps.remove(0);
                assert(app == all[done]);
                if has_name(names, app.name.as_str()) {
                    kept.push(app);
                }
                proof {
                    done = done + 1;
                    assert(self.apps@ =~= all.skip(done));
                }
            }
            self.apps = kept;
        }
        Ok(())
    }
}

/// Checks a command against the project before it is run: the apps that a
/// build or a run names must exist, and only they are kept.
pub fn validate(config: &mut Option<Config>, command: &Command) -> (result: BuildResult)
    ensures
        match (*old(config), command) {
            (Some(before), Command::Build(build)) => (*final(config)) matches Some(after)
                && selects(before, build.apps@, after, result),
            (Some(before), Command::Run(build)) => (*final(config)) matches Some(after) && selects(
                before,
                build.apps@,
                after,
                result,
            ),
            _ => result is Ok && *final(config) == *old(config),
        },
{
    match config {
        Some(config) => match command {
            Command::Build(build) => config.select_apps(&build.apps),
            Command::Run(build) => config.select_apps(&build.apps),
            _ => Ok(()),
        },
        None => Ok(()),
    }
}

/// Whether `after` and `result` are what restricting the project `before`
/// to the named apps leaves; see `Config::select_apps`.
pub open spec fn selects(before: Config, names: Seq<String>, after: Config, result: BuildResult) -> bool {
    &&& after.package == before.package
    &&& after.library == before.library
    &&& after.dependencies == before.dependencies
    &&& match result {
        Ok(_) => unknown_names(before.apps@, names, names.len() as int).len() == 0 && after.apps@
            == (if names.len() == 0 {
            before.apps@
        } else {
            selected_apps(before.apps@, names, before.apps@.len() as int)
        }),
        Err(error) => after.apps == before.apps && (error matches LingoError::UnknownAppNames(
            unknown,
        ) && unknown@.len() > 0 && texts(unknown@) == unknown_names(
            before.apps@,
            names,
            names.len() as int,
        )),
    }
}

impl ConfigFile {
    /// The manifest of a new project.
    ///
    /// Every main reactor that was found becomes an app for the platform
    /// that was asked for; where the project has no sources yet, it gets
    /// one app `Main` in the language that the options give. The package
    /// is named like the directory of the project and starts at version
    /// `0.1.0`.
    pub fn new_for_init_task(
        init_args: &InitArgs,
        main_reactors: Option<Vec<MainReactorSpec>>,
        directory_name: String,
    ) -> (result: Result<ConfigFile, LingoError>)
        ensures
            match result {
                Ok(file) => {
                    &&& file.package.name == directory_name
                    &&& file.package.version@ == "0.1.0"@
                    &&& file.package.authors is None && file.package.website is None
                        && file.package.license is None && file.package.description is None
                    &&& file.dependencies@.len() == 0
                    &&& file.library is None
                    &&& file.apps matches Some(apps) && match main_reactors {
                        Some(found) => apps@.len() == found@.len() && forall|i: int|
                            0 <= i < found@.len() ==> (#[trigger] apps@[i]).name == Some(
                                found@[i].name,
                            ) && apps@[i].main == Some(found@[i].path) && apps@[i].target
                                == found@[i].target && apps@[i].platform == Some(init_args.platform),
                        None => apps@.len() == 1 && (apps@[0].name matches Some(name) && name@
                            == "Main"@) && (apps@[0].main matches Some(main) && main@ == joined(
                            DEFAULT_EXECUTABLE_FOLDER@,
                            "Main.lf"@,
                        )) && apps@[0].target == init_args.target_language()
                            && apps@[0].platform == Some(init_args.platform),
                    }
                },
                Err(error) => !crate::package::version::versioning_parses("0.1.0"@)
                    && error is ManifestParse,
            },
    {
        let version = match Versioning::new("0.1.0") {
            Some(version) => version,
            None => {
                return Err(LingoError::ManifestParse(directory_name));
            },
        };
        let mut main_reactors = match main_reactors {
            Some(found) => found,
            None => {
                let mut found: Vec<MainReactorSpec> = Vec::new();
                found.push(
                    MainReactorSpec {
                        name: "Main".to_owned(),
                        path: join(DEFAULT_EXECUTABLE_FOLDER, "Main.lf"),
                        target: init_args.get_target_language(),
                    },
                );
                found
            },
        };
        let ghost specs = main_reactors@;
        let mut app_specs: Vec<AppFile> = Vec::new();
        while main_reactors.len() > 0
            invariant
                app_specs@.len() + main_reactors@.len() == specs.len(),
                main_reactors@ == specs.skip(app_specs@.len() as int),
                forall|i: int|
                    0 <= i < app_specs@.len() ==> (#[trigger] app_specs@[i]).name == Some(specs[i].name)
                        && app_specs@[i].main == Some(specs[i].path) && app_specs@[i].target
                        == specs[i].target && app_specs@[i].platform == Some(init_args.platform),
            decreases main_reactors@.len(),
        {
            let spec = main_reactors.remove(0);
            assert(spec == specs[app_specs@.len() as int]);
            app_specs.push(
                AppFile {
                    name: Some(spec.name),
                    main: Some(spec.path),
                    target: spec.target,
                    platform: Some(init_args.platform),
                    properties: AppTargetPropertiesFile::default(),
                },
            );
            assert(main_reactors@ =~= specs.skip(app_specs@.len() as int));
        }
        Ok(
            ConfigFile {
                package: PackageDescription {
                    name: directory_name,
                    version,
                    authors: None,
                    website: None,
                    license: None,
                    description: None,
                },
                dependencies: Vec::new(),
                apps: Some(app_specs),
                library: None,
            },
        )
    }
}

} // verus!
