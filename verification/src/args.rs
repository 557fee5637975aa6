//! The commands and options that the tool accepts, after they were parsed.

use vstd::prelude::*;

use crate::backends::BuildProfile;

verus! {

/// The language that an app or a library is written for.
#[derive(Clone, Copy, Debug, PartialEq, Eq, Hash, Structural)]
pub enum TargetLanguage {
    C,
    Cpp,
    Rust,
    TypeScript,
    Python,
}

/// The platform that an app runs on.
#[derive(Clone, Copy, Debug, PartialEq, Eq, Hash, Structural)]
pub enum Platform {
    Native,
    Zephyr,
    RP2040,
}

/// The tool that builds the generated code of an app.
#[derive(Clone, Copy, Debug, PartialEq, Eq, Hash, Structural)]
pub enum BuildSystem {
    LFC,
    CMake,
    Cargo,
    Npm,
    Pnpm,
}

/// The options of the commands that build apps.
#[derive(Debug)]
pub struct BuildArgs {
    /// Which build system to use
    pub build_system: Option<BuildSystem>,
    /// Which target to build
    pub language: Option<TargetLanguage>,
    /// Overwrites any possible board definition in Lingo.toml
    pub platform: Option<Platform>,
    /// Tell lingo where the lfc toolchain can be found
    pub lfc: Option<String>,
    /// Skips building aka invoking the build system so it only generates code
    pub no_compile: bool,
    /// If one of the apps fails to build dont interrupt the build process
    pub keep_going: bool,
    /// Compiles the binaries with optimizations turned on and strips debug symbols
    pub release: bool,
    /// List of apps to build if left empty all apps are built
    pub apps: Vec<String>,
    /// Number of threads to use for parallel builds. Zero means it will be determined automatically.
    pub threads: usize,
}

impl BuildArgs {
    /// The profile that the options ask for: release where `release` is set,
    /// debug otherwise.
    pub fn build_profile(&self) -> (profile: BuildProfile)
        ensures
            profile == (if self.release {
                BuildProfile::Release
            } else {
                BuildProfile::Debug
            }),
    {
        if self.release {
            BuildProfile::Release
        } else {
            BuildProfile::Debug
        }
    }
}

/// The options of the command that sets up a new project.
#[derive(Debug)]
pub struct InitArgs {
    pub language: Option<TargetLanguage>,
    pub platform: Platform,
}

impl InitArgs {
    /// The language of the new project: the one that was asked for, else C
    /// for Zephyr and RP2040 and C++ for every other platform.
    pub open spec fn target_language(self) -> TargetLanguage {
        match self.language {
            Some(language) => language,
            None => match self.platform {
                Platform::Zephyr => TargetLanguage::C,
                Platform::RP2040 => TargetLanguage::C,
                Platform::Native => TargetLanguage::Cpp,
            },
        }
    }

    /// The language of the new project; see `target_language`.
    pub fn get_target_language(&self) -> (language: TargetLanguage)
        ensures
            language == self.target_language(),
    {
        match self.language {
            Some(language) => language,
            None => {
                // Target language for Zephyr and RP2040 is C
                // Else use Cpp.
                match self.platform {
                    Platform::Zephyr => TargetLanguage::C,
                    Platform::RP2040 => TargetLanguage::C,
                    _ => TargetLanguage::Cpp,
                }
            },
        }
    }
}

/// What the tool is asked to do.
#[derive(Debug)]
pub enum Command {
    /// initializing a lingua-franca project
    Init(InitArgs),
    /// compiling one or multiple binaries in a lingua-franca package
    Build(BuildArgs),
    /// Updates the dependencies and potentially build tools
    Update,
    /// builds and runs binaries
    Run(BuildArgs),
    /// removes build artifacts
    Clean,
}

/// A whole command line.
#[derive(Debug)]
pub struct CommandLineArgs {
    /// which command of lingo to use
    pub command: Command,
    /// lingo wouldn't produce any output
    pub quiet: bool,
    /// lingo will give more detailed feedback
    pub verbose: bool,
}

} // verus!
