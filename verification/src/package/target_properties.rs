//! Build properties that libraries hand on to the apps that use them.

use vstd::prelude::*;

use crate::util::errors::LingoError;
use crate::util::path::{join, joined};

verus! {

/// Loads the content of a CMake include file.
pub trait CMakeLoader {
    fn read_file(&mut self, path: &str) -> Result<AutoCmakeLoad, LingoError>;
}

/// The text that separates the contribution of one library from the next.
pub open spec fn merge_marker() -> Seq<char> {
    "\n# ------------------------- \n"@
}

/// What a property is after the property of a parent library was merged into
/// it: its own text, the marker, then the parent's text.
pub open spec fn merged(own: Seq<char>, parent: Seq<char>) -> Seq<char> {
    own + merge_marker() + parent
}

/// CMake code that is injected into the build of every app that depends on
/// the library it came from.
#[derive(Debug)]
pub struct AutoCmakeLoad(String);

impl View for AutoCmakeLoad {
    type V = Seq<char>;

    /// The CMake code.
    closed spec fn view(&self) -> Seq<char> {
        self.0@
    }
}

impl Clone for AutoCmakeLoad {
    fn clone(&self) -> (copy: Self)
        ensures
            copy@ == self@,
    {
        AutoCmakeLoad(self.0.clone())
    }
}

impl Default for AutoCmakeLoad {
    fn default() -> (empty: Self)
        ensures
            empty@ == Seq::<char>::empty(),
    {
        AutoCmakeLoad(String::new())
    }
}

impl AutoCmakeLoad {
    /// Wraps CMake code that was read from an include file.
    pub fn new(code: String) -> (load: Self)
        ensures
            load@ == code@,
    {
        AutoCmakeLoad(code)
    }

    /// The CMake code.
    pub fn as_str(&self) -> (code: &str)
        ensures
            code@ == self@,
    {
        self.0.as_str()
    }
}

/// A property that can take up the same property of a parent library.
pub trait MergeTargetProperty: Sized {
    fn merge(&mut self, other: &Self) -> Result<(), LingoError>;
}

/// A set of properties that can take up the properties of a parent library.
pub trait MergeTargetProperties: Sized {
    fn merge(&mut self, other: &LibraryTargetProperties) -> Result<(), LingoError>;
}

impl MergeTargetProperty for AutoCmakeLoad {
    /// Appends the parent's code after this code, separated by the marker.
    /// Merging never fails and never drops anything: a parent that is merged
    /// twice contributes twice.
    fn merge(&mut self, parent: &AutoCmakeLoad) -> (result: Result<(), LingoError>)
        ensures
            result is Ok,
            final(self)@ == merged(old(self)@, parent@),
    {
        self.0.append("\n# ------------------------- \n");
        self.0.append(parent.0.as_str());
        Ok(())
    }
}

/// The properties of a library as its manifest states them.
#[derive(Debug)]
pub struct LibraryTargetPropertiesFile {
    /// cmake include only available for C and CPP
    pub cmake_include: Option<String>,
    /// files that should be compiled and linked
    pub sources: Vec<String>,
    /// list of files that should be made available to the user
    pub artifacts: Vec<String>,
}

/// The properties of a library once its include file has been read.
#[derive(Debug)]
pub struct LibraryTargetProperties {
    /// cmake include only available for C and CPP
    pub cmake_include: AutoCmakeLoad,
    /// files that should be compiled and linked
    pub sources: Vec<String>,
    /// list of files that should be made available to the user
    pub artifacts: Vec<String>,
}

/// The mathematical value of [`LibraryTargetProperties`].
pub struct LibraryPropertiesView {
    pub cmake_include: Seq<char>,
    pub sources: Seq<Seq<char>>,
    pub artifacts: Seq<Seq<char>>,
}

/// The texts of a list of strings.
pub open spec fn texts(list: Seq<String>) -> Seq<Seq<char>> {
    list.map_values(|text: String| text@)
}

impl View for LibraryTargetProperties {
    type V = LibraryPropertiesView;

    open spec fn view(&self) -> LibraryPropertiesView {
        LibraryPropertiesView {
            cmake_include: self.cmake_include@,
            sources: texts(self.sources@),
            artifacts: texts(self.artifacts@),
        }
    }
}

/// Copies a list of strings.
pub fn clone_texts(list: &Vec<String>) -> (copy: Vec<String>)
    ensures
        texts(copy@) == texts(list@),
{
    let mut copy: Vec<String> = Vec::new();
    let mut i: usize = 0;
    while i < list.len()
        invariant
            i <= list@.len(),
            copy@.len() == i,
            forall|k: int| 0 <= k < i ==> (#[trigger] copy@[k])@ == list@[k]@,
        decreases list@.len() - i,
    {
        copy.push(list[i].clone());
        i += 1;
    }
    assert(texts(copy@) =~= texts(list@));
    copy
}

impl Clone for LibraryTargetProperties {
    fn clone(&self) -> (copy: Self)
        ensures
            copy@ == self@,
    {
        LibraryTargetProperties {
            cmake_include: self.cmake_include.clone(),
            sources: clone_texts(&self.sources),
            artifacts: clone_texts(&self.artifacts),
        }
    }
}

impl Default for LibraryTargetProperties {
    fn default() -> (empty: Self)
        ensures
            empty@ == (LibraryPropertiesView {
                cmake_include: Seq::<char>::empty(),
                sources: Seq::<Seq<char>>::empty(),
                artifacts: Seq::<Seq<char>>::empty(),
            }),
    {
        let empty = LibraryTargetProperties {
            cmake_include: AutoCmakeLoad::default(),
            sources: Vec::new(),
            artifacts: Vec::new(),
        };
        assert(texts(empty.sources@) =~= Seq::<Seq<char>>::empty());
        assert(texts(empty.artifacts@) =~= Seq::<Seq<char>>::empty());
        empty
    }
}

impl LibraryTargetPropertiesFile {
    /// Completes the properties with the content of the include file, which
    /// `read` loads from below `base_path` where the manifest names one.
    /// Without an include file nothing is read and the CMake code is empty.
    pub fn from<R>(self, base_path: &str, read: &R) -> (properties: LibraryTargetProperties) where
        R: Fn(&str) -> String,

        requires
            forall|file: &str| call_requires(*read, (file,)),
        ensures
            match self.cmake_include {
                Some(cmake_file) => exists|file: &str, code: String|
                    file@ == joined(base_path@, cmake_file@) && call_ensures(*read, (file,), code)
                        && properties.cmake_include@ == code@,
                None => properties.cmake_include@ == Seq::<char>::empty(),
            },
            properties.sources == self.sources,
            properties.artifacts == self.artifacts,
    {
        let code = match &self.cmake_include {
            Some(cmake_file) => {
                let absolute_path = join(base_path, cmake_file.as_str());
                read(absolute_path.as_str())
            },
            None => String::new(),
        };
        LibraryTargetProperties {
            cmake_include: AutoCmakeLoad::new(code),
            sources: self.sources,
            artifacts: self.artifacts,
        }
    }
}

/// The properties of an app as its manifest states them.
#[derive(Debug)]
pub struct AppTargetPropertiesFile {
    /// cmake include only available for C and CPP
    pub cmake_include: Option<String>,
    /// if the runtime should wait for physical time to catch up
    pub fast: bool,
}

impl Default for AppTargetPropertiesFile {
    fn default() -> (empty: Self)
        ensures
            empty.cmake_include is None,
            !empty.fast,
    {
        AppTargetPropertiesFile { cmake_include: None, fast: false }
    }
}

/// The properties of an app once its include file has been read.
#[derive(Debug)]
pub struct AppTargetProperties {
    /// cmake include only available for C and CPP
    pub cmake_include: AutoCmakeLoad,
    /// if the runtime should wait for physical time to catch up
    pub fast: bool,
}

impl Clone for AppTargetProperties {
    fn clone(&self) -> (copy: Self)
        ensures
            copy.cmake_include@ == self.cmake_include@,
            copy.fast == self.fast,
    {
        AppTargetProperties { cmake_include: self.cmake_include.clone(), fast: self.fast }
    }
}

impl Default for AppTargetProperties {
    fn default() -> (empty: Self)
        ensures
            empty.cmake_include@ == Seq::<char>::empty(),
            !empty.fast,
    {
        AppTargetProperties { cmake_include: AutoCmakeLoad::default(), fast: false }
    }
}

impl AppTargetPropertiesFile {
    /// Completes the properties with the content of the include file, which
    /// `read` loads from below `base_path` where the manifest names one.
    /// Without an include file nothing is read and the CMake code is empty.
    pub fn from<R>(self, base_path: &str, read: &R) -> (properties: AppTargetProperties) where
        R: Fn(&str) -> String,

        requires
            forall|file: &str| call_requires(*read, (file,)),
        ensures
            match self.cmake_include {
                Some(cmake_file) => exists|file: &str, code: String|
                    file@ == joined(base_path@, cmake_file@) && call_ensures(*read, (file,), code)
                        && properties.cmake_include@ == code@,
                None => properties.cmake_include@ == Seq::<char>::empty(),
            },
            properties.fast == self.fast,
    {
        let code = match &self.cmake_include {
            Some(cmake_file) => {
                let absolute_path = join(base_path, cmake_file.as_str());
                read(absolute_path.as_str())
            },
            None => String::new(),
        };
        AppTargetProperties { cmake_include: AutoCmakeLoad::new(code), fast: self.fast }
    }
}

impl AppTargetProperties {
    /// What is to be written for the app into the folder of its generated
    /// code: the path of the file and its content, the merged CMake code.
    pub fn write_artifacts(&self, library_folder: &str) -> (file: (String, String))
        ensures
            file.0@ == joined(library_folder@, "aggregated_cmake_include.cmake"@),
            file.1@ == self.cmake_include@,
    {
        let path = join(library_folder, "aggregated_cmake_include.cmake");
        (path, self.cmake_include.as_str().to_owned())
    }
}

impl MergeTargetProperties for LibraryTargetProperties {
    /// Takes up the CMake code of a parent library; sources and artifacts
    /// stay as they are.
    fn merge(&mut self, parent: &LibraryTargetProperties) -> (result: Result<(), LingoError>)
        ensures
            result is Ok,
            final(self).cmake_include@ == merged(old(self).cmake_include@, parent.cmake_include@),
            final(self).sources == old(self).sources,
            final(self).artifacts == old(self).artifacts,
    {
        self.cmake_include.merge(&parent.cmake_include)
    }
}

impl MergeTargetProperties for AppTargetProperties {
    /// Takes up the CMake code of a library that the app depends on.
    fn merge(&mut self, parent: &LibraryTargetProperties) -> (result: Result<(), LingoError>)
        ensures
            result is Ok,
            final(self).cmake_include@ == merged(old(self).cmake_include@, parent.cmake_include@),
            final(self).fast == old(self).fast,
    {
        self.cmake_include.merge(&parent.cmake_include)
    }
}

/// The properties of a manifest entry that is either a library or an app.
#[derive(Debug)]
pub enum GenericTargetPropertiesFile {
    Library(LibraryTargetPropertiesFile),
    App(AppTargetPropertiesFile),
}

/// The properties of either a library or an app.
#[derive(Debug)]
pub enum GenericTargetProperties {
    Library(LibraryTargetProperties),
    App(AppTargetProperties),
}

impl GenericTargetProperties {
    /// The CMake code of the properties, whichever kind they are.
    pub open spec fn cmake_code(self) -> Seq<char> {
        match self {
            GenericTargetProperties::Library(library) => library.cmake_include@,
            GenericTargetProperties::App(app) => app.cmake_include@,
        }
    }
}

impl MergeTargetProperties for GenericTargetProperties {
    /// Takes up the CMake code of a parent library and stays of its kind.
    fn merge(&mut self, other: &LibraryTargetProperties) -> (result: Result<(), LingoError>)
        ensures
            result is Ok,
            final(self).cmake_code() == merged(old(self).cmake_code(), other.cmake_include@),
            (*final(self)) is Library <==> (*old(self)) is Library,
    {
        match self {
            GenericTargetProperties::Library(own_lib) => own_lib.merge(other),
            GenericTargetProperties::App(own_app) => own_app.merge(other),
        }
    }
}

/// Merging is associative: a chain of libraries contributes the same code
/// however the merges are grouped.
pub proof fn lemma_merge_associative(a: Seq<char>, b: Seq<char>, c: Seq<char>)
    ensures
        merged(merged(a, b), c) == merged(a, merged(b, c)),
{
    assert(merged(merged(a, b), c) =~= merged(a, merged(b, c)));
}

/// Merging is not idempotent: merging the same parent again makes the code
/// longer, so a library reached twice contributes twice.
pub proof fn lemma_merge_not_idempotent(own: Seq<char>, parent: Seq<char>)
    ensures
        merged(merged(own, parent), parent) != merged(own, parent),
{
    reveal_strlit("\n# ------------------------- \n");
    assert(merged(merged(own, parent), parent).len() > merged(own, parent).len());
}

} // verus!
