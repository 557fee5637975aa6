//! Finding the main reactor in the text of a source file.
//!
//! The two declarations that matter are found with regular expressions of
//! the `regex` crate; what is done with what they capture is decided here.

use vstd::prelude::*;

use crate::args::TargetLanguage;
use crate::util::text::{split_once, split_once_at};

verus! {

/// What the capture group `group` of the first match of a regular
/// expression in a line holds, as the `regex` crate finds it. A line
/// without match gives `None`, and so does a pattern that is no regular
/// expression or has no such group.
pub uninterp spec fn captured(pattern: Seq<char>, group: nat, line: Seq<char>) -> Option<Seq<char>>;

/// Compiles the pattern with `regex::Regex::new`, searches the line with
/// `Regex::captures`, and copies the text of the group `group` of the match
/// as `Captures::get` hands it out.
#[verifier::external_body]
fn capture(pattern: &str, group: usize, line: &str) -> (found: Option<String>)
    ensures
        match found {
            Some(text) => captured(pattern@, group as nat, line@) == Some(text@),
            None => captured(pattern@, group as nat, line@) is None,
        },
{
    let expression = regex::Regex::new(pattern).ok()?;
    let groups = expression.captures(line)?;
    groups.get(group).map(|found| found.as_str().to_owned())
}

/// A character with an upper-case ASCII letter turned into lower case.
pub open spec fn lower(c: char) -> char {
    if 'A' <= c && c <= 'Z' {
        ((c as u32) + 32) as char
    } else {
        c
    }
}

/// Whether two texts are the same but for the case of their ASCII letters.
pub open spec fn same_ignoring_case(left: Seq<char>, right: Seq<char>) -> bool {
    &&& left.len() == right.len()
    &&& forall|i: int| 0 <= i < left.len() ==> lower(#[trigger] left[i]) == lower(right[i])
}

/// Calls `str::eq_ignore_ascii_case`, which compares two texts as if every
/// ASCII letter were in lower case.
#[verifier::external_body]
fn eq_ignore_case(left: &str, right: &str) -> (same: bool)
    ensures
        same == same_ignoring_case(left@, right@),
{
    left.eq_ignore_ascii_case(right)
}

/// The pattern of the declaration of a target language.
pub const TARGET_PATTERN: &'static str = r"\btarget\s+(\w+)\s*[{;]";

/// The pattern of the declaration of a main reactor.
pub const MAIN_REACTOR_PATTERN: &'static str = r"\bmain\s+reactor\s+(\w+)\s*[{(]";

/// The target language of a file that declares none.
pub const DEFAULT_TARGET: TargetLanguage = TargetLanguage::C;

/// The target language that a word names, whatever the case of its
/// letters.
pub open spec fn language_named(word: Seq<char>) -> Option<TargetLanguage> {
    if same_ignoring_case(word, "c"@) {
        Some(TargetLanguage::C)
    } else if same_ignoring_case(word, "cpp"@) {
        Some(TargetLanguage::Cpp)
    } else if same_ignoring_case(word, "rust"@) {
        Some(TargetLanguage::Rust)
    } else if same_ignoring_case(word, "typescript"@) {
        Some(TargetLanguage::TypeScript)
    } else if same_ignoring_case(word, "python"@) {
        Some(TargetLanguage::Python)
    } else {
        None
    }
}

/// The target language that a word names.
pub fn parse_target_language(word: &str) -> (language: Option<TargetLanguage>)
    ensures
        language == language_named(word@),
{
    if eq_ignore_case(word, "c") {
        Some(TargetLanguage::C)
    } else if eq_ignore_case(word, "cpp") {
        Some(TargetLanguage::Cpp)
    } else if eq_ignore_case(word, "rust") {
        Some(TargetLanguage::Rust)
    } else if eq_ignore_case(word, "typescript") {
        Some(TargetLanguage::TypeScript)
    } else if eq_ignore_case(word, "python") {
        Some(TargetLanguage::Python)
    } else {
        None
    }
}

/// A main reactor that was found in the sources of a project.
#[derive(Debug)]
pub struct MainReactorSpec {
    /// the name of the reactor
    pub name: String,
    /// the language of the file that holds it
    pub target: TargetLanguage,
    /// the path of the file that holds it
    pub path: String,
}

/// The target language after a line was read: the language that the line
/// declares, if it declares one that is known, else the language before.
pub open spec fn target_after(line: Seq<char>, before: TargetLanguage) -> TargetLanguage {
    match captured(TARGET_PATTERN@, 1, line) {
        Some(word) => match language_named(word) {
            Some(language) => language,
            None => before,
        },
        None => before,
    }
}

/// The name and the target language of the first main reactor that a text
/// declares, read line by line from a file whose target language is
/// `target` so far. A declaration of a target language counts from its
/// line on.
pub open spec fn main_reactor_in(text: Seq<char>, target: TargetLanguage) -> Option<
    (Seq<char>, TargetLanguage),
>
    decreases text.len(),
{
    let (line, rest) = match split_once_at(text, '\n') {
        Some((line, rest)) => (line, Some(rest)),
        None => (text, None),
    };
    let language = target_after(line, target);
    match captured(MAIN_REACTOR_PATTERN@, 1, line) {
        Some(name) => Some((name, language)),
        None => match rest {
            Some(rest) => if rest.len() < text.len() {
                main_reactor_in(rest, language)
            } else {
                None
            },
            None => None,
        },
    }
}

/// Searches the text of a file for the declaration of a main reactor.
///
/// The result is the first main reactor that the text declares, with the
/// target language that was declared last before it or on its line, and
/// with language C where none was declared.
pub fn search_inside_file(content: &str, path: &str) -> (result: Option<MainReactorSpec>)
    ensures
        match result {
            Some(spec) => main_reactor_in(content@, DEFAULT_TARGET) == Some((spec.name@, spec.target))
                && spec.path@ == path@,
            None => main_reactor_in(content@, DEFAULT_TARGET) is None,
        },
{
    let mut target: TargetLanguage = DEFAULT_TARGET;
    let mut rest = content;
    loop
        invariant
            main_reactor_in(content@, DEFAULT_TARGET) == main_reactor_in(rest@, target),
        decreases rest@.len(),
    {
        let (line, following) = match split_once(rest, '\n') {
            Some((line, following)) => (line, Some(following)),
            None => (rest, None),
        };
        proof {
            if split_once_at(rest@, '\n') is Some {
                crate::util::text::lemma_split_is_shorter(rest@, '\n');
            }
        }
        match capture(TARGET_PATTERN, 1, line) {
            Some(word) => match parse_target_language(word.as_str()) {
                Some(language) => {
                    target = language;
                },
                None => {},
            },
            None => {},
        }
        match capture(MAIN_REACTOR_PATTERN, 1, line) {
            Some(name) => {
                return Some(MainReactorSpec { name, target, path: path.to_owned() });
            },
            None => {},
        }
        match following {
            Some(following) => {
                rest = following;
            },
            None => {
                return None;
            },
        }
    }
}

} // verus!
