//! Version numbers and version requirements.
//!
//! Parsing, matching and ordering are done by the `versions` crate. A value of
//! this module holds the text that was parsed; what the crate answers for a
//! text is known to the proofs only by name.

use vstd::prelude::*;

verus! {

/// Whether `versions::Versioning::new` accepts the text.
pub uninterp spec fn versioning_parses(text: Seq<char>) -> bool;

/// Whether `versions::Requirement::new` accepts the text.
pub uninterp spec fn requirement_parses(text: Seq<char>) -> bool;

/// What `versions::Requirement::matches` answers for the requirement and the
/// version that the two texts parse to.
pub uninterp spec fn requirement_admits(requirement: Seq<char>, version: Seq<char>) -> bool;

/// Whether the version parsed from `left` is greater than the one parsed from
/// `right` in the order that `versions::Versioning` implements.
pub uninterp spec fn version_exceeds(left: Seq<char>, right: Seq<char>) -> bool;

/// Calls `versions::Versioning::new` and reports whether it produced a version.
#[verifier::external_body]
fn versioning_is_valid(text: &str) -> (valid: bool)
    ensures
        valid == versioning_parses(text@),
{
    versions::Versioning::new(text).is_some()
}

/// Calls `versions::Requirement::new` and reports whether it produced a
/// requirement.
#[verifier::external_body]
fn requirement_is_valid(text: &str) -> (valid: bool)
    ensures
        valid == requirement_parses(text@),
{
    versions::Requirement::new(text).is_some()
}

/// Calls `versions::Requirement::matches` on the parsed texts. Both texts
/// must parse, so neither `unwrap` can fail.
#[verifier::external_body]
fn requirement_matches(requirement: &str, version: &str) -> (admitted: bool)
    requires
        requirement_parses(requirement@),
        versioning_parses(version@),
    ensures
        admitted == requirement_admits(requirement@, version@),
{
    let requirement = versions::Requirement::new(requirement).unwrap();
    let version = versions::Versioning::new(version).unwrap();
    requirement.matches(&version)
}

/// Compares the parsed texts with `>`, which for `versions::Versioning` is its
/// `Ord` implementation. Both texts must parse, so neither `unwrap` can fail.
#[verifier::external_body]
fn versioning_is_greater(left: &str, right: &str) -> (greater: bool)
    requires
        versioning_parses(left@),
        versioning_parses(right@),
    ensures
        greater == version_exceeds(left@, right@),
{
    let left = versions::Versioning::new(left).unwrap();
    let right = versions::Versioning::new(right).unwrap();
    left > right
}

/// The text of `versions::Requirement::default()`, the wildcard: its `Display`
/// writes the operator `*` and no version, and `Requirement::new` reads that
/// text back as the wildcard.
#[verifier::external_body]
fn wildcard_text() -> (text: String)
    ensures
        text@ == seq!['*'],
        requirement_parses(text@),
{
    versions::Requirement::default().to_string()
}

/// A version number in any of the notations that the `versions` crate reads.
#[derive(Debug)]
pub struct Versioning {
    text: String,
}

impl View for Versioning {
    type V = Seq<char>;

    /// The text of the version.
    closed spec fn view(&self) -> Seq<char> {
        self.text@
    }
}

impl Clone for Versioning {
    fn clone(&self) -> (copy: Self)
        ensures
            copy@ == self@,
    {
        proof {
            use_type_invariant(self);
        }
        Versioning { text: self.text.clone() }
    }
}

impl Versioning {
    #[verifier::type_invariant]
    spec fn parses(self) -> bool {
        versioning_parses(self.text@)
    }

    /// Reads a version. `None` is returned exactly for a text that is no version.
    pub fn new(text: &str) -> (version: Option<Versioning>)
        ensures
            version is Some <==> versioning_parses(text@),
            version matches Some(v) ==> v@ == text@,
    {
        if versioning_is_valid(text) {
            Some(Versioning { text: text.to_owned() })
        } else {
            None
        }
    }

    /// The text that this version was read from.
    pub fn as_str(&self) -> (text: &str)
        ensures
            text@ == self@,
            versioning_parses(text@),
    {
        proof {
            use_type_invariant(self);
        }
        self.text.as_str()
    }

    /// Whether this version is greater than `other`.
    pub fn exceeds(&self, other: &Versioning) -> (greater: bool)
        ensures
            greater == version_exceeds(self@, other@),
    {
        proof {
            use_type_invariant(self);
            use_type_invariant(other);
        }
        versioning_is_greater(self.text.as_str(), other.text.as_str())
    }

    /// Whether both versions have the same text.
    pub fn same_text(&self, other: &Versioning) -> (same: bool)
        ensures
            same == (self@ == other@),
    {
        self.text == other.text
    }
}

/// A constraint on version numbers, such as `^1.4.163` or `*`.
#[derive(Debug)]
pub struct Requirement {
    text: String,
}

impl View for Requirement {
    type V = Seq<char>;

    /// The text of the requirement.
    closed spec fn view(&self) -> Seq<char> {
        self.text@
    }
}

impl Clone for Requirement {
    fn clone(&self) -> (copy: Self)
        ensures
            copy@ == self@,
    {
        proof {
            use_type_invariant(self);
        }
        Requirement { text: self.text.clone() }
    }
}

impl Requirement {
    #[verifier::type_invariant]
    spec fn parses(self) -> bool {
        requirement_parses(self.text@)
    }

    /// Reads a requirement. `None` is returned exactly for a text that is no
    /// requirement.
    pub fn new(text: &str) -> (requirement: Option<Requirement>)
        ensures
            requirement is Some <==> requirement_parses(text@),
            requirement matches Some(r) ==> r@ == text@,
    {
        if requirement_is_valid(text) {
            Some(Requirement { text: text.to_owned() })
        } else {
            None
        }
    }

    /// The requirement `*`, which is the one a lock entry is reloaded with.
    pub fn wildcard() -> (requirement: Requirement)
        ensures
            requirement@ == seq!['*'],
    {
        Requirement { text: wildcard_text() }
    }

    /// The text that this requirement was read from.
    pub fn as_str(&self) -> (text: &str)
        ensures
            text@ == self@,
            requirement_parses(text@),
    {
        proof {
            use_type_invariant(self);
        }
        self.text.as_str()
    }

    /// Whether `version` satisfies this requirement.
    pub fn matches(&self, version: &Versioning) -> (admitted: bool)
        ensures
            admitted == requirement_admits(self@, version@),
    {
        proof {
            use_type_invariant(self);
            use_type_invariant(version);
        }
        requirement_matches(self.text.as_str(), version.as_str())
    }
}

} // verus!
