//! Small operations on texts, stated over their characters.

use vstd::prelude::*;

verus! {

/// Whether `at` is the position of the first `mark` in `text`.
pub open spec fn is_first(text: Seq<char>, mark: char, at: int) -> bool {
    &&& 0 <= at < text.len()
    &&& text[at] == mark
    &&& forall|j: int| 0 <= j < at ==> text[j] != mark
}

/// The position of the first `mark` in `text`, if it holds one.
pub open spec fn first_index(text: Seq<char>, mark: char) -> Option<int> {
    if exists|at: int| is_first(text, mark, at) {
        Some(choose|at: int| is_first(text, mark, at))
    } else {
        None
    }
}

/// What stands before and after the first `mark` in `text`, if it holds one.
pub open spec fn split_once_at(text: Seq<char>, mark: char) -> Option<(Seq<char>, Seq<char>)> {
    match first_index(text, mark) {
        Some(at) => Some((text.take(at), text.skip(at + 1))),
        None => None,
    }
}

/// The first position of a mark is the only one that is first.
pub proof fn lemma_first_index(text: Seq<char>, mark: char, at: int)
    requires
        is_first(text, mark, at),
    ensures
        first_index(text, mark) == Some(at),
{
    let chosen = choose|at: int| is_first(text, mark, at);
    assert(is_first(text, mark, chosen));
    if chosen < at {
        assert(text[chosen] != mark);
    } else if at < chosen {
        assert(text[at] != mark);
    }
}

/// A text without the mark has no first position of it.
pub proof fn lemma_no_first_index(text: Seq<char>, mark: char)
    requires
        forall|j: int| 0 <= j < text.len() ==> text[j] != mark,
    ensures
        first_index(text, mark) is None,
{
}

/// A text that holds the mark has a first position of it.
pub proof fn lemma_has_first_index(text: Seq<char>, mark: char)
    requires
        text.contains(mark),
    ensures
        first_index(text, mark) is Some,
    decreases text.len(),
{
    let i = choose|i: int| 0 <= i < text.len() && text[i] == mark;
    if exists|j: int| 0 <= j < i && text[j] == mark {
        let j = choose|j: int| 0 <= j < i && text[j] == mark;
        let front = text.take(i);
        assert(front[j] == mark);
        lemma_has_first_index(front, mark);
        let at = first_index(front, mark).unwrap();
        assert(is_first(front, mark, at));
        assert(is_first(text, mark, at)) by {
            assert(text[at] == front[at]);
            assert forall|k: int| 0 <= k < at implies text[k] != mark by {
                assert(front[k] == text[k]);
            }
        }
    } else {
        assert(is_first(text, mark, i));
    }
}

/// What stands behind the first mark of a text is shorter than the text.
pub proof fn lemma_split_is_shorter(text: Seq<char>, mark: char)
    requires
        split_once_at(text, mark) is Some,
    ensures
        split_once_at(text, mark).unwrap().1.len() < text.len(),
{
    let at = first_index(text, mark).unwrap();
    assert(is_first(text, mark, at));
}

/// Whether two texts are the same.
pub fn text_eq(left: &str, right: &str) -> (same: bool)
    ensures
        same == (left@ == right@),
{
    left.to_owned() == right.to_owned()
}

/// The position of the first `mark` in `text`.
pub fn find(text: &str, mark: char) -> (position: Option<usize>)
    ensures
        match position {
            Some(at) => first_index(text@, mark) == Some(at as int),
            None => first_index(text@, mark) is None,
        },
{
    let length = text.unicode_len();
    let mut i: usize = 0;
    while i < length
        invariant
            length == text@.len(),
            i <= length,
            forall|j: int| 0 <= j < i ==> text@[j] != mark,
        decreases length - i,
    {
        if text.get_char(i) == mark {
            proof {
                lemma_first_index(text@, mark, i as int);
            }
            return Some(i);
        }
        i += 1;
    }
    proof {
        lemma_no_first_index(text@, mark);
    }
    None
}

/// Splits a text at the first `mark`, which goes to neither part.
pub fn split_once<'a>(text: &'a str, mark: char) -> (parts: Option<(&'a str, &'a str)>)
    ensures
        match parts {
            Some((before, after)) => split_once_at(text@, mark) == Some((before@, after@)),
            None => split_once_at(text@, mark) is None,
        },
{
    match find(text, mark) {
        Some(at) => {
            let length = text.unicode_len();
            let before = text.substring_char(0, at);
            let after = text.substring_char(at + 1, length);
            assert(before@ =~= text@.take(at as int));
            assert(after@ =~= text@.skip(at + 1));
            Some((before, after))
        },
        None => None,
    }
}

/// Joins two texts.
pub fn concat(left: &str, right: &str) -> (joined: String)
    ensures
        joined@ == left@ + right@,
{
    let mut joined = left.to_owned();
    joined.append(right);
    joined
}

/// Whether `left` comes before `right` or equals it in the order of texts:
/// the first byte in which they differ decides, and a text comes before
/// every longer text that starts with it.
pub open spec fn bytes_le(left: Seq<u8>, right: Seq<u8>) -> bool
    decreases left.len(),
{
    if left.len() == 0 {
        true
    } else if right.len() == 0 {
        false
    } else if left[0] != right[0] {
        left[0] < right[0]
    } else {
        bytes_le(left.skip(1), right.skip(1))
    }
}

/// Whether `left` comes before `right` or equals it in the order in which
/// strings are sorted: by their bytes in UTF-8.
#[verifier::opaque]
pub open spec fn text_le(left: Seq<char>, right: Seq<char>) -> bool {
    bytes_le(vstd::utf8::encode_utf8(left), vstd::utf8::encode_utf8(right))
}

/// Of two texts one comes before the other, or they take the same place.
pub proof fn lemma_bytes_le_total(left: Seq<u8>, right: Seq<u8>)
    ensures
        bytes_le(left, right) || bytes_le(right, left),
    decreases left.len(),
{
    if left.len() > 0 && right.len() > 0 && left[0] == right[0] {
        lemma_bytes_le_total(left.skip(1), right.skip(1));
    }
}

/// Of two texts one comes before the other, or they take the same place.
pub proof fn lemma_text_le_total(left: Seq<char>, right: Seq<char>)
    ensures
        text_le(left, right) || text_le(right, left),
{
    reveal(text_le);
    lemma_bytes_le_total(vstd::utf8::encode_utf8(left), vstd::utf8::encode_utf8(right));
}

/// Whether `left` comes before `right` or equals it in the order of strings.
pub fn le(left: &str, right: &str) -> (ordered: bool)
    ensures
        ordered == text_le(left@, right@),
{
    let a = left.as_bytes();
    let b = right.as_bytes();
    let mut i: usize = 0;
    proof {
        reveal(text_le);
        assert(a@.skip(0) =~= a@);
        assert(b@.skip(0) =~= b@);
    }
    loop
        invariant
            i <= a@.len(),
            i <= b@.len(),
            a@ == vstd::utf8::encode_utf8(left@),
            b@ == vstd::utf8::encode_utf8(right@),
            text_le(left@, right@) == bytes_le(a@.skip(i as int), b@.skip(i as int)),
        decreases a@.len() - i,
    {
        if i >= a.len() {
            return true;
        }
        if i >= b.len() {
            return false;
        }
        if a[i] != b[i] {
            return a[i] < b[i];
        }
        proof {
            assert(a@.skip(i as int).skip(1) =~= a@.skip(i + 1));
            assert(b@.skip(i as int).skip(1) =~= b@.skip(i + 1));
        }
        i += 1;
    }
}

} // verus!
