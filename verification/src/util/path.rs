//! Paths as texts whose components are separated by `/`.

use vstd::prelude::*;

verus! {

/// The path of `rest` below `base`: `rest` itself where it is absolute or
/// `base` is empty, else `base` and `rest` with one `/` between them.
#[verifier::opaque]
pub open spec fn joined(base: Seq<char>, rest: Seq<char>) -> Seq<char> {
    if rest.len() > 0 && rest[0] == '/' {
        rest
    } else if base.len() == 0 {
        rest
    } else if base.last() == '/' {
        base + rest
    } else {
        base + seq!['/'] + rest
    }
}

/// The path without the `/` at its end, which do not count: the last
/// component of `a/b/` is `b`. The root keeps its `/`.
pub open spec fn trimmed(path: Seq<char>) -> Seq<char>
    decreases path.len(),
{
    if path.len() > 1 && path.last() == '/' {
        trimmed(path.drop_last())
    } else {
        path
    }
}

/// Where the last component of a path starts: behind its last `/`.
pub open spec fn name_start(path: Seq<char>) -> int
    decreases path.len(),
{
    if path.len() == 0 {
        0
    } else if path.last() == '/' {
        path.len() as int
    } else {
        name_start(path.drop_last())
    }
}

/// The last component of a path, whether or not a `/` follows it. The
/// empty path, the root and a path that ends in `..` have none.
#[verifier::opaque]
pub open spec fn file_name_of(path: Seq<char>) -> Option<Seq<char>> {
    let body = trimmed(path);
    let name = body.skip(name_start(body));
    if name.len() == 0 || name == seq!['.', '.'] {
        None
    } else {
        Some(name)
    }
}

/// Where the extension of a file name starts: at its last `.`, unless that is
/// its first character; the length of the name where it has no extension.
pub open spec fn stem_end(name: Seq<char>, n: int) -> int
    decreases n,
{
    if n <= 1 {
        name.len() as int
    } else if name[n - 1] == '.' {
        n - 1
    } else {
        stem_end(name, n - 1)
    }
}

/// The last component of a path without its extension.
#[verifier::opaque]
pub open spec fn file_stem_of(path: Seq<char>) -> Option<Seq<char>> {
    match file_name_of(path) {
        Some(name) => Some(name.take(stem_end(name, name.len() as int))),
        None => None,
    }
}

/// Whether the first `end` characters of `path` are the path itself or one of
/// the directories above it, and the last component of that is `src`.
pub open spec fn ends_in_src(path: Seq<char>, end: int) -> bool {
    &&& 3 <= end <= path.len()
    &&& path[end - 3] == 's' && path[end - 2] == 'r' && path[end - 1] == 'c'
    &&& end == 3 || path[end - 4] == '/'
    &&& end == path.len() || path[end] == '/'
}

/// The nearest directory at or above `path` whose name is `src`.
#[verifier::opaque]
pub open spec fn src_dir_of(path: Seq<char>) -> Option<Seq<char>> {
    if exists|end: int| ends_in_src(path, end) {
        let end = choose|end: int|
            ends_in_src(path, end) && forall|other: int| ends_in_src(path, other) ==> other <= end;
        Some(path.take(end))
    } else {
        None
    }
}

/// The path of `path` relative to the directory `root`, if it lies there.
#[verifier::opaque]
pub open spec fn below(path: Seq<char>, root: Seq<char>) -> Option<Seq<char>> {
    if root.len() <= path.len() && path.take(root.len() as int) == root {
        if root.len() == path.len() {
            Some(Seq::empty())
        } else if root.len() > 0 && root.last() == '/' {
            Some(path.skip(root.len() as int))
        } else if path[root.len() as int] == '/' {
            Some(path.skip(root.len() as int + 1))
        } else {
            None
        }
    } else {
        None
    }
}

/// Whether a component named `src` starts at `start` in `path`.
pub open spec fn src_starts_at(path: Seq<char>, start: int) -> bool {
    &&& 0 <= start
    &&& start + 3 <= path.len()
    &&& path[start] == 's' && path[start + 1] == 'r' && path[start + 2] == 'c'
    &&& start == 0 || path[start - 1] == '/'
    &&& start + 3 == path.len() || path[start + 3] == '/'
}

/// What stands in `path` behind its first component named `src`.
#[verifier::opaque]
pub open spec fn behind_src(path: Seq<char>) -> Option<Seq<char>> {
    if exists|start: int| src_starts_at(path, start) {
        let start = choose|start: int|
            src_starts_at(path, start) && forall|other: int|
                src_starts_at(path, other) ==> start <= other;
        if start + 3 == path.len() {
            Some(Seq::empty())
        } else {
            Some(path.skip(start + 4))
        }
    } else {
        None
    }
}

/// The path without the extension of its last component, and without
/// what follows that component. A path without a last component is left as
/// it is.
#[verifier::opaque]
pub open spec fn without_extension(path: Seq<char>) -> Seq<char> {
    let body = trimmed(path);
    let start = name_start(body);
    let name = body.skip(start);
    if name.len() == 0 || name == seq!['.', '.'] {
        path
    } else {
        body.take(start + stem_end(name, name.len() as int))
    }
}

/// The path of `path` relative to the directory `root`.
pub fn strip_prefix<'a>(path: &'a str, root: &str) -> (rest: Option<&'a str>)
    ensures
        match rest {
            Some(rest) => below(path@, root@) == Some(rest@),
            None => below(path@, root@) is None,
        },
{
    proof {
        reveal(below);
    }
    let path_length = path.unicode_len();
    let root_length = root.unicode_len();
    if root_length > path_length {
        return None;
    }
    let mut i: usize = 0;
    while i < root_length
        invariant
            i <= root_length <= path_length,
            root_length == root@.len(),
            path_length == path@.len(),
            forall|k: int| 0 <= k < i ==> path@[k] == root@[k],
        decreases root_length - i,
    {
        proof {
            reveal(below);
        }
        if path.get_char(i) != root.get_char(i) {
            assert(path@.take(root@.len() as int)[i as int] != root@[i as int]);
            return None;
        }
        i += 1;
    }
    assert(path@.take(root@.len() as int) =~= root@);
    if root_length == path_length {
        let rest = path.substring_char(path_length, path_length);
        assert(rest@ =~= Seq::empty());
        Some(rest)
    } else if root_length > 0 && root.get_char(root_length - 1) == '/' {
        let rest = path.substring_char(root_length, path_length);
        assert(rest@ =~= path@.skip(root_length as int));
        Some(rest)
    } else if path.get_char(root_length) == '/' {
        let rest = path.substring_char(root_length + 1, path_length);
        assert(rest@ =~= path@.skip(root_length + 1));
        Some(rest)
    } else {
        None
    }
}

/// What stands in `path` behind its first component named `src`.
pub fn skip_to_src(path: &str) -> (rest: Option<&str>)
    ensures
        match rest {
            Some(rest) => behind_src(path@) == Some(rest@),
            None => behind_src(path@) is None,
        },
{
    proof {
        reveal(behind_src);
    }
    let length = path.unicode_len();
    if length < 3 {
        return None;
    }
    let mut start: usize = 0;
    while start <= length - 3
        invariant
            3 <= length,
            length == path@.len(),
            forall|other: int| 0 <= other < start ==> !src_starts_at(path@, other),
        decreases length - start,
    {
        proof {
            reveal(behind_src);
        }
        let named_src = path.get_char(start) == 's' && path.get_char(start + 1) == 'r'
            && path.get_char(start + 2) == 'c';
        let begins = start == 0 || path.get_char(start - 1) == '/';
        let ends = start + 3 == length || path.get_char(start + 3) == '/';
        if named_src && begins && ends {
            proof {
                assert(src_starts_at(path@, start as int));
                let chosen = choose|s: int|
                    src_starts_at(path@, s) && forall|other: int|
                        src_starts_at(path@, other) ==> s <= other;
                assert(chosen == start);
            }
            if start + 3 == length {
                let rest = path.substring_char(length, length);
                assert(rest@ =~= Seq::empty());
                return Some(rest);
            } else {
                let rest = path.substring_char(start + 4, length);
                assert(rest@ =~= path@.skip(start + 4));
                return Some(rest);
            }
        }
        start += 1;
    }
    None
}

/// The path without the extension of its last component.
pub fn strip_extension(path: &str) -> (stripped: &str)
    ensures
        stripped@ == without_extension(path@),
{
    proof {
        reveal(without_extension);
    }
    let body = trim(path);
    let start = find_name_start(body);
    let length = body.unicode_len();
    let name = body.substring_char(start, length);
    assert(name@ =~= body@.skip(start as int));
    let name_length = length - start;
    if name_length == 0 {
        return path;
    }
    if name_length == 2 && name.get_char(0) == '.' && name.get_char(1) == '.' {
        assert(name@ =~= seq!['.', '.']);
        return path;
    }
    assert(name@ != seq!['.', '.']) by {
        if name@ == seq!['.', '.'] {
            assert(seq!['.', '.'].len() == 2);
            assert(seq!['.', '.'][0] == '.' && seq!['.', '.'][1] == '.');
        }
    }
    let mut n = name_length;
    while n > 1
        invariant
            n <= name_length,
            name_length == name@.len(),
            name_length > 0,
            name@ != seq!['.', '.'],
            start + name_length == body@.len(),
            length == body@.len(),
            body@ == trimmed(path@),
            name@ == body@.skip(start as int),
            start == name_start(body@),
            stem_end(name@, name_length as int) == stem_end(name@, n as int),
        decreases n,
    {
        proof {
            reveal(without_extension);
        }
        if name.get_char(n - 1) == '.' {
            assert(stem_end(name@, n as int) == n - 1);
            let stripped = body.substring_char(0, start + (n - 1));
            assert(stripped@ =~= body@.take(start + (n - 1)));
            return stripped;
        }
        n -= 1;
    }
    assert(stem_end(name@, n as int) == name_length);
    assert(body@.take(start + name_length) =~= body@);
    body
}

/// The directory above a path: what stands before the `/` in front of its
/// last component, and `/` itself for a path directly below the root. The
/// root and a path of one component have none.
#[verifier::opaque]
pub open spec fn parent_of(path: Seq<char>) -> Option<Seq<char>> {
    let body = trimmed(path);
    let start = name_start(body);
    if start == 0 {
        None
    } else if start == 1 {
        if body.len() > 1 {
            Some(body.take(1))
        } else {
            None
        }
    } else {
        Some(body.take(start - 1))
    }
}

/// The directory that lies `levels` levels above a path.
pub open spec fn ancestor_of(path: Seq<char>, levels: int) -> Option<Seq<char>>
    decreases levels,
{
    if levels <= 0 {
        Some(path)
    } else {
        match ancestor_of(path, levels - 1) {
            Some(below) => parent_of(below),
            None => None,
        }
    }
}

/// The directory above a path.
pub fn parent(path: &str) -> (dir: Option<&str>)
    ensures
        match dir {
            Some(dir) => parent_of(path@) == Some(dir@) && dir@.len() < path@.len(),
            None => parent_of(path@) is None,
        },
{
    proof {
        reveal(parent_of);
    }
    let body = trim(path);
    let start = find_name_start(body);
    let length = body.unicode_len();
    if start == 0 {
        None
    } else if start == 1 {
        if length > 1 {
            let dir = body.substring_char(0, 1);
            assert(dir@ =~= body@.take(1));
            Some(dir)
        } else {
            None
        }
    } else {
        let dir = body.substring_char(0, start - 1);
        assert(dir@ =~= body@.take(start - 1));
        Some(dir)
    }
}

/// Joins a path below a base directory.
pub fn join(base: &str, rest: &str) -> (path: String)
    ensures
        path@ == joined(base@, rest@),
{
    proof {
        reveal(joined);
    }
    proof {
        reveal_strlit("/");
    }
    let rest_length = rest.unicode_len();
    let base_length = base.unicode_len();
    if rest_length > 0 && rest.get_char(0) == '/' {
        rest.to_owned()
    } else if base_length == 0 {
        rest.to_owned()
    } else if base.get_char(base_length - 1) == '/' {
        let mut path = base.to_owned();
        path.append(rest);
        path
    } else {
        let mut path = base.to_owned();
        path.append("/");
        path.append(rest);
        assert(path@ =~= base@ + seq!['/'] + rest@);
        path
    }
}

/// The path without the `/` at its end.
fn trim(path: &str) -> (body: &str)
    ensures
        body@ == trimmed(path@),
        body@.len() <= path@.len(),
{
    let mut end = path.unicode_len();
    proof {
        assert(path@.take(end as int) =~= path@);
    }
    while end > 1 && path.get_char(end - 1) == '/'
        invariant
            end <= path@.len(),
            trimmed(path@) == trimmed(path@.take(end as int)),
        decreases end,
    {
        proof {
            assert(path@.take(end as int).drop_last() =~= path@.take(end - 1));
        }
        end -= 1;
    }
    let body = path.substring_char(0, end);
    assert(body@ =~= path@.take(end as int));
    body
}

/// The position at which the last component of a path starts.
fn find_name_start(path: &str) -> (start: usize)
    ensures
        start == name_start(path@),
        start <= path@.len(),
{
    let mut end = path.unicode_len();
    proof {
        assert(path@.take(end as int) =~= path@);
    }
    while end > 0
        invariant
            end <= path@.len(),
            name_start(path@) == name_start(path@.take(end as int)),
        decreases end,
    {
        if path.get_char(end - 1) == '/' {
            return end;
        }
        proof {
            assert(path@.take(end as int).drop_last() =~= path@.take(end - 1));
        }
        end -= 1;
    }
    0
}

/// The last component of a path.
pub fn file_name(path: &str) -> (name: Option<&str>)
    ensures
        match name {
            Some(name) => file_name_of(path@) == Some(name@),
            None => file_name_of(path@) is None,
        },
{
    proof {
        reveal(file_name_of);
    }
    let body = trim(path);
    let start = find_name_start(body);
    let length = body.unicode_len();
    let name = body.substring_char(start, length);
    assert(name@ =~= body@.skip(start as int));
    let name_length = length - start;
    if name_length == 0 {
        None
    } else if name_length == 2 && name.get_char(0) == '.' && name.get_char(1) == '.' {
        assert(name@ =~= seq!['.', '.']);
        None
    } else {
        Some(name)
    }
}

/// The last component of a path without its extension.
pub fn file_stem(path: &str) -> (stem: Option<&str>)
    ensures
        match stem {
            Some(stem) => file_stem_of(path@) == Some(stem@),
            None => file_stem_of(path@) is None,
        },
{
    proof {
        reveal(file_stem_of);
    }
    match file_name(path) {
        Some(name) => {
            let length = name.unicode_len();
            let mut n = length;
            while n > 1
                invariant
                    n <= length,
                    length == name@.len(),
                    file_name_of(path@) == Some(name@),
                    stem_end(name@, length as int) == stem_end(name@, n as int),
                decreases n,
            {
                proof {
                    reveal(file_stem_of);
                }
                if name.get_char(n - 1) == '.' {
                    let stem = name.substring_char(0, n - 1);
                    assert(stem_end(name@, n as int) == n - 1);
                    assert(stem@ =~= name@.take(n - 1));
                    return Some(stem);
                }
                n -= 1;
            }
            assert(stem_end(name@, n as int) == length);
            assert(name@.take(length as int) =~= name@);
            Some(name)
        },
        None => None,
    }
}

/// The nearest directory at or above `path` whose name is `src`.
pub fn src_dir(path: &str) -> (dir: Option<&str>)
    ensures
        match dir {
            Some(dir) => src_dir_of(path@) == Some(dir@),
            None => src_dir_of(path@) is None,
        },
{
    proof {
        reveal(src_dir_of);
    }
    let length = path.unicode_len();
    let mut end = length;
    while end >= 3
        invariant
            end <= length,
            length == path@.len(),
            forall|other: int| end < other ==> !ends_in_src(path@, other),
        decreases end,
    {
        proof {
            reveal(src_dir_of);
        }
        let named_src = path.get_char(end - 3) == 's' && path.get_char(end - 2) == 'r'
            && path.get_char(end - 1) == 'c';
        let starts = end == 3 || path.get_char(end - 4) == '/';
        let stops = end == length || path.get_char(end) == '/';
        if named_src && starts && stops {
            let dir = path.substring_char(0, end);
            proof {
                assert(ends_in_src(path@, end as int));
                let chosen = choose|e: int|
                    ends_in_src(path@, e) && forall|other: int|
                        ends_in_src(path@, other) ==> other <= e;
                assert(chosen == end);
                assert(dir@ =~= path@.take(end as int));
            }
            return Some(dir);
        }
        end -= 1;
    }
    None
}

} // verus!
