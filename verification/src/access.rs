//! Which paths the tools may read: those inside one of the allowed
//! directories.
use vstd::prelude::*;

use crate::text::chars_of;

verus! {

/// `path` is the directory `dir` or lies under it: `dir` is a prefix of `path`
/// that ends at a `/` of `path` (or at its end, or itself ends with `/`).
pub open spec fn under_dir(path: Seq<char>, dir: Seq<char>) -> bool {
    &&& dir.len() > 0
    &&& dir.len() <= path.len()
    &&& path.take(dir.len() as int) == dir
    &&& (path.len() == dir.len() || dir.last() == '/' || path[dir.len() as int] == '/')
}

/// `path` lies under one of `dirs`.
pub open spec fn path_allowed(path: Seq<char>, dirs: Seq<Seq<char>>) -> bool {
    exists|i: int| 0 <= i < dirs.len() && under_dir(path, #[trigger] dirs[i])
}

/// Whether `path` lies under `dir`.
fn is_under_dir(path: &[char], dir: &[char]) -> (b: bool)
    ensures
        b == under_dir(path@, dir@),
{
    let n = dir.len();
    if n == 0 || n > path.len() {
        return false;
    }
    let mut k: usize = 0;
    while k < n
        invariant
            k <= n,
            n == dir@.len(),
            n <= path@.len(),
            forall|q: int| 0 <= q < k ==> path@[q] == dir@[q],
        decreases n - k,
    {
        if path[k] != dir[k] {
            assert(path@.take(n as int)[k as int] != dir@[k as int]);
            return false;
        }
        k += 1;
    }
    assert(path@.take(n as int) =~= dir@);
    n == path.len() || dir[n - 1] == '/' || path[n] == '/'
}

/// Whether `path` lies under one of the allowed directories. Both are meant
/// to be absolute and normalized, so that `..` and links cannot lead out.
pub fn is_path_allowed(path: &str, allowed_dirs: &Vec<String>) -> (b: bool)
    ensures
        b == path_allowed(path@, allowed_dirs@.map_values(|d: String| d@)),
{
    let p = chars_of(path);
    let ghost dirs = allowed_dirs@.map_values(|d: String| d@);
    let mut i: usize = 0;
    while i < allowed_dirs.len()
        invariant
            i <= allowed_dirs@.len(),
            dirs == allowed_dirs@.map_values(|d: String| d@),
            p@ == path@,
            forall|j: int| 0 <= j < i ==> !under_dir(path@, #[trigger] dirs[j]),
        decreases allowed_dirs@.len() - i,
    {
        let d = chars_of(allowed_dirs[i].as_str());
        assert(dirs[i as int] == d@);
        if is_under_dir(p.as_slice(), d.as_slice()) {
            return true;
        }
        i += 1;
    }
    false
}

/// Every path below an allowed directory is allowed, however deep: the
/// directory, a `/`, then any relative path, subdirectories included.
pub proof fn law_paths_below_a_directory_lie_under_it(dir: Seq<char>, rest: Seq<char>)
    requires
        dir.len() > 0,
    ensures
        under_dir(dir.push('/') + rest, dir),
        under_dir(dir, dir),
{
    let path = dir.push('/') + rest;
    assert(path.take(dir.len() as int) =~= dir);
    assert(path[dir.len() as int] == '/');
    assert(dir.take(dir.len() as int) =~= dir);
}

/// A path below any of the allowed directories is allowed.
pub proof fn law_paths_below_an_allowed_directory_are_allowed(
    dirs: Seq<Seq<char>>,
    i: int,
    rest: Seq<char>,
)
    requires
        0 <= i < dirs.len(),
        dirs[i].len() > 0,
    ensures
        path_allowed(dirs[i].push('/') + rest, dirs),
        path_allowed(dirs[i], dirs),
{
    law_paths_below_a_directory_lie_under_it(dirs[i], rest);
}

/// A sibling whose name only starts with an allowed directory's name (such as
/// `/srv/database` next to `/srv/data`) is not under it.
pub proof fn law_name_prefix_is_not_a_subdirectory(dir: Seq<char>, rest: Seq<char>)
    requires
        dir.len() > 0,
        dir.last() != '/',
        rest.len() > 0,
        rest[0] != '/',
    ensures
        !under_dir(dir + rest, dir),
{
    let path = dir + rest;
    assert(path[dir.len() as int] == rest[0]);
}

} // verus!
