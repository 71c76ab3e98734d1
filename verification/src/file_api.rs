//! The guard of the file endpoint: which paths it serves.

use crate::text::{chars_of, continues_with, starts_with};
use vstd::prelude::*;

verus! {

/// The texts of a sequence of strings.
pub open spec fn dir_texts(v: Seq<String>) -> Seq<Seq<char>> {
    Seq::new(v.len(), |i: int| v[i]@)
}

/// Whether the resolved path lies in the resolved directory: it is the
/// directory, or it goes on behind the directory with a slash.
pub open spec fn within(path: Seq<char>, dir: Seq<char>) -> bool {
    &&& starts_with(path, dir)
    &&& (path.len() == dir.len() || (dir.len() > 0 && dir.last() == '/') || path[dir.len() as int] == '/')
}

/// Whether the resolved path lies in one of the resolved directories.
pub open spec fn allowed_path(path: Seq<char>, dirs: Seq<Seq<char>>) -> bool {
    exists|i: int| 0 <= i < dirs.len() && within(path, #[trigger] dirs[i])
}

/// What the guard says of a requested path, given how it resolves: the
/// resolved path where that lies in an allowed directory, else why not.
pub open spec fn verdict(path: Seq<char>, resolved: Option<Seq<char>>, dirs: Seq<Seq<char>>) -> Result<
    Seq<char>,
    Seq<char>,
> {
    if path.len() == 0 {
        Err("Path cannot be empty"@)
    } else if path.contains('\0') {
        Err("Path contains invalid characters"@)
    } else if resolved is None {
        Err("Invalid or non-existent path"@)
    } else if !allowed_path(resolved->0, dirs) {
        Err("Access denied: path is outside allowed directories"@)
    } else {
        Ok(resolved->0)
    }
}

/// The text of either side of a result.
pub open spec fn verdict_view(r: Result<String, String>) -> Result<Seq<char>, Seq<char>> {
    match r {
        Ok(s) => Ok(s@),
        Err(s) => Err(s@),
    }
}

fn lies_within(path: &Vec<char>, dir: &Vec<char>) -> (r: bool)
    ensures
        r == within(path@, dir@),
{
    proof {
        assert(path@.subrange(0, path@.len() as int) =~= path@);
    }
    if !continues_with(path, 0, dir) {
        return false;
    }
    path.len() == dir.len() || (dir.len() > 0 && dir[dir.len() - 1] == '/') || path[dir.len()] == '/'
}

/// Checks a requested path. `resolved` is the path with its links and dots
/// resolved, or nothing where it does not resolve; `allowed` are the
/// allowed directories that exist, resolved in the same way.
pub fn validate_path(path: &str, resolved: Option<String>, allowed: &Vec<String>) -> (r: Result<
    String,
    String,
>)
    ensures
        verdict_view(r) == verdict(
            path@,
            match resolved {
                Some(s) => Some(s@),
                None => None,
            },
            dir_texts(allowed@),
        ),
{
    let chars = chars_of(path);
    if chars.len() == 0 {
        return Err("Path cannot be empty".to_owned());
    }
    let mut i: usize = 0;
    while i < chars.len()
        invariant
            i <= chars@.len(),
            chars@ == path@,
            chars@.len() > 0,
            forall|j: int| 0 <= j < i ==> #[trigger] chars@[j] != '\0',
        decreases chars@.len() - i,
    {
        if chars[i] == '\0' {
            proof {
                assert(path@[i as int] == '\0');
            }
            return Err("Path contains invalid characters".to_owned());
        }
        i += 1;
    }
    let target = match resolved {
        Some(t) => t,
        None => {
            return Err("Invalid or non-existent path".to_owned());
        },
    };
    let there = chars_of(target.as_str());
    let mut k: usize = 0;
    while k < allowed.len()
        invariant
            k <= allowed@.len(),
            there@ == target@,
            resolved == Some(target),
            path@.len() > 0,
            !path@.contains('\0'),
            forall|j: int| 0 <= j < k ==> !within(target@, #[trigger] dir_texts(allowed@)[j]),
        decreases allowed@.len() - k,
    {
        let dir = chars_of(allowed[k].as_str());
        proof {
            assert(dir_texts(allowed@)[k as int] == dir@);
        }
        if lies_within(&there, &dir) {
            return Ok(target);
        }
        k += 1;
    }
    Err("Access denied: path is outside allowed directories".to_owned())
}

} // verus!
