//! Paths of source files as the line programs of DWARF units name them.

use vstd::prelude::*;

pub mod eval;

verus! {

/// A path with `p` added at its end: `p` itself when it is absolute,
/// otherwise `p` after a separator that is added unless the path is empty or
/// already ends with one.
pub open spec fn pushed_path(path: Seq<char>, p: Seq<char>) -> Seq<char> {
    if p.len() > 0 && p[0] == '/' {
        p
    } else if path.len() > 0 && path.last() != '/' {
        path + seq!['/'] + p
    } else {
        path + p
    }
}

/// Add a component to a path, as a directory and a file name of a line
/// program are put together.
pub fn path_push(path: &mut String, p: &str)
    ensures
        final(path)@ == pushed_path(old(path)@, p@),
{
    if p.unicode_len() > 0 && p.get_char(0) == '/' {
        *path = String::from_str(p);
    } else {
        let n = path.as_str().unicode_len();
        if n > 0 && path.as_str().get_char(n - 1) != '/' {
            path.append("/");
            proof {
                reveal_strlit("/");
            }
        }
        path.append(p);
    }
}

} // verus!
