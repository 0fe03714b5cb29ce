//! The Rust toolchain of the environment: where the sources of the standard
//! library are. Running `rustup` is left to the caller, which hands in what
//! `rustup toolchain list -v` printed.

use crate::debugger::dwarf::{path_push, pushed_path};
use crate::debugger::error::Error;
use crate::text::{contains, lines, spec_contains, spec_lines, spec_words, strings_view, words};
use vstd::prelude::*;

verus! {

/// A toolchain installed by rustup.
#[derive(Debug)]
pub struct Toolchain {
    name: String,
    path: String,
}

/// Path of the standard library sources, relative to a toolchain.
pub open spec fn std_lib_suffix() -> Seq<char> {
    seq!['l', 'i', 'b', '/', 'r', 'u', 's', 't', 'l', 'i', 'b', '/', 's', 'r', 'c', '/', 'r', 'u', 's', 't']
}

impl Toolchain {
    pub closed spec fn name_view(&self) -> Seq<char> {
        self.name@
    }

    pub closed spec fn path_view(&self) -> Seq<char> {
        self.path@
    }

    /// A toolchain with the given name, installed at the given path.
    pub fn new(name: String, path: String) -> (r: Toolchain)
        ensures
            r.name_view() == name@,
            r.path_view() == path@,
    {
        Toolchain { name, path }
    }

    /// Name of the toolchain.
    pub fn name(&self) -> (r: &String)
        ensures
            r@ == self.name_view(),
    {
        &self.name
    }

    /// Path of the toolchain.
    pub fn path(&self) -> (r: &String)
        ensures
            r@ == self.path_view(),
    {
        &self.path
    }

    /// Path of the sources of the standard library of the toolchain.
    pub fn std_lib_path(&self) -> (r: String)
        ensures
            r@ == pushed_path(self.path_view(), std_lib_suffix()),
    {
        let mut p = crate::text::copy_string(&self.path);
        path_push(&mut p, "lib/rustlib/src/rust");
        proof {
            reveal_strlit("lib/rustlib/src/rust");
            assert("lib/rustlib/src/rust"@ =~= std_lib_suffix());
        }
        p
    }
}

/// The marker of the default toolchain in the list.
pub open spec fn default_marker() -> Seq<char> {
    seq!['(', 'd', 'e', 'f', 'a', 'u', 'l', 't', ')']
}

/// Position of the first line that holds the default marker.
pub open spec fn default_line(ls: Seq<Seq<char>>) -> Option<int>
    decreases ls.len(),
{
    if ls.len() == 0 {
        None
    } else {
        match default_line(ls.drop_last()) {
            Some(i) => Some(i),
            None => if spec_contains(ls.last(), default_marker()) {
                Some(ls.len() - 1)
            } else {
                None
            },
        }
    }
}

/// The default toolchain of a list printed by `rustup toolchain list -v`: the
/// first line marked `(default)`, whose first word is the name of the
/// toolchain and whose last word is its path; the line must have at least
/// three words.
pub fn parse_default_toolchain(list: &str) -> (r: Result<Toolchain, Error>)
    ensures
        match default_line(spec_lines(list@)) {
            None => r == Err::<Toolchain, Error>(Error::DefaultToolchainNotFound),
            Some(i) => {
                let ws = spec_words(spec_lines(list@)[i]);
                if ws.len() < 3 {
                    r == Err::<Toolchain, Error>(Error::UnrecognizedRustupOut)
                } else {
                    r matches Ok(t) && t.name_view() == ws[0] && t.path_view() == ws.last()
                }
            },
        },
{
    let ls = lines(list);
    let ghost lv = spec_lines(list@);
    let mut i: usize = 0;
    while i < ls.len()
        invariant
            lv == spec_lines(list@),
            strings_view(ls@) == lv,
            i <= ls@.len(),
            default_line(lv.subrange(0, i as int)) is None,
        decreases ls@.len() - i,
    {
        proof {
            assert(lv.subrange(0, i + 1).drop_last() =~= lv.subrange(0, i as int));
            assert(lv[i as int] == ls@[i as int]@);
            reveal_strlit("(default)");
            assert("(default)"@ =~= default_marker());
        }
        if contains(ls[i].as_str(), "(default)") {
            proof {
                lemma_default_line_prefix(lv, i as int);
            }
            let parts = words(ls[i].as_str());
            if parts.len() < 3 {
                return Err(Error::UnrecognizedRustupOut);
            }
            let name = crate::text::copy_string(&parts[0]);
            let path = crate::text::copy_string(&parts[parts.len() - 1]);
            proof {
                assert(strings_view(parts@)[0] == parts@[0]@);
                assert(strings_view(parts@).last() == parts@[parts@.len() - 1]@);
            }
            return Ok(Toolchain { name, path });
        }
        i = i + 1;
    }
    proof {
        assert(lv.subrange(0, i as int) =~= lv);
    }
    Err(Error::DefaultToolchainNotFound)
}

/// A line marked at position `i`, with no marked line before it, is the first marked line.
proof fn lemma_default_line_prefix(ls: Seq<Seq<char>>, i: int)
    requires
        0 <= i < ls.len(),
        default_line(ls.subrange(0, i)) is None,
        spec_contains(ls[i], default_marker()),
    ensures
        default_line(ls) == Some(i),
    decreases ls.len(),
{
    if ls.len() == i + 1 {
        assert(ls.drop_last() =~= ls.subrange(0, i));
    } else {
        assert(ls.drop_last().subrange(0, i) =~= ls.subrange(0, i));
        lemma_default_line_prefix(ls.drop_last(), i);
    }
}

/// The Rust environment of the debugger.
#[derive(Debug)]
pub struct Environment {
    pub toolchain: Option<Toolchain>,
    pub std_lib_path: Option<String>,
}

impl Environment {
    /// The environment with the given toolchain (if one was detected): the
    /// path of the standard library sources is the given one or, without
    /// one, that of the toolchain.
    pub fn init(std_lib_path: Option<String>, toolchain: Option<Toolchain>) -> (r: Environment)
        ensures
            r.toolchain == toolchain,
            match std_lib_path {
                Some(p) => r.std_lib_path == Some(p),
                None => match toolchain {
                    Some(t) => r.std_lib_path matches Some(p) && p@ == pushed_path(t.path_view(), std_lib_suffix()),
                    None => r.std_lib_path is None,
                },
            },
    {
        let path = match std_lib_path {
            Some(p) => Some(p),
            None => match &toolchain {
                Some(t) => Some(t.std_lib_path()),
                None => None,
            },
        };
        Environment { toolchain, std_lib_path: path }
    }
}

} // verus!
