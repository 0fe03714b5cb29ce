//! Shared object dependencies as listed by `ldd`.

use crate::text::{first_word, lines, spec_first_word, spec_lines, spec_split, spec_trim, split, strings_view, trim};
use vstd::prelude::*;

verus! {

/// The dependency named by one line of `ldd` output: the first word after the
/// last `=>` of the trimmed line (the whole trimmed line if it has no `=>`).
pub open spec fn ldd_line_dependency(line: Seq<char>) -> Option<Seq<char>> {
    let pieces = spec_split(spec_trim(line), seq!['=', '>']);
    if pieces.len() == 0 {
        None
    } else {
        spec_first_word(pieces.last())
    }
}

/// Dependencies named by the given lines, in order; lines that name none are skipped.
pub open spec fn ldd_dependencies(lines: Seq<Seq<char>>) -> Seq<Seq<char>>
    decreases lines.len(),
{
    if lines.len() == 0 {
        Seq::empty()
    } else {
        let rest = ldd_dependencies(lines.drop_last());
        match ldd_line_dependency(lines.last()) {
            Some(dep) => rest.push(dep),
            None => rest,
        }
    }
}

/// The dependency named by one line of `ldd` output.
fn line_dependency(line: &str) -> (r: Option<String>)
    ensures
        match ldd_line_dependency(line@) {
            None => r.is_none(),
            Some(d) => r matches Some(x) && x@ == d,
        },
{
    let t = trim(line);
    let arrow = "=>";
    proof {
        reveal_strlit("=>");
    }
    let pieces = split(t.as_str(), arrow);
    assert(arrow@ == seq!['=', '>']);
    let n = pieces.len();
    if n == 0 {
        return None;
    }
    proof {
        assert(strings_view(pieces@).last() == pieces@[n - 1]@);
    }
    first_word(pieces[n - 1].as_str())
}

/// Parse output of `ldd` for finding shared object dependencies.
pub fn parse_ldd_output(output: &str) -> (r: Vec<String>)
    ensures
        strings_view(r@) == ldd_dependencies(spec_lines(output@)),
{
    let ls = lines(output);
    let ghost model = strings_view(ls@);
    let mut r: Vec<String> = Vec::new();
    let mut i: usize = 0;
    while i < ls.len()
        invariant
            i <= ls@.len(),
            model == strings_view(ls@),
            model == spec_lines(output@),
            strings_view(r@) == ldd_dependencies(model.subrange(0, i as int)),
        decreases ls@.len() - i,
    {
        let dep = line_dependency(ls[i].as_str());
        proof {
            assert(model.subrange(0, i + 1).drop_last() =~= model.subrange(0, i as int));
            assert(model.subrange(0, i + 1).last() == ls@[i as int]@);
        }
        match dep {
            Some(d) => {
                let ghost before = r@;
                r.push(d);
                proof {
                    assert(strings_view(r@) =~= strings_view(before).push(d@));
                }
            },
            None => {},
        }
        i = i + 1;
    }
    proof {
        assert(model.subrange(0, i as int) =~= model);
    }
    r
}

} // verus!
