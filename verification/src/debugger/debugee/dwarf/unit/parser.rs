//! The tree of debug information entries of a unit, built while the entries
//! are read in depth-first order: each entry comes with the change of depth
//! from the entry read before it, and its parent follows from that change.

use crate::debugger::dwarf::{path_push, pushed_path};
use crate::text::{split, spec_split, strings_view};
use vstd::prelude::*;

verus! {

/// Place of a debug information entry in the tree of its unit.
#[derive(Debug)]
pub struct Node {
    /// Index of the parent entry, `None` for an entry at the top.
    pub parent: Option<usize>,
    /// Indexes of the child entries, in the order they were read.
    pub children: Vec<usize>,
}

/// Every parent is read before its children.
pub open spec fn parents_precede(parents: Seq<Option<usize>>) -> bool {
    forall|i: int| 0 <= i < parents.len() ==> (#[trigger] parents[i] matches Some(p) ==> p < i)
}

/// The entries whose parent is `p`, in the order they were read.
pub open spec fn children_spec(parents: Seq<Option<usize>>, p: int) -> Seq<usize>
    decreases parents.len(),
{
    if parents.len() == 0 {
        Seq::empty()
    } else {
        let c = children_spec(parents.drop_last(), p);
        if parents.last() == Some(p as usize) {
            c.push((parents.len() - 1) as usize)
        } else {
            c
        }
    }
}

/// Depth of entry `i`: the number of its ancestors.
pub open spec fn depth(parents: Seq<Option<usize>>, i: int) -> nat
    decreases i,
{
    if 0 <= i < parents.len() {
        match parents[i] {
            None => 0,
            Some(p) => if 0 <= p < i {
                depth(parents, p as int) + 1
            } else {
                0
            },
        }
    } else {
        0
    }
}

/// The ancestor `k` levels above entry `i` (`i` itself for `k == 0`).
pub open spec fn ancestor(parents: Seq<Option<usize>>, i: int, k: nat) -> Option<int>
    decreases k,
{
    if k == 0 {
        Some(i)
    } else if 0 <= i < parents.len() {
        match parents[i] {
            None => None,
            Some(p) => if 0 <= p < i {
                ancestor(parents, p as int, (k - 1) as nat)
            } else {
                None
            },
        }
    } else {
        None
    }
}

/// The parent of an entry read after the last one with a change of depth
/// `delta`: the last entry itself for `delta == 1`, its parent for
/// `delta == 0`, and further up for a negative change.
pub open spec fn parent_for(parents: Seq<Option<usize>>, delta: int) -> Option<usize> {
    if parents.len() == 0 {
        None
    } else {
        match ancestor(parents, parents.len() - 1, (1 - delta) as nat) {
            Some(a) => Some(a as usize),
            None => None,
        }
    }
}

/// The ancestor `k` levels up exists exactly when the entry is at least `k`
/// deep, and it is `k` levels less deep.
pub proof fn lemma_ancestor_depth(parents: Seq<Option<usize>>, i: int, k: nat)
    requires
        parents_precede(parents),
        0 <= i < parents.len(),
    ensures
        (ancestor(parents, i, k) is Some) <==> k <= depth(parents, i),
        ancestor(parents, i, k) matches Some(a) ==> 0 <= a <= i && depth(parents, a) == depth(parents, i) - k,
    decreases k,
{
    if k > 0 {
        match parents[i] {
            None => {},
            Some(p) => {
                lemma_ancestor_depth(parents, p as int, (k - 1) as nat);
            },
        }
    }
}

/// Adding an entry leaves the depths and ancestors of the earlier entries unchanged.
proof fn lemma_push_keeps(parents: Seq<Option<usize>>, x: Option<usize>, i: int, k: nat)
    requires
        0 <= i < parents.len(),
    ensures
        depth(parents.push(x), i) == depth(parents, i),
        ancestor(parents.push(x), i, k) == ancestor(parents, i, k),
    decreases i + k,
{
    let q = parents.push(x);
    assert(q[i] == parents[i]);
    match parents[i] {
        None => {},
        Some(p) => {
            if 0 <= p < i {
                lemma_push_keeps(parents, x, p as int, 0);
                if k > 0 {
                    lemma_push_keeps(parents, x, p as int, (k - 1) as nat);
                }
            }
        },
    }
}

/// The entries of a unit as a tree.
pub struct DieTree {
    nodes: Vec<Node>,
}

impl DieTree {
    /// Parent of each entry, in the order the entries were read.
    pub closed spec fn parents(&self) -> Seq<Option<usize>> {
        self.nodes@.map_values(|n: Node| n.parent)
    }

    /// Children of entry `i`, as stored.
    pub closed spec fn children_of(&self, i: int) -> Seq<usize> {
        self.nodes@[i].children@
    }

    pub closed spec fn len_view(&self) -> nat {
        self.nodes@.len()
    }

    /// Parents precede their children and every entry lists exactly its children.
    pub open spec fn wf(&self) -> bool {
        &&& self.parents().len() == self.len_view()
        &&& parents_precede(self.parents())
        &&& forall|p: int| 0 <= p < self.len_view() ==> #[trigger] self.children_of(p) == children_spec(self.parents(), p)
    }

    /// An empty tree.
    pub fn new() -> (r: DieTree)
        ensures
            r.wf(),
            r.len_view() == 0,
    {
        let r = DieTree { nodes: Vec::new() };
        assert(r.parents() =~= Seq::empty());
        r
    }

    /// Number of entries.
    pub fn len(&self) -> (r: usize)
        ensures
            r == self.len_view(),
    {
        self.nodes.len()
    }

    /// Parent of entry `i`.
    pub fn parent(&self, i: usize) -> (r: Option<usize>)
        requires
            self.wf(),
            i < self.len_view(),
        ensures
            r == self.parents()[i as int],
    {
        self.nodes[i].parent
    }

    /// Node of entry `i`.
    pub fn node(&self, i: usize) -> (r: &Node)
        requires
            self.wf(),
            i < self.len_view(),
        ensures
            r.parent == self.parents()[i as int],
            r.children@ == children_spec(self.parents(), i as int),
    {
        assert(self.children_of(i as int) == children_spec(self.parents(), i as int));
        &self.nodes[i]
    }

    /// Add the entry read next, `delta` levels deeper than the entry read
    /// before it (`delta` is at most 1, the depth never becomes negative, and
    /// the first entry is not below the top), and return its index.
    pub fn push(&mut self, delta: isize) -> (idx: usize)
        requires
            old(self).wf(),
            old(self).len_view() < usize::MAX,
            delta <= 1,
            old(self).len_view() == 0 ==> delta >= 0,
            old(self).len_view() > 0 ==> depth(old(self).parents(), old(self).len_view() - 1) + delta >= 0,
        ensures
            final(self).wf(),
            idx == old(self).len_view(),
            final(self).parents() == old(self).parents().push(parent_for(old(self).parents(), delta as int)),
            old(self).len_view() > 0 ==> depth(final(self).parents(), idx as int) == depth(
                old(self).parents(),
                idx - 1,
            ) + delta,
            old(self).len_view() == 0 ==> depth(final(self).parents(), idx as int) == 0,
    {
        let idx = self.nodes.len();
        let ghost ps = self.parents();
        let parent: Option<usize> = if idx == 0 {
            None
        } else if delta == 1 {
            Some(idx - 1)
        } else {
            let mut cur: usize = idx - 1;
            let mut x: isize = delta;
            proof {
                lemma_ancestor_depth(ps, (idx - 1) as int, 0);
            }
            while x != 0
                invariant
                    self.wf(),
                    ps == self.parents(),
                    idx == self.len_view(),
                    idx > 0,
                    delta <= x <= 0,
                    cur < idx,
                    ancestor(ps, idx - 1, (x - delta) as nat) == Some(cur as int),
                    depth(ps, cur as int) == depth(ps, idx - 1) - (x - delta),
                    depth(ps, idx - 1) + delta >= 0,
                decreases 0 - x,
            {
                proof {
                    assert(ps[cur as int] == self.nodes@[cur as int].parent);
                    lemma_ancestor_depth(ps, (idx - 1) as int, (x - delta + 1) as nat);
                    lemma_ancestor_steps(ps, (idx - 1) as int, (x - delta) as nat);
                }
                let p = self.nodes[cur].parent;
                match p {
                    Some(pi) => {
                        cur = pi;
                    },
                    None => {
                        proof {
                            assert(false);
                        }
                    },
                }
                x = x + 1;
            }
            proof {
                assert(ps[cur as int] == self.nodes@[cur as int].parent);
                lemma_ancestor_steps(ps, (idx - 1) as int, (0 - delta) as nat);
            }
            self.nodes[cur].parent
        };
        proof {
            assert(parent == parent_for(ps, delta as int)) by {
                if idx > 0 && delta == 1 {
                    assert(ancestor(ps, idx - 1, 0) == Some(idx - 1));
                }
            }
        }
        let ghost old_nodes = self.nodes@;
        assert forall|q: int| 0 <= q < idx implies #[trigger] old_nodes[q].children@ == children_spec(ps, q) by {
            assert(self.children_of(q) == children_spec(ps, q));
        }
        match parent {
            Some(p) => {
                proof {
                    if delta == 1 {
                    } else {
                        lemma_ancestor_depth(ps, idx - 1, (1 - delta) as nat);
                    }
                }
                self.nodes[p].children.push(idx);
            },
            None => {},
        }
        self.nodes.push(Node { parent, children: Vec::new() });
        proof {
            let np = self.parents();
            assert(np =~= ps.push(parent));
            assert forall|i: int| 0 <= i < np.len() implies (#[trigger] np[i] matches Some(q) ==> q < i) by {
                if i < idx {
                    assert(np[i] == ps[i]);
                } else {
                    if delta != 1 && idx > 0 {
                        lemma_ancestor_depth(ps, idx - 1, (1 - delta) as nat);
                    }
                }
            }
            assert forall|q: int| 0 <= q < self.len_view() implies #[trigger] self.children_of(q) == children_spec(
                np,
                q,
            ) by {
                assert(np.drop_last() =~= ps);
                assert(np.last() == parent);
                assert(children_spec(np, q) == (if parent == Some(q as usize) {
                    children_spec(ps, q).push(idx)
                } else {
                    children_spec(ps, q)
                }));
                if q < idx {
                    assert(old_nodes[q].children@ == children_spec(ps, q));
                } else {
                    lemma_children_before(ps, q);
                }
            }
            if idx > 0 {
                lemma_push_keeps(ps, parent, idx - 1, 0);
                match parent {
                    None => {
                        lemma_ancestor_depth(ps, idx - 1, (1 - delta) as nat);
                    },
                    Some(p) => {
                        if delta == 1 {
                        } else {
                            lemma_ancestor_depth(ps, idx - 1, (1 - delta) as nat);
                        }
                        lemma_push_keeps(ps, parent, p as int, 0);
                    },
                }
            }
        }
        idx
    }
}

/// Kind of an entry, as the search for the blocks that enclose an entry sees
/// it.
#[derive(Debug, Clone, Copy, PartialEq, Eq, Structural)]
pub enum BlockKind {
    Function,
    LexicalBlock,
    Other,
}

/// The closest function among entry `i` and its ancestors.
pub open spec fn enclosing_function(parents: Seq<Option<usize>>, kinds: Seq<BlockKind>, i: int) -> Option<int>
    decreases i,
{
    if 0 <= i < parents.len() && i < kinds.len() {
        if kinds[i] == BlockKind::Function {
            Some(i)
        } else {
            match parents[i] {
                None => None,
                Some(p) => if 0 <= p < i {
                    enclosing_function(parents, kinds, p as int)
                } else {
                    None
                },
            }
        }
    } else {
        None
    }
}

/// The closest lexical block among entry `i` and its ancestors that is not
/// above the closest function.
pub open spec fn enclosing_lexical_block(parents: Seq<Option<usize>>, kinds: Seq<BlockKind>, i: int) -> Option<int>
    decreases i,
{
    if 0 <= i < parents.len() && i < kinds.len() {
        if kinds[i] == BlockKind::LexicalBlock {
            Some(i)
        } else if kinds[i] == BlockKind::Function {
            None
        } else {
            match parents[i] {
                None => None,
                Some(p) => if 0 <= p < i {
                    enclosing_lexical_block(parents, kinds, p as int)
                } else {
                    None
                },
            }
        }
    } else {
        None
    }
}

/// Blocks that enclose an entry whose parent is `parent` (see
/// [`enclosing_lexical_block`] and [`enclosing_function`]).
pub open spec fn enclosing_blocks(parents: Seq<Option<usize>>, kinds: Seq<BlockKind>, parent: Option<usize>) -> (
    Option<int>,
    Option<int>,
) {
    match parent {
        None => (None, None),
        Some(p) => (enclosing_lexical_block(parents, kinds, p as int), enclosing_function(parents, kinds, p as int)),
    }
}

/// Blocks that enclose an entry whose parent is `parent`: the closest
/// lexical block below the closest function, and the closest function (the
/// block of a variable, and the function of a variable or a parameter).
///
/// # Arguments
///
/// * `tree`: the entries read so far
/// * `kinds`: for each entry, whether it is a function or a lexical block
/// * `parent`: parent of the entry
pub fn enclosing_blocks_of(tree: &DieTree, kinds: &[BlockKind], parent: Option<usize>) -> (r: (Option<usize>, Option<usize>))
    requires
        tree.wf(),
        kinds.len() == tree.len_view(),
        parent matches Some(p) ==> p < tree.len_view(),
    ensures
        (match r.0 {
            Some(b) => Some(b as int),
            None => None,
        }) == enclosing_blocks(tree.parents(), kinds@, parent).0,
        (match r.1 {
            Some(f) => Some(f as int),
            None => None,
        }) == enclosing_blocks(tree.parents(), kinds@, parent).1,
{
    let ghost ps = tree.parents();
    let mut lexical: Option<usize> = None;
    let mut function: Option<usize> = None;
    let mut cur: Option<usize> = parent;
    while cur.is_some()
        invariant_except_break
            function is None,
            enclosing_blocks(ps, kinds@, parent).1 == match cur {
                Some(c) => enclosing_function(ps, kinds@, c as int),
                None => None,
            },
            enclosing_blocks(ps, kinds@, parent).0 == match lexical {
                Some(b) => Some(b as int),
                None => match cur {
                    Some(c) => enclosing_lexical_block(ps, kinds@, c as int),
                    None => None,
                },
            },
        invariant
            tree.wf(),
            ps == tree.parents(),
            kinds.len() == tree.len_view(),
            cur matches Some(c) ==> c < tree.len_view(),
        ensures
            function is None ==> enclosing_blocks(ps, kinds@, parent).1 is None,
            function matches Some(f) ==> enclosing_blocks(ps, kinds@, parent).1 == Some(f as int),
            enclosing_blocks(ps, kinds@, parent).0 == match lexical {
                Some(b) => Some(b as int),
                None => None,
            },
        decreases match cur {
            Some(c) => c + 1,
            None => 0,
        },
    {
        let c = match cur {
            Some(c) => c,
            None => {
                break;
            },
        };
        proof {
            assert(ps[c as int] == tree.parents()[c as int]);
        }
        if kinds[c] == BlockKind::Function {
            function = Some(c);
            break;
        }
        if kinds[c] == BlockKind::LexicalBlock && lexical.is_none() {
            lexical = Some(c);
        }
        cur = tree.parent(c);
    }
    (lexical, function)
}

/// Parts of a path between separators, without empty parts and `.`: the
/// normal components of a path that begins with a separator.
pub open spec fn normal_parts(parts: Seq<Seq<char>>) -> Seq<Seq<char>>
    decreases parts.len(),
{
    if parts.len() == 0 {
        Seq::empty()
    } else {
        let rest = normal_parts(parts.drop_last());
        let p = parts.last();
        if p.len() == 0 || p == seq!['.'] {
            rest
        } else {
            rest.push(p)
        }
    }
}

/// Normal components of a path that begins with a separator.
pub open spec fn path_components(path: Seq<char>) -> Seq<Seq<char>> {
    normal_parts(spec_split(path, seq!['/']))
}

/// Whether a path lies under `/rustc`, where the sources of the standard
/// library are said to be: it begins with a separator and its first component
/// is `rustc`.
pub open spec fn under_rustc(path: Seq<char>) -> bool {
    &&& path.len() > 0
    &&& path[0] == '/'
    &&& path_components(path).len() > 0
    &&& path_components(path)[0] == seq!['r', 'u', 's', 't', 'c']
}

/// A path with each of `parts` pushed at its end, in order.
pub open spec fn push_all(path: Seq<char>, parts: Seq<Seq<char>>) -> Seq<char>
    decreases parts.len(),
{
    if parts.len() == 0 {
        path
    } else {
        pushed_path(push_all(path, parts.drop_last()), parts.last())
    }
}

/// Path of a source file of a unit: the unit's compilation directory, then
/// the file's directory (for a directory other than the first), then the
/// file's name; a directory under `/rustc/<hash>` is moved to the sources of
/// the standard library, when their place is known.
pub open spec fn file_path_of(
    comp_dir: Option<Seq<char>>,
    directory: Option<Seq<char>>,
    file_name: Seq<char>,
    std_lib_path: Option<Seq<char>>,
) -> Seq<char> {
    let base = match comp_dir {
        Some(d) => d,
        None => Seq::empty(),
    };
    let dir = match directory {
        Some(d) => pushed_path(base, d),
        None => base,
    };
    let moved = match std_lib_path {
        Some(std) => if under_rustc(dir) {
            let c = path_components(dir);
            push_all(std, c.subrange(if c.len() < 2 {
                c.len() as int
            } else {
                2
            }, c.len() as int))
        } else {
            dir
        },
        None => dir,
    };
    pushed_path(moved, file_name)
}

/// Normal parts of a path split at its separators.
fn normal_parts_of(parts: &Vec<String>) -> (r: Vec<String>)
    ensures
        strings_view(r@) == normal_parts(strings_view(parts@)),
{
    let mut r: Vec<String> = Vec::new();
    let mut i: usize = 0;
    while i < parts.len()
        invariant
            i <= parts.len(),
            strings_view(r@) == normal_parts(strings_view(parts@.subrange(0, i as int))),
        decreases parts.len() - i,
    {
        let p = &parts[i];
        let ghost before = r@;
        proof {
            assert(strings_view(parts@.subrange(0, i + 1)).drop_last() =~= strings_view(parts@.subrange(0, i as int)));
            assert(strings_view(parts@.subrange(0, i + 1)).last() == p@);
            reveal_strlit(".");
        }
        let skip = p.as_str().unicode_len() == 0 || crate::text::str_eq(p.as_str(), ".");
        if !skip {
            r.push(crate::text::copy_string(p));
            proof {
                reveal_strlit(".");
                assert("."@ =~= seq!['.']);
                assert(!(p@.len() == 0 || p@ == seq!['.']));
                assert(strings_view(r@) =~= strings_view(before).push(p@));
            }
        } else {
            proof {
                reveal_strlit(".");
                assert("."@ =~= seq!['.']);
                assert(p@.len() == 0 || p@ == seq!['.']);
            }
        }
        i = i + 1;
    }
    proof {
        assert(parts@.subrange(0, i as int) =~= parts@);
    }
    r
}

/// Path of a source file of a unit (see [`file_path_of`]).
///
/// # Arguments
///
/// * `comp_dir`: compilation directory of the unit, if it has one
/// * `directory`: directory of the file, when its index is not zero
/// * `file_name`: path name of the file
/// * `std_lib_path`: where the sources of the standard library are, if known
pub fn render_file_path(comp_dir: Option<&str>, directory: Option<&str>, file_name: &str, std_lib_path: Option<&str>) -> (r:
    String)
    ensures
        r@ == file_path_of(
            match comp_dir {
                Some(d) => Some(d@),
                None => None,
            },
            match directory {
                Some(d) => Some(d@),
                None => None,
            },
            file_name@,
            match std_lib_path {
                Some(p) => Some(p@),
                None => None,
            },
        ),
{
    let mut path = match comp_dir {
        Some(d) => String::from_str(d),
        None => String::new(),
    };
    if let Some(d) = directory {
        path_push(&mut path, d);
    }
    let ghost dir = path@;
    if let Some(std) = std_lib_path {
        let starts_at_root = path.as_str().unicode_len() > 0 && path.as_str().get_char(0) == '/';
        if starts_at_root {
            proof {
                reveal_strlit("/");
                reveal_strlit("rustc");
            }
            let parts = split(path.as_str(), "/");
            let comps = normal_parts_of(&parts);
            proof {
                assert("/"@ == seq!['/']);
                assert(strings_view(comps@) == path_components(dir));
            }
            let is_rustc = comps.len() > 0 && crate::text::str_eq(comps[0].as_str(), "rustc");
            proof {
                assert("rustc"@ == seq!['r', 'u', 's', 't', 'c']);
                if comps.len() > 0 {
                    assert(strings_view(comps@)[0] == comps@[0]@);
                }
                assert(is_rustc == under_rustc(dir));
            }
            if is_rustc {
                let mut new_path = String::from_str(std);
                let mut k: usize = if comps.len() < 2 {
                    comps.len()
                } else {
                    2
                };
                let ghost from = k as int;
                proof {
                    assert(strings_view(comps@).subrange(from, from) =~= Seq::<Seq<char>>::empty());
                }
                while k < comps.len()
                    invariant
                        0 <= from <= k <= comps.len(),
                        new_path@ == push_all(std@, strings_view(comps@).subrange(from, k as int)),
                    decreases comps.len() - k,
                {
                    proof {
                        let sub = strings_view(comps@).subrange(from, k + 1);
                        assert(sub.drop_last() =~= strings_view(comps@).subrange(from, k as int));
                        assert(sub.last() == comps@[k as int]@);
                    }
                    path_push(&mut new_path, comps[k].as_str());
                    k = k + 1;
                }
                proof {
                    assert(new_path@ == push_all(std@, path_components(dir).subrange(from, path_components(dir).len() as int)));
                }
                path = new_path;
            }
        }
    }
    path_push(&mut path, file_name);
    path
}

/// One more step up from an ancestor is the parent of that ancestor.
proof fn lemma_ancestor_steps(parents: Seq<Option<usize>>, i: int, k: nat)
    requires
        parents_precede(parents),
        0 <= i < parents.len(),
        ancestor(parents, i, k) is Some,
    ensures
        ({
            let a = ancestor(parents, i, k)->Some_0;
            ancestor(parents, i, k + 1) == match parents[a] {
                None => None::<int>,
                Some(p) => Some(p as int),
            }
        }),
    decreases k,
{
    lemma_ancestor_depth(parents, i, k);
    if k == 0 {
        match parents[i] {
            None => {},
            Some(p) => {
                assert(ancestor(parents, p as int, 0) == Some(p as int));
            },
        }
    } else {
        match parents[i] {
            None => {},
            Some(p) => {
                lemma_ancestor_steps(parents, p as int, (k - 1) as nat);
            },
        }
    }
}

/// No entry lists itself or a later entry as its child.
proof fn lemma_children_before(parents: Seq<Option<usize>>, q: int)
    requires
        parents_precede(parents),
        q + 1 >= parents.len(),
        0 <= q <= usize::MAX,
    ensures
        children_spec(parents, q) == Seq::<usize>::empty(),
    decreases parents.len(),
{
    if parents.len() > 0 {
        let d = parents.drop_last();
        assert forall|i: int| 0 <= i < d.len() implies (#[trigger] d[i] matches Some(p) ==> p < i) by {
            assert(d[i] == parents[i]);
        }
        assert(parents[parents.len() - 1] == parents.last());
        lemma_children_before(d, q);
    }
}

} // verus!
