//! Debug information of an object file: its units, looked up by address, and
//! the namespaces of program entities.

use crate::text::{as_strs, copy_strings, join, spec_join, spec_split, split, str_eq, strings_view, strs_to_strings, strs_view};
use crate::debugger::debugee::dwarf::unit::parser::{parents_precede, DieTree};
use crate::debugger::debugee::dwarf::unit::{
    closest_lines, closest_places_in_files, die_ranges_sorted, file_pairs, files_model, first_places, key_view,
    lines_of_file, pairs_model,
    pos_for_pc, unique_function_places, BsUnit, FunctionKey, LineRow, PlaceDescriptor, Range,
};
use crate::debugger::debugee::dwarf::unit::lazy::{spec_function_key, UnitLazyPart};
use crate::debugger::debugee::dwarf::utils::{select, spec_get, EntryModel, PathSearchIndex};
use vstd::prelude::*;

pub mod eval;
pub mod symbol;
pub mod types;
pub mod unit;
pub mod unwind;
pub mod utils;

verus! {

/// Names of entries, an entry without a name having the empty one.
pub open spec fn names_model(names: Seq<Option<String>>) -> Seq<Seq<char>> {
    names.map_values(|n: Option<String>| match n {
        Some(s) => s@,
        None => Seq::<char>::empty(),
    })
}

/// Names of the namespaces that enclose entry `i` directly, outermost first.
pub open spec fn ns_chain(parents: Seq<Option<usize>>, is_namespace: Seq<bool>, names: Seq<Seq<char>>, i: int) -> Seq<Seq<char>>
    decreases i,
{
    if 0 <= i < parents.len() {
        match parents[i] {
            Some(p) => if p < i && is_namespace[p as int] {
                ns_chain(parents, is_namespace, names, p as int).push(names[p as int])
            } else {
                Seq::empty()
            },
            None => Seq::empty(),
        }
    } else {
        Seq::empty()
    }
}

/// What `rustc_demangle::demangle` displays, in its alternate form (without
/// the trailing hash), for a symbol name.
pub uninterp spec fn spec_demangle_alternate(name: Seq<char>) -> Seq<char>;

/// Calls `rustc_demangle::demangle` and renders the result with `{:#}`.
/// The contract only names the rendered text: the demangling rules are those
/// of the rustc_demangle crate.
#[verifier::external_body]
fn demangle_alternate(name: &str) -> (r: String)
    ensures
        r@ == spec_demangle_alternate(name@),
{
    format!("{:#}", rustc_demangle::demangle(name))
}

/// Namespace of a program entity: the sequence of enclosing namespace names.
pub struct NamespaceHierarchy(Vec<String>);

impl View for NamespaceHierarchy {
    type V = Seq<Seq<char>>;

    closed spec fn view(&self) -> Seq<Seq<char>> {
        strings_view(self.0@)
    }
}

/// True when `needle` is a contiguous part of `ns`.
pub open spec fn ns_contains(ns: Seq<Seq<char>>, needle: Seq<Seq<char>>) -> bool {
    exists|i: int| 0 <= i && i + needle.len() <= ns.len() && #[trigger] ns.subrange(i, i + needle.len()) == needle
}

/// The namespace and the name that a demangled path `a::b::name` denotes.
pub open spec fn spec_namespace_and_name(demangled: Seq<char>) -> (Seq<Seq<char>>, Seq<char>) {
    let parts = spec_split(demangled, seq![':', ':']);
    (parts.drop_last(), parts.last())
}

impl NamespaceHierarchy {
    /// Namespace made of the given parts.
    pub fn new(parts: &[&str]) -> (r: Self)
        ensures
            r@ == strs_view(parts@),
    {
        NamespaceHierarchy(strs_to_strings(parts))
    }

    /// Namespace made of the given owned parts.
    pub fn from_parts(parts: Vec<String>) -> (r: Self)
        ensures
            r@ == strings_view(parts@),
    {
        NamespaceHierarchy(parts)
    }

    /// Namespace without parts.
    pub fn empty() -> (r: Self)
        ensures
            r@ == Seq::<Seq<char>>::empty(),
    {
        let r = NamespaceHierarchy(Vec::new());
        assert(r@ =~= Seq::<Seq<char>>::empty());
        r
    }

    /// A copy of this namespace.
    pub fn clone_hierarchy(&self) -> (r: Self)
        ensures
            r@ == self@,
    {
        NamespaceHierarchy(copy_strings(&self.0))
    }

    /// Create namespace for an entry of a unit: the names of the namespaces
    /// that enclose it directly, outermost first (a namespace without a name
    /// gives an empty part).
    ///
    /// # Arguments
    ///
    /// * `tree`: the entries of the unit
    /// * `is_namespace`: for each entry, whether it is a namespace
    /// * `names`: for each entry, its name
    /// * `die_idx`: the entry
    pub fn for_die(tree: &DieTree, is_namespace: &[bool], names: &[Option<String>], die_idx: usize) -> (r: Self)
        requires
            tree.wf(),
            die_idx < tree.len_view(),
            is_namespace@.len() == tree.len_view(),
            names@.len() == tree.len_view(),
        ensures
            r@ == ns_chain(tree.parents(), is_namespace@, names_model(names@), die_idx as int),
    {
        let ghost ps = tree.parents();
        let ghost nm = names_model(names@);
        let mut chain: Vec<String> = Vec::new();
        let mut cur: usize = die_idx;
        let mut walking = true;
        while walking
            invariant
                tree.wf(),
                ps == tree.parents(),
                nm == names_model(names@),
                cur < tree.len_view(),
                is_namespace@.len() == tree.len_view(),
                names@.len() == tree.len_view(),
                walking ==> ns_chain(ps, is_namespace@, nm, die_idx as int) == ns_chain(ps, is_namespace@, nm, cur as int)
                    + strings_view(chain@).reverse(),
                !walking ==> ns_chain(ps, is_namespace@, nm, die_idx as int) == strings_view(chain@).reverse(),
            decreases cur + (if walking { 1int } else { 0int }),
        {
            match tree.parent(cur) {
                Some(p) if is_namespace[p] => {
                    proof {
                        assert(parents_precede(ps));
                        assert(ps[cur as int] == Some(p));
                    }
                    let name = match &names[p] {
                        Some(n) => crate::text::copy_string(n),
                        None => String::new(),
                    };
                    let ghost before = strings_view(chain@);
                    chain.push(name);
                    proof {
                        assert(name@ == nm[p as int]);
                        assert(strings_view(chain@) =~= before.push(nm[p as int]));
                        assert(strings_view(chain@).reverse() =~= seq![nm[p as int]] + before.reverse());
                        assert(ns_chain(ps, is_namespace@, nm, cur as int) == ns_chain(ps, is_namespace@, nm, p as int).push(
                            nm[p as int],
                        ));
                        assert(ns_chain(ps, is_namespace@, nm, p as int).push(nm[p as int]) + before.reverse() =~= ns_chain(
                            ps,
                            is_namespace@,
                            nm,
                            p as int,
                        ) + strings_view(chain@).reverse());
                    }
                    cur = p;
                },
                _ => {
                    proof {
                        assert(ns_chain(ps, is_namespace@, nm, cur as int) == Seq::<Seq<char>>::empty());
                        assert(Seq::<Seq<char>>::empty() + strings_view(chain@).reverse() =~= strings_view(chain@).reverse());
                    }
                    walking = false;
                },
            }
        }
        let mut parts: Vec<String> = Vec::new();
        let mut k: usize = chain.len();
        while k > 0
            invariant
                k <= chain@.len(),
                strings_view(parts@) == strings_view(chain@).reverse().take(chain@.len() - k),
            decreases k,
        {
            let ghost before = strings_view(parts@);
            parts.push(crate::text::copy_string(&chain[k - 1]));
            proof {
                assert(strings_view(parts@) =~= before.push(chain@[k - 1]@));
                assert(strings_view(chain@).reverse().take(chain@.len() - k + 1) =~= strings_view(chain@).reverse().take(
                    chain@.len() - k,
                ).push(chain@[k - 1]@));
            }
            k = k - 1;
        }
        proof {
            assert(strings_view(chain@).reverse().take(chain@.len() as int) =~= strings_view(chain@).reverse());
        }
        NamespaceHierarchy(parts)
    }

    /// Namespace parts.
    pub fn as_parts(&self) -> (r: Vec<String>)
        ensures
            strings_view(r@) == self@,
    {
        copy_strings(&self.0)
    }

    /// Whether the namespace has no parts.
    pub fn is_empty(&self) -> (r: bool)
        ensures
            r == (self@.len() == 0),
    {
        self.0.len() == 0
    }

    /// Namespace parts joined with a separator.
    pub fn join(&self, sep: &str) -> (r: String)
        ensures
            r@ == spec_join(self@, sep@),
    {
        join(&self.0, sep)
    }

    /// Return `true` if namespace part contains in target namespace, `false` otherwise.
    ///
    /// # Arguments
    ///
    /// * `needle`: searched part of the namespace, at least one part
    pub fn contains(&self, needle: &[&str]) -> (r: bool)
        requires
            needle@.len() > 0,
        ensures
            r == ns_contains(self@, strs_view(needle@)),
    {
        let n = self.0.len();
        let m = needle.len();
        let ghost nv = strs_view(needle@);
        if m > n {
            proof {
                assert forall|i: int|
                    0 <= i && i + nv.len() <= self@.len() implies #[trigger] self@.subrange(i, i + nv.len())
                    != nv by {}
            }
            return false;
        }
        let mut i: usize = 0;
        while i <= n - m
            invariant
                n == self.0@.len(),
                m == needle@.len(),
                nv == strs_view(needle@),
                m <= n,
                i <= n - m + 1,
                forall|j: int| 0 <= j < i ==> #[trigger] self@.subrange(j, j + m) != nv,
            decreases n - m + 1 - i,
        {
            let mut k: usize = 0;
            let mut same = true;
            while k < m
                invariant
                    n == self.0@.len(),
                    m == needle@.len(),
                    m <= n,
                    i <= n - m,
                    k <= m,
                    same <==> forall|t: int| 0 <= t < k ==> self.0@[i + t]@ == needle@[t]@,
                decreases m - k,
            {
                if !str_eq(self.0[i + k].as_str(), needle[k]) {
                    same = false;
                }
                k = k + 1;
            }
            if same {
                proof {
                    assert(self@.subrange(i as int, i + m) =~= nv);
                }
                return true;
            }
            proof {
                let t = choose|t: int| 0 <= t < m && self.0@[i + t]@ != needle@[t]@;
                assert(self@.subrange(i as int, i + m)[t] != nv[t]);
            }
            i = i + 1;
        }
        proof {
            assert forall|j: int|
                0 <= j && j + nv.len() <= self@.len() implies #[trigger] self@.subrange(j, j + nv.len()) != nv by {
                assert(j < i);
            }
        }
        false
    }

    /// Return (namespace, subroutine name) pair from a demangled path.
    ///
    /// # Arguments
    ///
    /// * `demangled`: demangled subroutine path
    pub fn from_demangled(demangled: &str) -> (r: (Self, String))
        ensures
            r.0@ == spec_namespace_and_name(demangled@).0,
            r.1@ == spec_namespace_and_name(demangled@).1,
    {
        let sep = "::";
        proof {
            reveal_strlit("::");
        }
        let mut parts = split(demangled, sep);
        assert(sep@ == seq![':', ':']);
        let ghost all = strings_view(parts@);
        proof {
            lemma_split_not_empty(demangled@, seq![':', ':']);
        }
        let fn_name = match parts.pop() {
            Some(n) => n,
            None => {
                proof {
                    assert(false);
                }
                String::new()
            },
        };
        proof {
            assert(strings_view(parts@) =~= all.drop_last());
        }
        (NamespaceHierarchy(parts), fn_name)
    }

    /// Return (namespace, subroutine name) pair from mangled representation.
    ///
    /// # Arguments
    ///
    /// * `linkage_name`: mangled subroutine name
    pub fn from_mangled(linkage_name: &str) -> (r: (Self, String))
        ensures
            r.0@ == spec_namespace_and_name(spec_demangle_alternate(linkage_name@)).0,
            r.1@ == spec_namespace_and_name(spec_demangle_alternate(linkage_name@)).1,
    {
        let demangled = demangle_alternate(linkage_name);
        Self::from_demangled(demangled.as_str())
    }
}

/// Splitting always yields at least one piece.
pub proof fn lemma_split_not_empty(s: Seq<char>, d: Seq<char>)
    ensures
        spec_split(s, d).len() >= 1,
{
    if d.len() > 0 {
        lemma_split_scan_not_empty(s, d, 0, 0);
    }
}

proof fn lemma_split_scan_not_empty(s: Seq<char>, d: Seq<char>, start: int, i: int)
    ensures
        crate::text::split_scan(s, d, start, i).len() >= 1,
    decreases s.len() - i,
{
    if d.len() == 0 || i < 0 || i + d.len() > s.len() {
    } else if s.subrange(i, i + d.len()) == d {
        lemma_split_scan_not_empty(s, d, i + d.len(), i + d.len());
    } else {
        lemma_split_scan_not_empty(s, d, start, i + 1);
    }
}

/// A unit covers an address: one of its ranges begins at it or contains it.
pub open spec fn unit_covers(ranges: Seq<Range>, pc: u64) -> bool {
    exists|i: int| 0 <= i < ranges.len() && ((#[trigger] ranges[i]).begin == pc || (ranges[i].begin <= pc < ranges[i].end))
}

/// Position of the first unit that covers an address.
pub open spec fn unit_for_pc(units: Seq<BsUnit>, pc: u64) -> Option<int>
    decreases units.len(),
{
    if units.len() == 0 {
        None
    } else {
        match unit_for_pc(units.drop_last(), pc) {
            Some(i) => Some(i),
            None => if unit_covers(units.last().ranges_view(), pc) {
                Some(units.len() - 1)
            } else {
                None
            },
        }
    }
}

/// Whether the ranges of a unit cover an address.
fn covers(ranges: &Vec<Range>, pc: u64) -> (r: bool)
    ensures
        r == unit_covers(ranges@, pc),
{
    let mut i: usize = 0;
    while i < ranges.len()
        invariant
            i <= ranges@.len(),
            forall|k: int| 0 <= k < i ==> !((#[trigger] ranges@[k]).begin == pc || (ranges@[k].begin <= pc < ranges@[k].end)),
        decreases ranges@.len() - i,
    {
        let r = ranges[i];
        if r.begin == pc || (r.begin <= pc && pc < r.end) {
            return true;
        }
        i = i + 1;
    }
    false
}

/// Return the unit that covers an address: the first one whose ranges
/// cover it.
pub fn find_unit_by_pc(units: &[BsUnit], pc: u64) -> (r: Option<usize>)
    ensures
        r == match unit_for_pc(units@, pc) {
            Some(i) => Some(i as usize),
            None => None::<usize>,
        },
        r matches Some(i) ==> i < units@.len(),
        unit_for_pc(units@, pc) matches Some(i) ==> 0 <= i < units@.len(),
{
    proof {
        lemma_unit_for_pc_range(units@, pc);
    }
    let mut i: usize = 0;
    while i < units.len()
        invariant
            i <= units@.len(),
            unit_for_pc(units@.take(i as int), pc) is None,
        decreases units@.len() - i,
    {
        proof {
            assert(units@.take(i + 1).drop_last() =~= units@.take(i as int));
        }
        if covers(units[i].ranges(), pc) {
            proof {
                lemma_unit_for_pc_prefix(units@, i as int, pc);
            }
            return Some(i);
        }
        i = i + 1;
    }
    proof {
        assert(units@.take(i as int) =~= units@);
    }
    None
}

/// The unit found for an address is one of the units.
proof fn lemma_unit_for_pc_range(units: Seq<BsUnit>, pc: u64)
    ensures
        unit_for_pc(units, pc) matches Some(i) ==> 0 <= i < units.len(),
    decreases units.len(),
{
    if units.len() > 0 {
        lemma_unit_for_pc_range(units.drop_last(), pc);
    }
}

/// A unit that covers an address, with no unit covering it before, is the first one.
proof fn lemma_unit_for_pc_prefix(units: Seq<BsUnit>, i: int, pc: u64)
    requires
        0 <= i < units.len(),
        unit_for_pc(units.take(i), pc) is None,
        unit_covers(units[i].ranges_view(), pc),
    ensures
        unit_for_pc(units, pc) == Some(i),
    decreases units.len(),
{
    if units.len() == i + 1 {
        assert(units.drop_last() =~= units.take(i));
    } else {
        assert(units.drop_last().take(i) =~= units.take(i));
        lemma_unit_for_pc_prefix(units.drop_last(), i, pc);
    }
}

/// Returns best matched place by program counter: the place found by the
/// unit that covers it (see [`BsUnit::find_place_by_pc`]).
pub fn find_place_from_pc<'u>(units: &'u [BsUnit], pc: u64) -> (r: Option<PlaceDescriptor<'u>>)
    requires
        forall|i: int| 0 <= i < units@.len() ==> (#[trigger] units@[i]).wf(),
    ensures
        match unit_for_pc(units@, pc) {
            None => r is None,
            Some(i) => if units@[i].lines_view().len() == 0 {
                r is None
            } else {
                r matches Some(p) && p.describes(units@[i], pos_for_pc(units@[i].lines_view(), pc))
            },
        },
{
    match find_unit_by_pc(units, pc) {
        None => None,
        Some(i) => units[i].find_place_by_pc(pc),
    }
}

/// Returns place with line address equals to program counter: the first such
/// line of the unit that covers it.
pub fn find_exact_place_from_pc<'u>(units: &'u [BsUnit], pc: u64) -> (r: Option<PlaceDescriptor<'u>>)
    requires
        forall|i: int| 0 <= i < units@.len() ==> (#[trigger] units@[i]).wf(),
    ensures
        match unit_for_pc(units@, pc) {
            None => r is None,
            Some(i) => match r {
                Some(p) => {
                    &&& p.describes(units@[i], p.pos_in_unit as int)
                    &&& p.address == pc
                    &&& forall|k: int| 0 <= k < p.pos_in_unit ==> #[trigger] units@[i].lines_view()[k].address != pc
                },
                None => forall|k: int|
                    0 <= k < units@[i].lines_view().len() ==> #[trigger] units@[i].lines_view()[k].address != pc,
            },
        },
{
    match find_unit_by_pc(units, pc) {
        None => None,
        Some(i) => units[i].find_exact_place_by_pc(pc),
    }
}

/// Lowest first-range beginning over the units that have ranges.
pub open spec fn units_begin(units: Seq<BsUnit>) -> Option<u64>
    decreases units.len(),
{
    if units.len() == 0 {
        None
    } else {
        let prev = units_begin(units.drop_last());
        let rs = units.last().ranges_view();
        if rs.len() == 0 {
            prev
        } else {
            match prev {
                None => Some(rs[0].begin),
                Some(b) => Some(if rs[0].begin < b {
                    rs[0].begin
                } else {
                    b
                }),
            }
        }
    }
}

/// Highest of `floor` and the ends of all ranges of the units.
pub open spec fn units_end(units: Seq<BsUnit>, floor: u64) -> u64
    decreases units.len(),
{
    if units.len() == 0 {
        floor
    } else {
        max_end(units.last().ranges_view(), units_end(units.drop_last(), floor))
    }
}

/// Highest of `floor` and the ends of the ranges.
pub open spec fn max_end(ranges: Seq<Range>, floor: u64) -> u64
    decreases ranges.len(),
{
    if ranges.len() == 0 {
        floor
    } else {
        let e = max_end(ranges.drop_last(), floor);
        if ranges.last().end > e {
            ranges.last().end
        } else {
            e
        }
    }
}

/// Return the maximum and minimum address from the collection of unit
/// ranges: from the lowest beginning of a unit's first range to the highest
/// end of a range (not below that beginning); `None` when no unit has ranges.
pub fn range(units: &[BsUnit]) -> (r: Option<Range>)
    ensures
        r == match units_begin(units@) {
            None => None::<Range>,
            Some(b) => Some(Range { begin: b, end: units_end(units@, b) }),
        },
{
    let mut begin: Option<u64> = None;
    let mut i: usize = 0;
    while i < units.len()
        invariant
            i <= units@.len(),
            begin == units_begin(units@.take(i as int)),
        decreases units@.len() - i,
    {
        proof {
            assert(units@.take(i + 1).drop_last() =~= units@.take(i as int));
        }
        let rs = units[i].ranges();
        if rs.len() > 0 {
            let b = rs[0].begin;
            begin = match begin {
                None => Some(b),
                Some(x) => Some(if b < x {
                    b
                } else {
                    x
                }),
            };
        }
        i = i + 1;
    }
    proof {
        assert(units@.take(i as int) =~= units@);
    }
    let b = match begin {
        None => {
            return None;
        },
        Some(b) => b,
    };
    let mut end: u64 = b;
    let mut j: usize = 0;
    while j < units.len()
        invariant
            j <= units@.len(),
            end == units_end(units@.take(j as int), b),
        decreases units@.len() - j,
    {
        proof {
            assert(units@.take(j + 1).drop_last() =~= units@.take(j as int));
        }
        let rs = units[j].ranges();
        let ghost start = end;
        let mut k: usize = 0;
        while k < rs.len()
            invariant
                k <= rs@.len(),
                end == max_end(rs@.take(k as int), start),
            decreases rs@.len() - k,
        {
            proof {
                assert(rs@.take(k + 1).drop_last() =~= rs@.take(k as int));
            }
            if rs[k].end > end {
                end = rs[k].end;
            }
            k = k + 1;
        }
        proof {
            assert(rs@.take(k as int) =~= rs@);
        }
        j = j + 1;
    }
    proof {
        assert(units@.take(j as int) =~= units@);
    }
    Some(Range { begin: b, end })
}

/// Files of an index value list as pairs of a unit index and line indexes.
pub open spec fn values_model(values: Seq<(usize, Vec<usize>)>) -> Seq<(usize, Seq<usize>)> {
    values.map_values(|f: (usize, Vec<usize>)| (f.0, f.1@))
}

/// Every file of a files index refers to a unit and to lines of that unit.
pub open spec fn files_index_refers(units: Seq<BsUnit>, entries: Seq<EntryModel<(usize, Vec<usize>)>>) -> bool {
    forall|k: int|
        0 <= k < entries.len() ==> {
            &&& (#[trigger] entries[k]).2.0 < units.len()
            &&& forall|j: int| 0 <= j < entries[k].2.1@.len() ==> #[trigger] entries[k].2.1@[j]
                < units[entries[k].2.0 as int].lines_view().len()
        }
}

/// The function that the place of line `ul.1` of unit `ul.0` belongs to: in
/// the unit that covers its address, the function whose range contains it.
pub open spec fn place_key(units: Seq<BsUnit>, parts: Seq<UnitLazyPart>, ul: (int, int)) -> Option<
    (Option<Seq<char>>, Seq<Range>),
> {
    let pc = units[ul.0].lines_view()[ul.1].address;
    match unit_for_pc(units, pc) {
        Some(u) => spec_function_key(parts[u], pc),
        None => None,
    }
}

/// Each value that a query selects is the value of an indexed entry.
proof fn lemma_select_values<T>(entries: Seq<EntryModel<T>>, head: Seq<char>, tail: Seq<Seq<char>>)
    ensures
        forall|i: int|
            0 <= i < select(entries, head, tail).len() ==> exists|k: int|
                0 <= k < entries.len() && #[trigger] select(entries, head, tail)[i] == entries[k].2,
    decreases entries.len(),
{
    if entries.len() > 0 {
        lemma_select_values(entries.drop_last(), head, tail);
        let rest = select(entries.drop_last(), head, tail);
        assert forall|i: int| 0 <= i < select(entries, head, tail).len() implies exists|k: int|
            0 <= k < entries.len() && #[trigger] select(entries, head, tail)[i] == entries[k].2 by {
            if i < rest.len() {
                assert(select(entries, head, tail)[i] == rest[i]);
                let k = choose|k: int| 0 <= k < entries.drop_last().len() && rest[i] == entries.drop_last()[k].2;
                assert(entries[k] == entries.drop_last()[k]);
            } else {
                assert(select(entries, head, tail)[i] == entries[entries.len() - 1].2);
            }
        }
    }
}

/// Keeping the first place of each function keeps the same positions of two
/// lists that correspond item by item.
proof fn lemma_first_places_describe<'u>(
    places: Seq<PlaceDescriptor<'u>>,
    lines: Seq<(int, int)>,
    keys: Seq<Option<(Option<Seq<char>>, Seq<Range>)>>,
    units: Seq<BsUnit>,
)
    requires
        places.len() == lines.len(),
        forall|i: int| 0 <= i < places.len() ==> (#[trigger] places[i]).describes(units[lines[i].0], lines[i].1),
    ensures
        first_places(places, keys).len() == first_places(lines, keys).len(),
        forall|k: int|
            0 <= k < first_places(places, keys).len() ==> (#[trigger] first_places(places, keys)[k]).describes(
                units[first_places(lines, keys)[k].0],
                first_places(lines, keys)[k].1,
            ),
    decreases places.len(),
{
    if places.len() > 0 {
        lemma_first_places_describe(places.drop_last(), lines.drop_last(), keys, units);
        assert(places.drop_last().len() == lines.drop_last().len());
        assert forall|i: int| 0 <= i < places.drop_last().len() implies (#[trigger] places.drop_last()[i]).describes(
            units[lines.drop_last()[i].0],
            lines.drop_last()[i].1,
        ) by {
            assert(places.drop_last()[i] == places[i]);
            assert(lines.drop_last()[i] == lines[i]);
        }
        assert(places.last().describes(units[lines.last().0], lines.last().1)) by {
            assert(places.last() == places[places.len() - 1]);
        }
    }
}

/// Places closest to a line of the files that a path template selects: the
/// places for the line or, if there are none, for the line after it (see
/// [`closest_lines`]), only the first one of each function kept (see
/// [`first_places`]; a place in no known function is kept).
///
/// # Arguments
///
/// * `units`: the units, each at its index
/// * `parts`: the entries of each unit, read and finished
/// * `files_index`: the source files of the units, each with its unit and lines
/// * `file_tpl`: the path of a file, or its last parts
/// * `line`: the line
pub fn find_closest_place<'u>(
    units: &'u [BsUnit],
    parts: &[UnitLazyPart],
    files_index: &PathSearchIndex<(usize, Vec<usize>)>,
    file_tpl: &str,
    line: u64,
) -> (r: Vec<PlaceDescriptor<'u>>)
    requires
        line < u64::MAX,
        parts@.len() == units@.len(),
        forall|i: int| 0 <= i < units@.len() ==> (#[trigger] units@[i]).wf(),
        forall|i: int| 0 <= i < parts@.len() ==> (#[trigger] parts@[i]).wf() && die_ranges_sorted(parts@[i].die_ranges_view()),
        files_index_refers(units@, files_index.entries_view()),
    ensures
        ({
            let files = values_model(spec_get(files_index.entries_view(), files_index.delimiter_view(), file_tpl@));
            let lines = closest_lines(units@, files, line);
            let kept = first_places(lines, lines.map_values(|ul: (int, int)| place_key(units@, parts@, ul)));
            &&& r@.len() == kept.len()
            &&& forall|k: int| 0 <= k < r@.len() ==> (#[trigger] r@[k]).describes(units@[kept[k].0], kept[k].1)
        }),
{
    let files = files_index.get(file_tpl);
    let ghost sel = spec_get(files_index.entries_view(), files_index.delimiter_view(), file_tpl@);
    proof {
        let parts_q = spec_split(file_tpl@, files_index.delimiter_view());
        if parts_q.len() > 0 {
            lemma_select_values(files_index.entries_view(), parts_q.last(), parts_q.drop_last());
        }
        assert(files_model(files@) =~= values_model(sel));
        assert forall|i: int| 0 <= i < files@.len() implies {
            &&& (#[trigger] files@[i]).0 < units@.len()
            &&& forall|k: int| 0 <= k < files@[i].1@.len() ==> #[trigger] files@[i].1@[k]
                < units@[files@[i].0 as int].lines_view().len()
        } by {
            assert(*files@[i] == sel[i]);
            let e = choose|e: int| 0 <= e < files_index.entries_view().len() && sel[i] == files_index.entries_view()[e].2;
            assert(files_index.entries_view()[e].2.0 < units@.len());
        }
    }
    let places = closest_places_in_files(units, files.as_slice(), line);
    let ghost lines = closest_lines(units@, files_model(files@), line);
    let ghost keys_spec = lines.map_values(|ul: (int, int)| place_key(units@, parts@, ul));
    let mut keys: Vec<Option<FunctionKey>> = Vec::new();
    let mut k: usize = 0;
    while k < places.len()
        invariant
            k <= places@.len(),
            places@.len() == lines.len(),
            keys_spec.len() == lines.len(),
            keys_spec == lines.map_values(|ul: (int, int)| place_key(units@, parts@, ul)),
            forall|j: int| 0 <= j < places@.len() ==> (#[trigger] places@[j]).describes(units@[lines[j].0], lines[j].1),
            keys@.len() == k,
            forall|j: int| 0 <= j < k ==> key_view(#[trigger] keys@[j]) == keys_spec[j],
            parts@.len() == units@.len(),
            forall|i: int| 0 <= i < parts@.len() ==> (#[trigger] parts@[i]).wf() && die_ranges_sorted(parts@[i].die_ranges_view()),
        decreases places@.len() - k,
    {
        let pc = places[k].address;
        let key = match find_unit_by_pc(units, pc) {
            Some(u) => parts[u].function_key_at(pc),
            None => None,
        };
        proof {
            assert(places@[k as int].describes(units@[lines[k as int].0], lines[k as int].1));
            assert(key_view(key) == place_key(units@, parts@, lines[k as int]));
        }
        keys.push(key);
        k = k + 1;
    }
    let ghost all_places = places@;
    let r = unique_function_places(places, &keys);
    proof {
        assert(keys@.map_values(|kk: Option<FunctionKey>| key_view(kk)) =~= keys_spec);
        lemma_first_places_describe(all_places, lines, keys_spec, units@);
    }
    r
}

/// A unit with its offset in the debug information, apart from its index.
pub open spec fn unit_model(u: (u64, BsUnit)) -> (u64, Option<String>, Seq<Seq<char>>, Seq<LineRow>, Seq<Range>) {
    (u.0, u.1.name_view(), u.1.files_view(), u.1.lines_view(), u.1.ranges_view())
}

/// Models of units with their offsets.
pub open spec fn units_model(us: Seq<(u64, BsUnit)>) -> Seq<(u64, Option<String>, Seq<Seq<char>>, Seq<LineRow>, Seq<Range>)> {
    us.map_values(|u: (u64, BsUnit)| unit_model(u))
}

/// Offsets that never decrease.
pub open spec fn offsets_sorted(offsets: Seq<u64>) -> bool {
    forall|i: int, j: int| 0 <= i <= j < offsets.len() ==> offsets[i] <= offsets[j]
}

/// Path parts under which a source file is indexed: the file path split at `/`.
pub open spec fn file_key(path: Seq<char>) -> (Seq<Seq<char>>, Seq<char>) {
    (spec_split(path, seq!['/']).drop_last(), spec_split(path, seq!['/']).last())
}

/// An entry of a files index is file `f` of unit `u`: its path and the
/// indexes of the lines of that file.
pub open spec fn indexes_file(units: Seq<BsUnit>, e: EntryModel<(usize, Vec<usize>)>, u: int, f: int) -> bool {
    &&& e.2.0 == u
    &&& 0 <= u < units.len()
    &&& 0 <= f < units[u].files_view().len()
    &&& (e.0, e.1) == file_key(units[u].files_view()[f])
    &&& e.2.1@ == lines_of_file(units[u].lines_view(), f)
}

/// An entry of a files index is one of the files of its unit.
pub open spec fn indexes_some_file(units: Seq<BsUnit>, e: EntryModel<(usize, Vec<usize>)>) -> bool {
    exists|f: int| #[trigger] indexes_file(units, e, e.2.0 as int, f)
}

/// An entry of a files index is one of the files of unit `u`.
pub open spec fn indexes_file_of_unit(units: Seq<BsUnit>, e: EntryModel<(usize, Vec<usize>)>, u: int) -> bool {
    exists|f: int| #[trigger] indexes_file(units, e, u, f)
}

/// File `f` of unit `u` is among the entries of a files index.
pub open spec fn file_indexed(units: Seq<BsUnit>, entries: Seq<EntryModel<(usize, Vec<usize>)>>, u: int, f: int) -> bool {
    exists|k: int| 0 <= k < entries.len() && #[trigger] indexes_file(units, entries[k], u, f)
}

/// Line indexes of a file are indexes of lines.
proof fn lemma_lines_of_file_bounded(lines: Seq<LineRow>, f: int)
    ensures
        forall|k: int| 0 <= k < lines_of_file(lines, f).len() ==> #[trigger] lines_of_file(lines, f)[k] < lines.len(),
    decreases lines.len(),
{
    if lines.len() > 0 {
        lemma_lines_of_file_bounded(lines.drop_last(), f);
        let rest = lines_of_file(lines.drop_last(), f);
        assert forall|k: int| 0 <= k < lines_of_file(lines, f).len() implies #[trigger] lines_of_file(lines, f)[k]
            < lines.len() by {
            if k < rest.len() {
                assert(lines_of_file(lines, f)[k] == rest[k]);
            }
        }
    }
}

/// A files index entry as plain values: path tail, last path part, unit and
/// line indexes.
pub open spec fn file_entry_model(e: EntryModel<(usize, Vec<usize>)>) -> (Seq<Seq<char>>, Seq<char>, usize, Seq<usize>) {
    (e.0, e.1, e.2.0, e.2.1@)
}

/// Files index entries for pairs of file and line indexes of unit `u`.
pub open spec fn pair_entries(unit: BsUnit, u: usize, pairs: Seq<(usize, Seq<usize>)>) -> Seq<
    (Seq<Seq<char>>, Seq<char>, usize, Seq<usize>),
> {
    pairs.map_values(
        |p: (usize, Seq<usize>)|
            (file_key(unit.files_view()[p.0 as int]).0, file_key(unit.files_view()[p.0 as int]).1, u, p.1),
    )
}

/// Files index entries of unit `u`: each of its files that has lines, once,
/// in file order.
pub open spec fn unit_file_entries(unit: BsUnit, u: usize) -> Seq<(Seq<Seq<char>>, Seq<char>, usize, Seq<usize>)> {
    pair_entries(unit, u, file_pairs(unit.lines_view(), unit.files_view().len() as int))
}

/// Files index entries of the first `n` units, in unit order.
pub open spec fn units_file_entries(units: Seq<BsUnit>, n: int) -> Seq<(Seq<Seq<char>>, Seq<char>, usize, Seq<usize>)>
    decreases n,
{
    if n <= 0 {
        Seq::empty()
    } else {
        units_file_entries(units, n - 1) + unit_file_entries(units[n - 1], (n - 1) as usize)
    }
}

/// Index the files of unit `i` that have lines, each under its path split
/// at `/`, with the unit and the indexes of its lines.
fn index_unit_files(index: &mut PathSearchIndex<(usize, Vec<usize>)>, units: &Vec<BsUnit>, i: usize)
    requires
        i < units@.len(),
        units@[i as int].wf(),
        old(index).delimiter_view() == seq!['/'],
    ensures
        final(index).delimiter_view() == seq!['/'],
        final(index).entries_view().len() >= old(index).entries_view().len(),
        forall|k: int| 0 <= k < old(index).entries_view().len() ==> #[trigger] final(index).entries_view()[k]
            == old(index).entries_view()[k],
        forall|k: int|
            old(index).entries_view().len() <= k < final(index).entries_view().len() ==> indexes_file_of_unit(
                units@,
                #[trigger] final(index).entries_view()[k],
                i as int,
            ),
        forall|f: int|
            0 <= f < units@[i as int].files_view().len() && lines_of_file(units@[i as int].lines_view(), f).len() > 0
                ==> exists|k: int| 0 <= k < final(index).entries_view().len() && #[trigger] indexes_file(
                units@,
                final(index).entries_view()[k],
                i as int,
                f,
            ),
        final(index).entries_view().map_values(|e: EntryModel<(usize, Vec<usize>)>| file_entry_model(e)) == old(
            index,
        ).entries_view().map_values(|e: EntryModel<(usize, Vec<usize>)>| file_entry_model(e)) + unit_file_entries(
            units@[i as int],
            i,
        ),
{
    let delimiter = "/";
    proof {
        reveal_strlit("/");
    }
    let ghost start = index.entries_view();
    let pairs = units[i].file_lines_pairs();
    proof {
        assert(pairs_model(pairs@).subrange(0, 0) =~= Seq::empty());
        assert(start.map_values(|e: EntryModel<(usize, Vec<usize>)>| file_entry_model(e)) + pair_entries(
            units@[i as int],
            i,
            Seq::empty(),
        ) =~= start.map_values(|e: EntryModel<(usize, Vec<usize>)>| file_entry_model(e)));
    }
    let files = units[i].files();
    let mut j: usize = 0;
    while j < pairs.len()
        invariant
            i < units@.len(),
            j <= pairs@.len(),
            delimiter@ == seq!['/'],
            strings_view(files@) == units@[i as int].files_view(),
            forall|q: int|
                0 <= q < pairs@.len() ==> {
                    &&& (#[trigger] pairs@[q]).0 < units@[i as int].files_view().len()
                    &&& pairs@[q].1@ == lines_of_file(units@[i as int].lines_view(), pairs@[q].0 as int)
                    &&& pairs@[q].1@.len() > 0
                },
            index.delimiter_view() == seq!['/'],
            index.entries_view().len() >= start.len(),
            forall|k: int| 0 <= k < start.len() ==> #[trigger] index.entries_view()[k] == start[k],
            forall|k: int|
                start.len() <= k < index.entries_view().len() ==> indexes_file_of_unit(
                    units@,
                    #[trigger] index.entries_view()[k],
                    i as int,
                ),
            forall|q: int| #![trigger pairs@[q]]
                0 <= q < j ==> file_indexed(units@, index.entries_view(), i as int, pairs@[q].0 as int),
            pairs_model(pairs@) == file_pairs(units@[i as int].lines_view(), units@[i as int].files_view().len() as int),
            index.entries_view().map_values(|e: EntryModel<(usize, Vec<usize>)>| file_entry_model(e)) == start.map_values(
                |e: EntryModel<(usize, Vec<usize>)>| file_entry_model(e),
            ) + pair_entries(units@[i as int], i, pairs_model(pairs@).subrange(0, j as int)),
        decreases pairs@.len() - j,
    {
        let f = pairs[j].0;
        let lines = pairs[j].1.clone();
        assert(lines@ =~= pairs@[j as int].1@);
        let parts = split(files[f].as_str(), delimiter);
        let strs = as_strs(&parts);
        proof {
            lemma_split_not_empty(files@[f as int]@, seq!['/']);
            assert(files@[f as int]@ == units@[i as int].files_view()[f as int]);
            assert(strs_view(strs@) == spec_split(units@[i as int].files_view()[f as int], seq!['/']));
            assert(strs@.len() > 0);
        }
        let ghost before = index.entries_view();
        index.insert(strs.as_slice(), (i, lines));
        proof {
            let e = index.entries_view()[before.len() as int];
            assert(index.entries_view() == before.push(e));
            assert(indexes_file(units@, e, i as int, f as int));
            assert(pairs_model(pairs@).subrange(0, j + 1) =~= pairs_model(pairs@).subrange(0, j as int).push(
                pairs_model(pairs@)[j as int],
            ));
            assert(pair_entries(units@[i as int], i, pairs_model(pairs@).subrange(0, j + 1)) =~= pair_entries(
                units@[i as int],
                i,
                pairs_model(pairs@).subrange(0, j as int),
            ).push(file_entry_model(e)));
            assert(index.entries_view().map_values(|e: EntryModel<(usize, Vec<usize>)>| file_entry_model(e))
                =~= before.map_values(|e: EntryModel<(usize, Vec<usize>)>| file_entry_model(e)).push(file_entry_model(e)));
            assert forall|k: int| start.len() <= k < index.entries_view().len() implies indexes_file_of_unit(
                units@,
                #[trigger] index.entries_view()[k],
                i as int,
            ) by {
                if k < before.len() {
                    assert(index.entries_view()[k] == before[k]);
                } else {
                    assert(index.entries_view()[k] == e);
                    assert(indexes_file(units@, index.entries_view()[k], i as int, f as int));
                }
            }
            assert forall|q: int| #![trigger pairs@[q]] 0 <= q < j + 1 implies file_indexed(
                units@,
                index.entries_view(),
                i as int,
                pairs@[q].0 as int,
            ) by {
                if q < j {
                    assert(file_indexed(units@, before, i as int, pairs@[q].0 as int));
                    let k = choose|k: int| 0 <= k < before.len() && #[trigger] indexes_file(units@, before[k], i as int, pairs@[q].0 as int);
                    assert(index.entries_view()[k] == before[k]);
                } else {
                    assert(index.entries_view()[before.len() as int] == e);
                    assert(indexes_file(units@, index.entries_view()[before.len() as int], i as int, pairs@[q].0 as int));
                }
            }
        }
        j = j + 1;
    }
    proof {
        assert(pairs_model(pairs@).subrange(0, j as int) =~= pairs_model(pairs@));
        assert forall|g: int|
            0 <= g < units@[i as int].files_view().len() && lines_of_file(units@[i as int].lines_view(), g).len() > 0
                implies exists|k: int| 0 <= k < index.entries_view().len() && #[trigger] indexes_file(
                units@,
                index.entries_view()[k],
                i as int,
                g,
            ) by {
            let q = choose|q: int| 0 <= q < pairs@.len() && (#[trigger] pairs@[q]).0 == g;
            assert(pairs@[q].0 as int == g);
            assert(file_indexed(units@, index.entries_view(), i as int, pairs@[q].0 as int));
        }
    }
}

/// The part of building the debug information of an object file that
/// orders its units and indexes their source files: the units, ordered by
/// their offset in the debug information, each told its index, and the index
/// of the files of the units that have lines, under their paths split at `/`,
/// each with its unit and the indexes of its lines: each such file once, in
/// unit order and then in file order.
pub fn build_units_index(units: Vec<(u64, BsUnit)>) -> (r: (Vec<u64>, Vec<BsUnit>, PathSearchIndex<(usize, Vec<usize>)>))
    requires
        forall|i: int| 0 <= i < units@.len() ==> (#[trigger] units@[i]).1.wf(),
    ensures
        r.0@.len() == r.1@.len(),
        offsets_sorted(r.0@),
        Seq::new(r.1@.len(), |i: int| (r.0@[i], r.1@[i])).map_values(|u: (u64, BsUnit)| unit_model(u)).to_multiset()
            == units_model(units@).to_multiset(),
        forall|i: int| 0 <= i < r.1@.len() ==> (#[trigger] r.1@[i]).idx_view() == i && r.1@[i].wf(),
        r.2.delimiter_view() == seq!['/'],
        files_index_refers(r.1@, r.2.entries_view()),
        forall|k: int| 0 <= k < r.2.entries_view().len() ==> indexes_some_file(r.1@, #[trigger] r.2.entries_view()[k]),
        forall|u: int, f: int|
            0 <= u < r.1@.len() && 0 <= f < r.1@[u].files_view().len() && lines_of_file(r.1@[u].lines_view(), f).len() > 0
                ==> exists|k: int| 0 <= k < r.2.entries_view().len() && #[trigger] indexes_file(r.1@, r.2.entries_view()[k], u, f),
        r.2.entries_view().map_values(|e: EntryModel<(usize, Vec<usize>)>| file_entry_model(e)) == units_file_entries(
            r.1@,
            r.1@.len() as int,
        ),
{
    // order the units by offset
    let ghost input = units_model(units@);
    let mut rest = units;
    let mut sorted: Vec<(u64, BsUnit)> = Vec::new();
    proof {
        broadcast use vstd::seq_lib::group_to_multiset_ensures;
        assert(units_model(sorted@) =~= Seq::empty());
        assert(units_model(sorted@).to_multiset() =~= vstd::multiset::Multiset::empty());
        assert(units_model(rest@) == input);
        assert(units_model(sorted@).to_multiset().add(units_model(rest@).to_multiset()) =~= input.to_multiset());
    }
    while rest.len() > 0
        invariant
            forall|i: int| 0 <= i < rest@.len() ==> (#[trigger] rest@[i]).1.wf(),
            forall|i: int| 0 <= i < sorted@.len() ==> (#[trigger] sorted@[i]).1.wf(),
            forall|i: int, j: int| 0 <= i <= j < sorted@.len() ==> sorted@[i].0 <= sorted@[j].0,
            units_model(sorted@).to_multiset().add(units_model(rest@).to_multiset()) == input.to_multiset(),
        decreases rest@.len(),
    {
        let ghost rest0 = rest@;
        let x = rest.pop().unwrap();
        let mut pos: usize = 0;
        while pos < sorted.len() && sorted[pos].0 <= x.0
            invariant
                pos <= sorted@.len(),
                forall|k: int| 0 <= k < pos ==> (#[trigger] sorted@[k]).0 <= x.0,
            decreases sorted@.len() - pos,
        {
            pos = pos + 1;
        }
        let ghost before = sorted@;
        sorted.insert(pos, x);
        proof {
            assert(rest0 == rest@.push(x));
            assert(units_model(rest0) =~= units_model(rest@).push(unit_model(x)));
            vstd::seq_lib::to_multiset_build(units_model(rest@), unit_model(x));
            assert(units_model(sorted@) =~= units_model(before).insert(pos as int, unit_model(x)));
            vstd::seq_lib::to_multiset_insert(units_model(before), pos as int, unit_model(x));
            assert(units_model(sorted@).to_multiset().add(units_model(rest@).to_multiset()) =~= input.to_multiset());
            assert forall|i: int| 0 <= i < sorted@.len() implies (#[trigger] sorted@[i]).1.wf() by {
                if i < pos {
                    assert(sorted@[i] == before[i]);
                } else if i > pos {
                    assert(sorted@[i] == before[i - 1]);
                }
            }
            assert forall|a: int, b: int| 0 <= a <= b < sorted@.len() implies sorted@[a].0 <= sorted@[b].0 by {
                if b < pos {
                    assert(sorted@[a] == before[a] && sorted@[b] == before[b]);
                } else if b == pos {
                    if a < pos {
                        assert(sorted@[a] == before[a]);
                    }
                } else {
                    assert(sorted@[b] == before[b - 1]);
                    if pos < before.len() {
                        assert(before[pos as int].0 > x.0);
                        assert(before[pos as int].0 <= before[b - 1].0);
                    }
                    if a < pos {
                        assert(sorted@[a] == before[a]);
                    } else if a > pos {
                        assert(sorted@[a] == before[a - 1]);
                    }
                }
            }
        }
    }
    proof {
        broadcast use vstd::seq_lib::group_to_multiset_ensures;
        assert(units_model(rest@) =~= Seq::empty());
        assert(units_model(rest@).to_multiset() =~= vstd::multiset::Multiset::empty());
        assert(units_model(sorted@).to_multiset() =~= input.to_multiset());
    }
    // tell each unit its index
    let ghost sorted_all = sorted@;
    let mut offsets: Vec<u64> = Vec::new();
    let mut out: Vec<BsUnit> = Vec::new();
    while sorted.len() > 0
        invariant
            sorted@ == sorted_all.subrange(0, sorted@.len() as int),
            sorted_all.len() == sorted@.len() + out@.len(),
            offsets@.len() == out@.len(),
            forall|i: int| 0 <= i < sorted_all.len() ==> (#[trigger] sorted_all[i]).1.wf(),
            forall|i: int|
                0 <= i < out@.len() ==> {
                    &&& unit_model((offsets@[i], #[trigger] out@[i])) == unit_model(sorted_all[sorted@.len() + i])
                    &&& offsets@[i] == sorted_all[sorted@.len() + i].0
                    &&& out@[i].idx_view() == sorted@.len() + i
                    &&& out@[i].wf()
                },
        decreases sorted@.len(),
    {
        let ghost out0 = out@;
        let ghost offs0 = offsets@;
        let (off, mut u) = sorted.pop().unwrap();
        let i = sorted.len();
        proof {
            assert(sorted_all[i as int] == (off, u));
        }
        u.set_idx(i);
        out.insert(0, u);
        offsets.insert(0, off);
        proof {
            assert forall|k: int| 0 <= k < out@.len() implies {
                &&& unit_model((offsets@[k], #[trigger] out@[k])) == unit_model(sorted_all[sorted@.len() + k])
                &&& offsets@[k] == sorted_all[sorted@.len() + k].0
                &&& out@[k].idx_view() == sorted@.len() + k
                &&& out@[k].wf()
            } by {
                if k > 0 {
                    assert(out@[k] == out0[k - 1]);
                    assert(offsets@[k] == offs0[k - 1]);
                }
            }
        }
    }
    proof {
        assert(Seq::new(out@.len(), |i: int| (offsets@[i], out@[i])).map_values(|u: (u64, BsUnit)| unit_model(u))
            =~= units_model(sorted_all));
        assert forall|a: int, b: int| 0 <= a <= b < offsets@.len() implies offsets@[a] <= offsets@[b] by {
            assert(unit_model((offsets@[a], out@[a])) == unit_model(sorted_all[a]));
            assert(unit_model((offsets@[b], out@[b])) == unit_model(sorted_all[b]));
        }
    }
    // index the source files
    let delimiter = "/";
    proof {
        reveal_strlit("/");
    }
    let mut index: PathSearchIndex<(usize, Vec<usize>)> = PathSearchIndex::new(delimiter);
    let mut i: usize = 0;
    proof {
        assert(index.entries_view().map_values(|e: EntryModel<(usize, Vec<usize>)>| file_entry_model(e)) =~= Seq::empty());
    }
    while i < out.len()
        invariant
            i <= out@.len(),
            forall|j: int| 0 <= j < out@.len() ==> (#[trigger] out@[j]).wf(),
            index.delimiter_view() == seq!['/'],
            forall|k: int| 0 <= k < index.entries_view().len() ==> indexes_some_file(out@, #[trigger] index.entries_view()[k]),
            forall|u: int, f: int|
                0 <= u < i && 0 <= f < out@[u].files_view().len() && lines_of_file(out@[u].lines_view(), f).len() > 0
                    ==> exists|k: int| 0 <= k < index.entries_view().len() && #[trigger] indexes_file(out@, index.entries_view()[k], u, f),
            index.entries_view().map_values(|e: EntryModel<(usize, Vec<usize>)>| file_entry_model(e)) == units_file_entries(
                out@,
                i as int,
            ),
        decreases out@.len() - i,
    {
        let ghost before = index.entries_view();
        index_unit_files(&mut index, &out, i);
        proof {
            assert(units_file_entries(out@, i + 1) == units_file_entries(out@, i as int) + unit_file_entries(
                out@[i as int],
                i,
            ));
            assert forall|k: int| 0 <= k < index.entries_view().len() implies indexes_some_file(out@, #[trigger] index.entries_view()[k]) by {
                if k < before.len() {
                    assert(index.entries_view()[k] == before[k]);
                } else {
                    let e = index.entries_view()[k];
                    assert(indexes_file_of_unit(out@, e, i as int));
                    let g = choose|g: int| #[trigger] indexes_file(out@, e, i as int, g);
                    assert(e.2.0 == i);
                    assert(indexes_file(out@, e, e.2.0 as int, g));
                }
            }
            assert forall|u: int, f: int|
                0 <= u < i + 1 && 0 <= f < out@[u].files_view().len() && lines_of_file(out@[u].lines_view(), f).len() > 0
                    implies exists|k: int| 0 <= k < index.entries_view().len() && #[trigger] indexes_file(out@, index.entries_view()[k], u, f) by {
                if u < i {
                    let k = choose|k: int| 0 <= k < before.len() && #[trigger] indexes_file(out@, before[k], u, f);
                    assert(index.entries_view()[k] == before[k]);
                }
            }
        }
        i = i + 1;
    }
    proof {
        assert forall|k: int| 0 <= k < index.entries_view().len() implies {
            &&& (#[trigger] index.entries_view()[k]).2.0 < out@.len()
            &&& forall|j: int| 0 <= j < index.entries_view()[k].2.1@.len() ==> #[trigger] index.entries_view()[k].2.1@[j]
                < out@[index.entries_view()[k].2.0 as int].lines_view().len()
        } by {
            let e = index.entries_view()[k];
            assert(indexes_some_file(out@, e));
            let g = choose|g: int| #[trigger] indexes_file(out@, e, e.2.0 as int, g);
            lemma_lines_of_file_bounded(out@[e.2.0 as int].lines_view(), g);
        }
    }
    (offsets, out, index)
}

} // verus!
