//! Registry of the object files mapped into the debugee: the main executable
//! and the shared libraries, with the memory regions they occupy.

use crate::debugger::address::RelocatedAddress;
use crate::debugger::debugee::dwarf::unit::Range;
use crate::debugger::error::Error;
use crate::text::{copy_string, string_eq, strings_view};
use vstd::multiset::Multiset;
use vstd::prelude::*;

verus! {

/// Memory region range.
#[derive(Debug, Clone, Copy)]
pub struct RegionRange {
    pub from: RelocatedAddress,
    pub to: RelocatedAddress,
}

/// True when an address is inside a region (both ends included).
pub open spec fn range_contains(r: RegionRange, addr: usize) -> bool {
    r.from.0 <= addr <= r.to.0
}

/// Information about loaded in VAS region.
pub struct RegionInfo {
    pub path: String,
    pub has_debug_info: bool,
    pub range: Option<RegionRange>,
}

/// Difference between two registry states (typically between current and needle)
pub struct ReloadPlan {
    pub to_del: Vec<String>,
    pub to_add: Vec<String>,
}

/// True when `p` is one of `paths`.
pub open spec fn has_path(paths: Seq<Seq<char>>, p: Seq<char>) -> bool {
    exists|i: int| 0 <= i < paths.len() && paths[i] == p
}

/// Paths of `current` to delete for a registry to hold `target`: those not in
/// `target`, except the program executable.
pub open spec fn paths_to_delete(current: Seq<Seq<char>>, target: Seq<Seq<char>>, program: Seq<char>) -> Seq<Seq<char>>
    decreases current.len(),
{
    if current.len() == 0 {
        Seq::empty()
    } else {
        let rest = paths_to_delete(current.drop_last(), target, program);
        if !has_path(target, current.last()) && current.last() != program {
            rest.push(current.last())
        } else {
            rest
        }
    }
}

/// Paths to delete are paths of the registry, each once when the registry
/// holds each path once.
proof fn lemma_paths_to_delete_distinct(current: Seq<Seq<char>>, target: Seq<Seq<char>>, program: Seq<char>)
    requires
        forall|i: int, j: int| 0 <= i < j < current.len() ==> current[i] != current[j],
    ensures
        paths_to_delete(current, target, program).no_duplicates(),
        forall|x: Seq<char>| paths_to_delete(current, target, program).contains(x) ==> current.contains(x),
    decreases current.len(),
{
    if current.len() > 0 {
        let init = current.drop_last();
        assert forall|i: int, j: int| 0 <= i < j < init.len() implies init[i] != init[j] by {
            assert(init[i] == current[i] && init[j] == current[j]);
        }
        lemma_paths_to_delete_distinct(init, target, program);
        let rest = paths_to_delete(init, target, program);
        assert forall|x: Seq<char>| rest.contains(x) implies current.contains(x) by {
            assert(init.contains(x));
            let k = choose|k: int| 0 <= k < init.len() && init[k] == x;
            assert(current[k] == x);
        }
        if !has_path(target, current.last()) && current.last() != program {
            assert(!rest.contains(current.last())) by {
                if rest.contains(current.last()) {
                    assert(init.contains(current.last()));
                    let k = choose|k: int| 0 <= k < init.len() && init[k] == current.last();
                    assert(current[k] == current[current.len() - 1]);
                }
            }
            let r = rest.push(current.last());
            assert forall|i: int, j: int| 0 <= i < j < r.len() implies r[i] != r[j] by {
                if j == r.len() - 1 {
                    assert(rest.contains(r[i]));
                }
            }
            assert forall|x: Seq<char>| r.contains(x) implies current.contains(x) by {
                let k = choose|k: int| 0 <= k < r.len() && r[k] == x;
                if k < rest.len() {
                    assert(rest.contains(x));
                } else {
                    assert(current[current.len() - 1] == x);
                }
            }
        }
    }
}

/// Paths of `target` to add for a registry holding `current`: those not in `current`.
pub open spec fn paths_to_add(current: Seq<Seq<char>>, target: Seq<Seq<char>>) -> Seq<Seq<char>>
    decreases target.len(),
{
    if target.len() == 0 {
        Seq::empty()
    } else {
        let rest = paths_to_add(current, target.drop_last());
        if !has_path(current, target.last()) {
            rest.push(target.last())
        } else {
            rest
        }
    }
}

/// True when regions are ordered by their start address.
pub open spec fn ranges_sorted(ranges: Seq<(Seq<char>, RegionRange)>) -> bool {
    forall|i: int, j: int| 0 <= i <= j < ranges.len() ==> ranges[i].1.from.0 <= ranges[j].1.from.0
}

/// True when regions are well formed and do not overlap.
pub open spec fn ranges_disjoint(ranges: Seq<(Seq<char>, RegionRange)>) -> bool {
    &&& forall|i: int| 0 <= i < ranges.len() ==> (#[trigger] ranges[i]).1.from.0 <= ranges[i].1.to.0
    &&& forall|i: int, j: int| 0 <= i < j < ranges.len() ==> ranges[i].1.to.0 < ranges[j].1.from.0
}

/// One object file of the registry: its path and its debug information.
/// A region of the memory map of a process.
#[derive(Debug)]
pub struct MapRange {
    pub start: usize,
    pub size: usize,
    /// Canonical path of the mapped file, for a region that maps a file.
    pub filename: Option<String>,
}

/// A region maps the file with the given canonical path.
pub open spec fn maps_file(m: MapRange, name: Seq<char>) -> bool {
    m.filename matches Some(f) && f@ == name
}

/// Lowest start of the regions that map a file.
pub open spec fn lowest_start(maps: Seq<MapRange>, name: Seq<char>) -> Option<usize>
    decreases maps.len(),
{
    if maps.len() == 0 {
        None
    } else {
        let prev = lowest_start(maps.drop_last(), name);
        if !maps_file(maps.last(), name) {
            prev
        } else {
            match prev {
                None => Some(maps.last().start),
                Some(s) => Some(if maps.last().start < s {
                    maps.last().start
                } else {
                    s
                }),
            }
        }
    }
}

/// The region that maps a file with the highest start (the last of them when
/// several start there), as (start, size).
pub open spec fn highest_region(maps: Seq<MapRange>, name: Seq<char>) -> Option<(usize, usize)>
    decreases maps.len(),
{
    if maps.len() == 0 {
        None
    } else {
        let prev = highest_region(maps.drop_last(), name);
        if !maps_file(maps.last(), name) {
            prev
        } else {
            match prev {
                None => Some((maps.last().start, maps.last().size)),
                Some(h) => if maps.last().start >= h.0 {
                    Some((maps.last().start, maps.last().size))
                } else {
                    Some(h)
                },
            }
        }
    }
}

/// Mapping offset and region of a file: the offset is the lowest start of
/// its regions; the region is its text range moved by that offset or, without
/// a text range, from the lowest start to the end of the highest region.
/// `None` when no region maps the file.
pub open spec fn file_region(maps: Seq<MapRange>, name: Seq<char>, text: Option<Range>) -> Option<(usize, RegionRange)> {
    match (lowest_start(maps, name), highest_region(maps, name)) {
        (Some(lo), Some(hi)) => Some(
            (
                lo,
                match text {
                    None => RegionRange { from: RelocatedAddress(lo), to: RelocatedAddress((hi.0 + hi.1) as usize) },
                    Some(r) => RegionRange {
                        from: RelocatedAddress((r.begin as usize + lo) as usize),
                        to: RelocatedAddress((r.end as usize + lo) as usize),
                    },
                },
            ),
        ),
        _ => None,
    }
}

/// A file takes part in an update: every file, or only the program.
pub open spec fn file_selected(path: Seq<char>, program: Seq<char>, only_main: bool) -> bool {
    !only_main || path == program
}

/// Mappings computed for the files, in the order of the files.
pub open spec fn new_mappings(
    paths: Seq<Seq<char>>,
    canon: Seq<Seq<char>>,
    text: Seq<Option<Range>>,
    maps: Seq<MapRange>,
    program: Seq<char>,
    only_main: bool,
) -> Seq<(Seq<char>, usize)>
    decreases paths.len(),
{
    if paths.len() == 0 || canon.len() != paths.len() || text.len() != paths.len() {
        Seq::empty()
    } else {
        let rest = new_mappings(paths.drop_last(), canon.drop_last(), text.drop_last(), maps, program, only_main);
        if file_selected(paths.last(), program, only_main) {
            match file_region(maps, canon.last(), text.last()) {
                Some((m, _)) => rest.push((paths.last(), m)),
                None => rest,
            }
        } else {
            rest
        }
    }
}

/// Regions computed for the files, in the order of the files.
pub open spec fn new_regions(
    paths: Seq<Seq<char>>,
    canon: Seq<Seq<char>>,
    text: Seq<Option<Range>>,
    maps: Seq<MapRange>,
    program: Seq<char>,
    only_main: bool,
) -> Seq<(Seq<char>, RegionRange)>
    decreases paths.len(),
{
    if paths.len() == 0 || canon.len() != paths.len() || text.len() != paths.len() {
        Seq::empty()
    } else {
        let rest = new_regions(paths.drop_last(), canon.drop_last(), text.drop_last(), maps, program, only_main);
        if file_selected(paths.last(), program, only_main) {
            match file_region(maps, canon.last(), text.last()) {
                Some((_, r)) => rest.push((paths.last(), r)),
                None => rest,
            }
        } else {
            rest
        }
    }
}

/// Files that take part in an update and that no region maps.
pub open spec fn unmapped_files(
    paths: Seq<Seq<char>>,
    canon: Seq<Seq<char>>,
    text: Seq<Option<Range>>,
    maps: Seq<MapRange>,
    program: Seq<char>,
    only_main: bool,
) -> Seq<Seq<char>>
    decreases paths.len(),
{
    if paths.len() == 0 || canon.len() != paths.len() || text.len() != paths.len() {
        Seq::empty()
    } else {
        let rest = unmapped_files(paths.drop_last(), canon.drop_last(), text.drop_last(), maps, program, only_main);
        if file_selected(paths.last(), program, only_main) && file_region(maps, canon.last(), text.last()) is None {
            rest.push(paths.last())
        } else {
            rest
        }
    }
}

/// No region end or moved text range overflows an address.
pub open spec fn regions_fit(maps: Seq<MapRange>, text: Seq<Option<Range>>) -> bool {
    &&& forall|j: int| 0 <= j < maps.len() ==> (#[trigger] maps[j]).start + maps[j].size <= usize::MAX
    &&& forall|i: int, j: int|
        0 <= i < text.len() && 0 <= j < maps.len() ==> (#[trigger] text[i] matches Some(r) ==> (r.begin as usize)
            + (#[trigger] maps[j]).start <= usize::MAX && (r.end as usize) + maps[j].start <= usize::MAX)
}

/// The lowest start of the regions that map a file is the start of one of
/// them and no region of the file starts lower; there is one exactly when
/// some region maps the file.
proof fn lemma_lowest_start(maps: Seq<MapRange>, name: Seq<char>)
    ensures
        lowest_start(maps, name) is Some <==> exists|j: int| 0 <= j < maps.len() && maps_file(maps[j], name),
        lowest_start(maps, name) matches Some(l) ==> exists|j: int|
            0 <= j < maps.len() && maps_file(maps[j], name) && maps[j].start == l,
        lowest_start(maps, name) matches Some(l) ==> forall|j: int|
            0 <= j < maps.len() && maps_file(#[trigger] maps[j], name) ==> l <= maps[j].start,
    decreases maps.len(),
{
    if maps.len() > 0 {
        let init = maps.drop_last();
        lemma_lowest_start(init, name);
        assert forall|j: int| 0 <= j < init.len() implies #[trigger] init[j] == maps[j] by {}
        if exists|j: int| 0 <= j < init.len() && maps_file(init[j], name) {
            let j = choose|j: int| 0 <= j < init.len() && maps_file(init[j], name);
            assert(maps_file(maps[j], name));
        }
        if exists|j: int| 0 <= j < maps.len() && maps_file(maps[j], name) {
            let j = choose|j: int| 0 <= j < maps.len() && maps_file(maps[j], name);
            if j < init.len() {
                assert(maps_file(init[j], name));
            }
        }
        match lowest_start(init, name) {
            Some(l) => {
                let j = choose|j: int| 0 <= j < init.len() && maps_file(init[j], name) && init[j].start == l;
                assert(maps[j] == init[j]);
            },
            None => {},
        }
        if let Some(l) = lowest_start(maps, name) {
            assert forall|j: int| 0 <= j < maps.len() && maps_file(#[trigger] maps[j], name) implies l <= maps[j].start by {
                if j < init.len() {
                    assert(maps_file(init[j], name));
                    assert(lowest_start(init, name) is Some);
                }
            }
        }
    }
}

/// The region of a file with the highest start is one of its regions and
/// no region of the file starts higher.
proof fn lemma_highest_region(maps: Seq<MapRange>, name: Seq<char>)
    ensures
        highest_region(maps, name) is Some <==> exists|j: int| 0 <= j < maps.len() && maps_file(maps[j], name),
        highest_region(maps, name) matches Some(h) ==> exists|j: int|
            0 <= j < maps.len() && maps_file(maps[j], name) && maps[j].start == h.0 && maps[j].size == h.1,
        highest_region(maps, name) matches Some(h) ==> forall|j: int|
            0 <= j < maps.len() && maps_file(#[trigger] maps[j], name) ==> maps[j].start <= h.0,
    decreases maps.len(),
{
    if maps.len() > 0 {
        let init = maps.drop_last();
        lemma_highest_region(init, name);
        assert forall|j: int| 0 <= j < init.len() implies #[trigger] init[j] == maps[j] by {}
        if exists|j: int| 0 <= j < init.len() && maps_file(init[j], name) {
            let j = choose|j: int| 0 <= j < init.len() && maps_file(init[j], name);
            assert(maps_file(maps[j], name));
        }
        if exists|j: int| 0 <= j < maps.len() && maps_file(maps[j], name) {
            let j = choose|j: int| 0 <= j < maps.len() && maps_file(maps[j], name);
            if j < init.len() {
                assert(maps_file(init[j], name));
            }
        }
        match highest_region(init, name) {
            Some(h) => {
                let j = choose|j: int|
                    0 <= j < init.len() && maps_file(init[j], name) && init[j].start == h.0 && init[j].size == h.1;
                assert(maps[j] == init[j]);
            },
            None => {},
        }
        if let Some(h) = highest_region(maps, name) {
            assert forall|j: int| 0 <= j < maps.len() && maps_file(#[trigger] maps[j], name) implies maps[j].start <= h.0 by {
                if j < init.len() {
                    assert(maps_file(init[j], name));
                    assert(highest_region(init, name) is Some);
                }
            }
        }
    }
}

/// The regions of a memory map that map one file do not overlap and are not
/// empty, as in the memory map of a process.
pub open spec fn file_maps_disjoint(maps: Seq<MapRange>, name: Seq<char>) -> bool {
    forall|i: int, j: int|
        0 <= i < maps.len() && 0 <= j < maps.len() && i != j && maps_file(#[trigger] maps[i], name) && maps_file(
            #[trigger] maps[j],
            name,
        ) ==> maps[i].size > 0 && (maps[i].start + maps[i].size <= maps[j].start || maps[j].start + maps[j].size
            <= maps[i].start)
}

/// Without a text range, the region of a file covers every region of the
/// memory map that maps the file, and no more: it begins where the lowest of
/// them begins and ends where the highest of them ends. A file is given a
/// region exactly when some region maps it; its mapping offset is where the
/// region begins.
pub proof fn lemma_file_region_covers_maps(maps: Seq<MapRange>, name: Seq<char>)
    requires
        forall|j: int| 0 <= j < maps.len() ==> (#[trigger] maps[j]).start + maps[j].size <= usize::MAX,
        file_maps_disjoint(maps, name),
    ensures
        file_region(maps, name, None) is Some <==> exists|j: int| 0 <= j < maps.len() && maps_file(maps[j], name),
        file_region(maps, name, None) matches Some((off, r)) ==> {
            &&& off == r.from.0
            &&& forall|j: int|
                0 <= j < maps.len() && maps_file(#[trigger] maps[j], name) ==> r.from.0 <= maps[j].start
                    && maps[j].start + maps[j].size <= r.to.0
            &&& exists|j: int| 0 <= j < maps.len() && maps_file(maps[j], name) && maps[j].start == r.from.0
            &&& exists|j: int| 0 <= j < maps.len() && maps_file(maps[j], name) && maps[j].start + maps[j].size == r.to.0
        },
{
    lemma_lowest_start(maps, name);
    lemma_highest_region(maps, name);
    match (lowest_start(maps, name), highest_region(maps, name)) {
        (Some(lo), Some(h)) => {
            let k = choose|k: int| 0 <= k < maps.len() && maps_file(maps[k], name) && maps[k].start == h.0 && maps[k].size == h.1;
            assert(h.0 + h.1 <= usize::MAX);
            let r = file_region(maps, name, None)->Some_0.1;
            assert(r.to.0 == h.0 + h.1);
            assert forall|j: int| 0 <= j < maps.len() && maps_file(#[trigger] maps[j], name) implies lo <= maps[j].start
                && maps[j].start + maps[j].size <= h.0 + h.1 by {
                if j != k {
                    assert(maps[j].start <= h.0);
                    assert(maps[j].size > 0 && maps[k].size > 0);
                }
            }
            assert(maps[k].start + maps[k].size == r.to.0);
        },
        _ => {},
    }
}

/// Mapping offset and region of a file in a memory map.
fn compute_file_region(maps: &[MapRange], name: &String, text: Option<Range>) -> (r: Option<(usize, RegionRange)>)
    requires
        regions_fit(maps@, seq![text]),
    ensures
        r == file_region(maps@, name@, text),
{
    let mut lo: Option<usize> = None;
    let mut hi: Option<(usize, usize)> = None;
    let mut j: usize = 0;
    while j < maps.len()
        invariant
            j <= maps@.len(),
            lo == lowest_start(maps@.take(j as int), name@),
            hi == highest_region(maps@.take(j as int), name@),
            lo is Some <==> hi is Some,
            hi matches Some(h) ==> exists|k: int| 0 <= k < j && (#[trigger] maps@[k]).start == h.0 && maps@[k].size == h.1,
            lo matches Some(l) ==> exists|k: int| 0 <= k < j && (#[trigger] maps@[k]).start == l,
        decreases maps@.len() - j,
    {
        proof {
            assert(maps@.take(j + 1).drop_last() =~= maps@.take(j as int));
        }
        let m = &maps[j];
        let is_file = match &m.filename {
            Some(f) => crate::text::string_eq(f, name),
            None => false,
        };
        if is_file {
            lo = match lo {
                None => Some(m.start),
                Some(s) => Some(if m.start < s {
                    m.start
                } else {
                    s
                }),
            };
            hi = match hi {
                None => Some((m.start, m.size)),
                Some(h) => if m.start >= h.0 {
                    Some((m.start, m.size))
                } else {
                    Some(h)
                },
            };
        }
        j = j + 1;
    }
    proof {
        assert(maps@.take(j as int) =~= maps@);
    }
    match (lo, hi) {
        (Some(l), Some(h)) => {
            let region = match text {
                None => {
                    proof {
                        let k = choose|k: int| 0 <= k < j && (#[trigger] maps@[k]).start == h.0 && maps@[k].size == h.1;
                        assert(maps@[k].start + maps@[k].size <= usize::MAX);
                    }
                    RegionRange { from: RelocatedAddress(l), to: RelocatedAddress(h.0 + h.1) }
                },
                Some(t) => {
                    proof {
                        let k = choose|k: int| 0 <= k < j && (#[trigger] maps@[k]).start == l;
                        assert(seq![text][0] == text);
                        assert(seq![text][0] matches Some(r) ==> (r.begin as usize) + maps@[k].start <= usize::MAX && (r.end as usize) + maps@[k].start <= usize::MAX);
                    }
                    RegionRange {
                        from: RelocatedAddress(t.begin as usize + l),
                        to: RelocatedAddress(t.end as usize + l),
                    }
                },
            };
            Some((l, region))
        },
        _ => None,
    }
}

struct RegistryFile<D> {
    path: String,
    dwarf: D,
}

/// Registry contains debug information about main executable object and loaded shared libraries.
pub struct DwarfRegistry<D> {
    /// process pid
    pid: i32,
    /// main executable file
    program_path: String,
    /// debug information of each file, in the order files were added
    files: Vec<RegistryFile<D>>,
    /// .text section address ranges, ordered by start address
    ranges: Vec<(String, RegionRange)>,
    /// regions map addresses, each region is a shared lib or debugee program
    mappings: Vec<(String, usize)>,
}

/// Strict order of paths, as `String` compares them (by characters).
pub open spec fn path_lt(a: Seq<char>, b: Seq<char>) -> bool
    decreases a.len(),
{
    if a.len() == 0 {
        b.len() > 0
    } else if b.len() == 0 {
        false
    } else if a[0] != b[0] {
        a[0] < b[0]
    } else {
        path_lt(a.drop_first(), b.drop_first())
    }
}

/// Of two different paths, one comes first, and never both.
proof fn lemma_path_lt_total(a: Seq<char>, b: Seq<char>)
    ensures
        a != b ==> (path_lt(a, b) || path_lt(b, a)),
        !(path_lt(a, b) && path_lt(b, a)),
    decreases a.len(),
{
    if a.len() > 0 && b.len() > 0 && a[0] == b[0] {
        lemma_path_lt_total(a.drop_first(), b.drop_first());
        if a != b {
            assert(a.drop_first() != b.drop_first()) by {
                if a.drop_first() == b.drop_first() {
                    assert(a =~= seq![a[0]] + a.drop_first());
                    assert(b =~= seq![b[0]] + b.drop_first());
                }
            }
        }
    } else if a.len() == 0 && b.len() == 0 {
        assert(a =~= b);
    }
}

/// Whether a path comes before another.
fn path_less(a: &String, b: &String) -> (r: bool)
    ensures
        r == path_lt(a@, b@),
{
    let av = crate::text::chars_of(a.as_str());
    let bv = crate::text::chars_of(b.as_str());
    let mut i: usize = 0;
    assert(a@.skip(0) =~= a@ && b@.skip(0) =~= b@);
    while i < av.len() && i < bv.len() && av[i] == bv[i]
        invariant
            av@ == a@,
            bv@ == b@,
            i <= av@.len(),
            i <= bv@.len(),
            path_lt(a@, b@) == path_lt(a@.skip(i as int), b@.skip(i as int)),
        decreases av@.len() - i,
    {
        proof {
            assert(a@.skip(i as int).drop_first() =~= a@.skip(i + 1));
            assert(b@.skip(i as int).drop_first() =~= b@.skip(i + 1));
        }
        i = i + 1;
    }
    if i == av.len() {
        i < bv.len()
    } else if i == bv.len() {
        false
    } else {
        av[i] < bv[i]
    }
}

/// The region of a path: the first region registered for it.
pub open spec fn region_of(ranges: Seq<(Seq<char>, RegionRange)>, p: Seq<char>) -> Option<RegionRange>
    decreases ranges.len(),
{
    if ranges.len() == 0 {
        None
    } else if ranges[0].0 == p {
        Some(ranges[0].1)
    } else {
        region_of(ranges.drop_first(), p)
    }
}

/// Regions listed in ascending order of their paths.
pub open spec fn paths_ascending(v: Seq<RegionInfo>) -> bool {
    forall|k: int| 0 <= k && k + 1 < v.len() ==> path_lt((#[trigger] v[k]).path@, v[k + 1].path@)
}

/// Insert a region among regions in ascending order of their paths, before
/// the first one whose path comes after it; returns its position.
fn insert_by_path(v: &mut Vec<RegionInfo>, info: RegionInfo) -> (p: usize)
    requires
        paths_ascending(old(v)@),
        forall|k: int| 0 <= k < old(v)@.len() ==> (#[trigger] old(v)@[k]).path@ != info.path@,
    ensures
        p <= old(v)@.len(),
        final(v)@ == old(v)@.insert(p as int, info),
        paths_ascending(final(v)@),
{
    let mut p: usize = 0;
    while p < v.len() && !path_less(&info.path, &v[p].path)
        invariant
            p <= v@.len(),
            forall|k: int| 0 <= k < p ==> !path_lt(info.path@, (#[trigger] v@[k]).path@),
        decreases v@.len() - p,
    {
        p = p + 1;
    }
    let ghost old_v = v@;
    proof {
        if p > 0 {
            lemma_path_lt_total(info.path@, old_v[p - 1].path@);
        }
    }
    v.insert(p, info);
    proof {
        assert forall|k: int| 0 <= k && k + 1 < v@.len() implies path_lt((#[trigger] v@[k]).path@, v@[k + 1].path@) by {
            if k + 1 < p {
                assert(v@[k] == old_v[k] && v@[k + 1] == old_v[k + 1]);
            } else if k + 1 == p {
                assert(v@[k] == old_v[k]);
            } else if k == p {
                assert(v@[k + 1] == old_v[k]);
            } else {
                assert(v@[k] == old_v[k - 1] && v@[k + 1] == old_v[k]);
            }
        }
    }
    p
}

/// The region listed for file `j`: its path, its debug information flag and its region.
pub open spec fn region_entry_of(
    e: RegionInfo,
    j: int,
    pv: Seq<Seq<char>>,
    flags: Seq<bool>,
    ranges: Seq<(Seq<char>, RegionRange)>,
) -> bool {
    &&& 0 <= j < pv.len()
    &&& e.path@ == pv[j]
    &&& e.has_debug_info == flags[j]
    &&& e.range == region_of(ranges, pv[j])
}

/// Regions listed for distinct files of the first `i` ones, none the program.
#[verifier::opaque]
spec fn others_listed(
    others: Seq<RegionInfo>,
    idx: Seq<int>,
    i: int,
    pv: Seq<Seq<char>>,
    prog: Seq<char>,
    flags: Seq<bool>,
    ranges: Seq<(Seq<char>, RegionRange)>,
) -> bool {
    &&& idx.len() == others.len()
    &&& forall|k: int|
        0 <= k < idx.len() ==> {
            &&& 0 <= #[trigger] idx[k] < i
            &&& region_entry_of(others[k], idx[k], pv, flags, ranges)
            &&& pv[idx[k]] != prog
        }
    &&& forall|k1: int, k2: int| 0 <= k1 < k2 < idx.len() ==> idx[k1] != idx[k2]
}

/// Every file of the first `i` ones but the program is listed.
#[verifier::opaque]
spec fn others_cover(idx: Seq<int>, i: int, pv: Seq<Seq<char>>, prog: Seq<char>) -> bool {
    forall|j: int| 0 <= j < i && pv[j] != prog ==> exists|k: int| 0 <= k < idx.len() && #[trigger] idx[k] == j
}

proof fn lemma_others_start(pv: Seq<Seq<char>>, prog: Seq<char>, flags: Seq<bool>, ranges: Seq<(Seq<char>, RegionRange)>)
    ensures
        others_listed(Seq::empty(), Seq::empty(), 0, pv, prog, flags, ranges),
        others_cover(Seq::empty(), 0, pv, prog),
{
    reveal(others_listed);
    reveal(others_cover);
}

/// The program does not change the listed regions.
proof fn lemma_others_skip(
    others: Seq<RegionInfo>,
    idx: Seq<int>,
    i: int,
    pv: Seq<Seq<char>>,
    prog: Seq<char>,
    flags: Seq<bool>,
    ranges: Seq<(Seq<char>, RegionRange)>,
)
    requires
        others_listed(others, idx, i, pv, prog, flags, ranges),
        others_cover(idx, i, pv, prog),
        pv[i] == prog,
    ensures
        others_listed(others, idx, i + 1, pv, prog, flags, ranges),
        others_cover(idx, i + 1, pv, prog),
{
    reveal(others_listed);
    reveal(others_cover);
}

/// Listing file `i` at position `p` keeps the regions listed and covering.
proof fn lemma_others_insert(
    others: Seq<RegionInfo>,
    idx: Seq<int>,
    i: int,
    pv: Seq<Seq<char>>,
    prog: Seq<char>,
    flags: Seq<bool>,
    ranges: Seq<(Seq<char>, RegionRange)>,
    p: int,
    info: RegionInfo,
)
    requires
        others_listed(others, idx, i, pv, prog, flags, ranges),
        others_cover(idx, i, pv, prog),
        0 <= p <= others.len(),
        region_entry_of(info, i, pv, flags, ranges),
        pv[i] != prog,
    ensures
        others_listed(others.insert(p, info), idx.insert(p, i), i + 1, pv, prog, flags, ranges),
        others_cover(idx.insert(p, i), i + 1, pv, prog),
{
    reveal(others_listed);
    reveal(others_cover);
    let ni = idx.insert(p, i);
    let no = others.insert(p, info);
    assert forall|k: int| 0 <= k < ni.len() implies {
        &&& 0 <= #[trigger] ni[k] < i + 1
        &&& region_entry_of(no[k], ni[k], pv, flags, ranges)
        &&& pv[ni[k]] != prog
    } by {
        if k < p {
            assert(ni[k] == idx[k] && no[k] == others[k]);
        } else if k > p {
            assert(ni[k] == idx[k - 1] && no[k] == others[k - 1]);
        }
    }
    assert forall|k1: int, k2: int| 0 <= k1 < k2 < ni.len() implies ni[k1] != ni[k2] by {
        if k1 < p && k2 < p {
        } else if k1 < p && k2 == p {
            assert(idx[k1] < i);
        } else if k1 < p {
            assert(ni[k2] == idx[k2 - 1]);
        } else if k1 == p {
            assert(ni[k2] == idx[k2 - 1]);
            assert(idx[k2 - 1] < i);
        } else {
            assert(ni[k1] == idx[k1 - 1] && ni[k2] == idx[k2 - 1]);
        }
    }
    assert forall|j: int| 0 <= j < i + 1 && pv[j] != prog implies exists|k: int| 0 <= k < ni.len() && #[trigger] ni[k] == j by {
        if j == i {
            assert(ni[p] == j);
        } else {
            let k = choose|k: int| 0 <= k < idx.len() && #[trigger] idx[k] == j;
            if k < p {
                assert(ni[k] == j);
            } else {
                assert(ni[k + 1] == j);
            }
        }
    }
}

/// The listed regions, after the program's if it is registered, list every
/// file once, with its flag and region: `owner` gives the file of each
/// listed region, `pos` the listed region of each file.
proof fn lemma_dump_result(
    main: Seq<RegionInfo>,
    others: Seq<RegionInfo>,
    idx: Seq<int>,
    pv: Seq<Seq<char>>,
    prog: Seq<char>,
    flags: Seq<bool>,
    ranges: Seq<(Seq<char>, RegionRange)>,
) -> (w: (Seq<int>, Seq<int>))
    requires
        forall|a: int, b: int| 0 <= a < b < pv.len() ==> pv[a] != pv[b],
        others_listed(others, idx, pv.len() as int, pv, prog, flags, ranges),
        others_cover(idx, pv.len() as int, pv, prog),
        main.len() <= 1,
        main.len() == 1 <==> has_path(pv, prog),
        main.len() == 1 ==> main[0].path@ == prog && exists|j: int| #[trigger] region_entry_of(main[0], j, pv, flags, ranges),
    ensures
        forall|k1: int, k2: int|
            0 <= k1 < k2 < (main + others).len() ==> (#[trigger] (main + others)[k1]).path@ != (#[trigger] (main
                + others)[k2]).path@,
        w.0.len() == (main + others).len(),
        forall|k: int| 0 <= k < w.0.len() ==> region_entry_of((main + others)[k], #[trigger] w.0[k], pv, flags, ranges),
        w.1.len() == pv.len(),
        forall|j: int|
            0 <= j < pv.len() ==> 0 <= #[trigger] w.1[j] < (main + others).len() && (main + others)[w.1[j]].path@ == pv[j],
{
    reveal(others_listed);
    reveal(others_cover);
    let r = main + others;
    let ml = main.len() as int;
    assert forall|k1: int, k2: int| 0 <= k1 < k2 < r.len() implies (#[trigger] r[k1]).path@ != (#[trigger] r[k2]).path@ by {
        assert(r[k2] == others[k2 - ml]);
        let b = idx[k2 - ml];
        assert(region_entry_of(others[k2 - ml], b, pv, flags, ranges) && pv[b] != prog);
        if k1 >= ml {
            assert(r[k1] == others[k1 - ml]);
            let a = idx[k1 - ml];
            assert(region_entry_of(others[k1 - ml], a, pv, flags, ranges));
            assert(a != b);
            if a < b {
                assert(pv[a] != pv[b]);
            } else {
                assert(pv[b] != pv[a]);
            }
        } else {
            assert(r[k1] == main[k1]);
        }
    }
    let jp: int = if ml == 1 {
        choose|j: int| #[trigger] region_entry_of(main[0], j, pv, flags, ranges)
    } else {
        0
    };
    let owner: Seq<int> = if ml == 1 {
        seq![jp] + idx
    } else {
        idx
    };
    assert forall|k: int| 0 <= k < owner.len() implies region_entry_of(r[k], #[trigger] owner[k], pv, flags, ranges) by {
        if k >= ml {
            assert(r[k] == others[k - ml]);
            assert(owner[k] == idx[k - ml]);
        } else {
            assert(r[k] == main[0]);
        }
    }
    let pos: Seq<int> = Seq::new(
        pv.len(),
        |j: int|
            if pv[j] == prog {
                0
            } else {
                ml + choose|k: int| 0 <= k < idx.len() && #[trigger] idx[k] == j
            },
    );
    assert forall|j: int| 0 <= j < pv.len() implies 0 <= #[trigger] pos[j] < r.len() && r[pos[j]].path@ == pv[j] by {
        if pv[j] == prog {
            assert(has_path(pv, prog));
            assert(r[0] == main[0]);
        } else {
            let k = choose|k: int| 0 <= k < idx.len() && #[trigger] idx[k] == j;
            assert(pos[j] == ml + k);
            assert(r[k + ml] == others[k]);
            assert(region_entry_of(others[k], idx[k], pv, flags, ranges));
        }
    }
    (owner, pos)
}

impl<D> DwarfRegistry<D> {
    pub closed spec fn pid_view(&self) -> i32 {
        self.pid
    }

    pub closed spec fn program_view(&self) -> Seq<char> {
        self.program_path@
    }

    /// Paths of registered files, in registration order.
    pub closed spec fn paths_view(&self) -> Seq<Seq<char>> {
        self.files@.map_values(|f: RegistryFile<D>| f.path@)
    }

    /// Debug information of registered files, in registration order.
    pub closed spec fn dwarfs_view(&self) -> Seq<D> {
        self.files@.map_values(|f: RegistryFile<D>| f.dwarf)
    }

    pub closed spec fn ranges_view(&self) -> Seq<(Seq<char>, RegionRange)> {
        ranges_model(self.ranges@)
    }

    pub closed spec fn mappings_view(&self) -> Seq<(Seq<char>, usize)> {
        mappings_model(self.mappings@)
    }

    /// Registered paths are distinct and regions are ordered by start address.
    pub open spec fn wf(&self) -> bool {
        &&& forall|i: int, j: int|
            0 <= i < j < self.paths_view().len() ==> self.paths_view()[i] != self.paths_view()[j]
        &&& ranges_sorted(self.ranges_view())
        &&& self.paths_view().len() == self.dwarfs_view().len()
    }

    /// Create new registry.
    ///
    /// # Arguments
    ///
    /// * `pid`: program process pid
    /// * `program_path`: path to program executable
    /// * `program_dwarf`: program dwarf information
    pub fn new(pid: i32, program_path: String, program_dwarf: D) -> (r: Self)
        ensures
            r.wf(),
            r.pid_view() == pid,
            r.program_view() == program_path@,
            r.paths_view() == seq![program_path@],
            r.dwarfs_view() == seq![program_dwarf],
            r.ranges_view().len() == 0,
            r.mappings_view().len() == 0,
    {
        let path = copy_string(&program_path);
        let mut files = Vec::new();
        files.push(RegistryFile { path, dwarf: program_dwarf });
        let r = DwarfRegistry { pid, program_path, files, ranges: Vec::new(), mappings: Vec::new() };
        assert(r.paths_view() =~= seq![program_path@]);
        assert(r.dwarfs_view() =~= seq![program_dwarf]);
        r
    }

    /// Position of a registered path.
    fn file_pos(&self, path: &str) -> (r: Option<usize>)
        ensures
            match r {
                Some(i) => i < self.paths_view().len() && self.paths_view()[i as int] == path@ && forall|k: int|
                    0 <= k < i ==> self.paths_view()[k] != path@,
                None => !has_path(self.paths_view(), path@),
            },
    {
        let mut i: usize = 0;
        while i < self.files.len()
            invariant
                i <= self.files@.len(),
                forall|k: int| 0 <= k < i ==> self.paths_view()[k] != path@,
            decreases self.files@.len() - i,
        {
            if crate::text::str_eq(self.files[i].path.as_str(), path) {
                return Some(i);
            }
            i = i + 1;
        }
        None
    }

    /// Add new debug information into registry, replacing the one of an
    /// already registered path.
    ///
    /// # Arguments
    ///
    /// * `file`: path to executable object or shared lib
    /// * `dwarf`: parsed dwarf information
    pub fn add(&mut self, file: String, dwarf: D)
        requires
            old(self).wf(),
        ensures
            final(self).wf(),
            has_path(old(self).paths_view(), file@) ==> final(self).paths_view() == old(self).paths_view(),
            !has_path(old(self).paths_view(), file@) ==> final(self).paths_view() == old(self).paths_view().push(file@),
            forall|i: int|
                0 <= i < final(self).paths_view().len() ==> #[trigger] final(self).dwarfs_view()[i] == if final(self).paths_view()[i]
                    == file@ {
                    dwarf
                } else {
                    old(self).dwarfs_view()[i]
                },
            final(self).ranges_view() == old(self).ranges_view(),
            final(self).mappings_view() == old(self).mappings_view(),
            final(self).program_view() == old(self).program_view(),
            final(self).pid_view() == old(self).pid_view(),
    {
        match self.file_pos(file.as_str()) {
            Some(i) => {
                let ghost before = self.files@;
                let path = copy_string(&self.files[i].path);
                self.files.set(i, RegistryFile { path, dwarf });
                proof {
                    assert(self.paths_view() =~= old(self).paths_view());
                    assert forall|k: int|
                        0 <= k < self.paths_view().len() implies #[trigger] self.dwarfs_view()[k] == if self.paths_view()[k] == file@ {
                        dwarf
                    } else {
                        old(self).dwarfs_view()[k]
                    } by {
                        if k != i {
                            assert(self.files@[k] == before[k]);
                        }
                    }
                }
            },
            None => {
                let ghost before = self.files@;
                self.files.push(RegistryFile { path: file, dwarf });
                proof {
                    assert(self.paths_view() =~= old(self).paths_view().push(file@));
                    assert forall|k: int|
                        0 <= k < self.paths_view().len() implies #[trigger] self.dwarfs_view()[k] == if self.paths_view()[k] == file@ {
                        dwarf
                    } else {
                        old(self).dwarfs_view()[k]
                    } by {
                        if k < before.len() {
                            assert(self.files@[k] == before[k]);
                            assert(old(self).paths_view()[k] != file@);
                        }
                    }
                }
            },
        }
    }

    /// Remove a file from the registry, with its mapping and its region.
    pub fn remove(&mut self, path: &str)
        requires
            old(self).wf(),
        ensures
            final(self).wf(),
            !has_path(final(self).paths_view(), path@),
            forall|i: int|
                0 <= i < final(self).ranges_view().len() ==> (#[trigger] final(self).ranges_view()[i]).0 != path@,
            forall|i: int|
                0 <= i < final(self).mappings_view().len() ==> (#[trigger] final(self).mappings_view()[i]).0 != path@,
            forall|j: int|
                0 <= j < old(self).mappings_view().len() && old(self).mappings_view()[j].0 != path@ ==> exists|i: int|
                    0 <= i < final(self).mappings_view().len() && #[trigger] final(self).mappings_view()[i]
                        == old(self).mappings_view()[j],
            forall|p: Seq<char>|
                p != path@ ==> (has_path(final(self).paths_view(), p) <==> has_path(old(self).paths_view(), p)),
            final(self).program_view() == old(self).program_view(),
            final(self).pid_view() == old(self).pid_view(),
            final(self).ranges_view() == ranges_without(old(self).ranges_view(), path@),
            final(self).mappings_view() == mappings_without(old(self).mappings_view(), path@),
            has_path(old(self).paths_view(), path@) ==> exists|i: int|
                0 <= i < old(self).paths_view().len() && old(self).paths_view()[i] == path@
                    && final(self).paths_view() == old(self).paths_view().remove(i)
                    && final(self).dwarfs_view() == old(self).dwarfs_view().remove(i),
            !has_path(old(self).paths_view(), path@) ==> final(self).paths_view() == old(self).paths_view()
                && final(self).dwarfs_view() == old(self).dwarfs_view(),
    {
        match self.file_pos(path) {
            Some(i) => {
                let ghost before = self.files@;
                self.files.remove(i);
                proof {
                    let ov = old(self).paths_view();
                    assert(self.paths_view() =~= ov.remove(i as int));
                    assert(self.dwarfs_view() =~= old(self).dwarfs_view().remove(i as int));
                    assert forall|p: Seq<char>|
                        p != path@ implies (has_path(self.paths_view(), p) <==> has_path(ov, p)) by {
                        if has_path(ov, p) {
                            let k = choose|k: int| 0 <= k < ov.len() && ov[k] == p;
                            if k < i {
                                assert(self.paths_view()[k] == p);
                            } else {
                                assert(k != i);
                                assert(self.paths_view()[k - 1] == p);
                            }
                        }
                        if has_path(self.paths_view(), p) {
                            let k = choose|k: int| 0 <= k < self.paths_view().len() && self.paths_view()[k] == p;
                            if k < i {
                                assert(ov[k] == p);
                            } else {
                                assert(ov[k + 1] == p);
                            }
                        }
                    }
                    if has_path(self.paths_view(), path@) {
                        let k = choose|k: int| 0 <= k < self.paths_view().len() && self.paths_view()[k] == path@;
                        if k < i {
                            assert(ov[k] == path@);
                        } else {
                            assert(ov[k + 1] == path@);
                        }
                    }
                }
            },
            None => {},
        }
        let ghost old_m = self.mappings@;
        assert(old_m == old(self).mappings@);
        let new_m = remove_mappings(&self.mappings, path);
        proof {
            assert forall|j: int|
                0 <= j < old(self).mappings_view().len() && old(self).mappings_view()[j].0 != path@ implies exists|i: int|
                    0 <= i < mappings_model(new_m@).len() && #[trigger] mappings_model(new_m@)[i]
                        == old(self).mappings_view()[j] by {
                assert(old(self).mappings_view()[j] == (old_m[j].0@, old_m[j].1));
                let i = choose|i: int|
                    0 <= i < new_m@.len() && (#[trigger] new_m@[i]).0@ == old_m[j].0@ && new_m@[i].1 == old_m[j].1;
                assert(mappings_model(new_m@)[i] == (new_m@[i].0@, new_m@[i].1));
            }
        }
        self.mappings = new_m;
        self.ranges = remove_ranges(&self.ranges, path);
        assert(self.mappings_view() == mappings_model(new_m@));
    }

    /// Calculate a difference between two list of paths - already parsed libs list (from this registry)
    /// and target list of libraries in argument. This difference using for create a
    /// [`ReloadPlan`] - an indication to the caller which library can be deleted from registry and which
    /// need to be parsed and add to the registry. After this plan is executed registry will contains
    /// libraries from `target` list.
    ///
    /// # Arguments
    ///
    /// * `target`: list of shared libraries paths
    pub fn reload_plan(&self, target: Vec<String>) -> (r: ReloadPlan)
        requires
            self.wf(),
        ensures
            strings_view(r.to_del@) == paths_to_delete(self.paths_view(), strings_view(target@), self.program_view()),
            strings_view(r.to_del@).no_duplicates(),
            strings_view(r.to_add@) == paths_to_add(self.paths_view(), strings_view(target@)),
    {
        let ghost tv = strings_view(target@);
        let ghost cur = self.paths_view();
        let mut to_del: Vec<String> = Vec::new();
        let mut i: usize = 0;
        while i < self.files.len()
            invariant
                i <= self.files@.len(),
                cur == self.paths_view(),
                tv == strings_view(target@),
                strings_view(to_del@) == paths_to_delete(cur.subrange(0, i as int), tv, self.program_view()),
            decreases self.files@.len() - i,
        {
            let p = &self.files[i].path;
            proof {
                assert(cur.subrange(0, i + 1).drop_last() =~= cur.subrange(0, i as int));
                assert(cur.subrange(0, i + 1).last() == p@);
            }
            let in_target = contains_path(&target, p.as_str());
            if !in_target && !string_eq(p, &self.program_path) {
                let c = copy_string(p);
                let ghost before = to_del@;
                to_del.push(c);
                proof {
                    assert(strings_view(to_del@) =~= strings_view(before).push(c@));
                }
            }
            i = i + 1;
        }
        proof {
            assert(cur.subrange(0, i as int) =~= cur);
            lemma_paths_to_delete_distinct(cur, tv, self.program_view());
        }
        let mut to_add: Vec<String> = Vec::new();
        let mut j: usize = 0;
        while j < target.len()
            invariant
                j <= target@.len(),
                cur == self.paths_view(),
                tv == strings_view(target@),
                strings_view(to_add@) == paths_to_add(cur, tv.subrange(0, j as int)),
            decreases target@.len() - j,
        {
            let t = &target[j];
            proof {
                assert(tv.subrange(0, j + 1).drop_last() =~= tv.subrange(0, j as int));
                assert(tv.subrange(0, j + 1).last() == t@);
            }
            let known = self.file_pos(t.as_str()).is_some();
            if !known {
                let c = copy_string(t);
                let ghost before = to_add@;
                to_add.push(c);
                proof {
                    assert(strings_view(to_add@) =~= strings_view(before).push(c@));
                }
            }
            j = j + 1;
        }
        proof {
            assert(tv.subrange(0, j as int) =~= tv);
        }
        ReloadPlan { to_del, to_add }
    }

    /// Replace mappings and regions with the ones computed from the memory map
    /// of the process: for each file, its mapping offset and its region.
    /// Regions are kept ordered by their start address.
    pub fn set_mappings(&mut self, mappings: Vec<(String, usize)>, ranges: Vec<(String, RegionRange)>)
        requires
            old(self).wf(),
        ensures
            final(self).wf(),
            final(self).mappings_view() == mappings_model(mappings@),
            final(self).ranges_view().len() == ranges@.len(),
            final(self).ranges_view().to_multiset() == ranges_model(ranges@).to_multiset(),
            final(self).paths_view() == old(self).paths_view(),
            final(self).dwarfs_view() == old(self).dwarfs_view(),
            final(self).program_view() == old(self).program_view(),
            final(self).pid_view() == old(self).pid_view(),
    {
        let sorted = sort_ranges(ranges);
        self.mappings = mappings;
        self.ranges = sorted;
    }

    /// Registered paths, in registration order.
    pub fn paths(&self) -> (r: Vec<String>)
        ensures
            strings_view(r@) == self.paths_view(),
    {
        let mut r: Vec<String> = Vec::new();
        let mut i: usize = 0;
        while i < self.files.len()
            invariant
                i <= self.files@.len(),
                strings_view(r@) == self.paths_view().take(i as int),
            decreases self.files@.len() - i,
        {
            let ghost before = r@;
            r.push(copy_string(&self.files[i].path));
            proof {
                assert(strings_view(r@) =~= strings_view(before).push(self.files@[i as int].path@));
                assert(self.paths_view().take(i + 1) =~= self.paths_view().take(i as int).push(self.files@[i as int].path@));
            }
            i = i + 1;
        }
        proof {
            assert(self.paths_view().take(i as int) =~= self.paths_view());
        }
        r
    }

    /// Update mappings and regions from the memory map of the process, which
    /// must be read after the program is loaded into memory (see
    /// [`file_region`]). For each registered file, in registration order,
    /// `canonical` holds its canonical path and `text` its text range, if
    /// known. Returns an error for each file that no region maps.
    ///
    /// # Arguments
    ///
    /// * `only_main`: if true - update mappings only for main executable file, false - update all
    pub fn update_mappings(
        &mut self,
        maps: &[MapRange],
        canonical: &[String],
        text: &[Option<Range>],
        only_main: bool,
    ) -> (r: Vec<Error>)
        requires
            old(self).wf(),
            canonical@.len() == old(self).paths_view().len(),
            text@.len() == old(self).paths_view().len(),
            regions_fit(maps@, text@),
        ensures
            final(self).wf(),
            final(self).mappings_view() == new_mappings(
                old(self).paths_view(),
                strings_view(canonical@),
                text@,
                maps@,
                old(self).program_view(),
                only_main,
            ),
            final(self).ranges_view().to_multiset() == new_regions(
                old(self).paths_view(),
                strings_view(canonical@),
                text@,
                maps@,
                old(self).program_view(),
                only_main,
            ).to_multiset(),
            r@.len() == unmapped_files(
                old(self).paths_view(),
                strings_view(canonical@),
                text@,
                maps@,
                old(self).program_view(),
                only_main,
            ).len(),
            forall|k: int|
                0 <= k < r@.len() ==> ((#[trigger] r@[k]) matches Error::MappingNotFound(p) && p@ == unmapped_files(
                    old(self).paths_view(),
                    strings_view(canonical@),
                    text@,
                    maps@,
                    old(self).program_view(),
                    only_main,
                )[k]),
            final(self).paths_view() == old(self).paths_view(),
            final(self).dwarfs_view() == old(self).dwarfs_view(),
            final(self).program_view() == old(self).program_view(),
            final(self).pid_view() == old(self).pid_view(),
    {
        let ghost pv = self.paths_view();
        let ghost cv = strings_view(canonical@);
        let ghost prog = self.program_view();
        let mut mappings: Vec<(String, usize)> = Vec::new();
        let mut ranges: Vec<(String, RegionRange)> = Vec::new();
        let mut errors: Vec<Error> = Vec::new();
        let mut i: usize = 0;
        while i < self.files.len()
            invariant
                i <= pv.len(),
                pv == self.paths_view(),
                prog == self.program_view(),
                cv == strings_view(canonical@),
                canonical@.len() == pv.len(),
                text@.len() == pv.len(),
                self.files@.len() == pv.len(),
                regions_fit(maps@, text@),
                mappings_model(mappings@) == new_mappings(pv.take(i as int), cv.take(i as int), text@.take(i as int), maps@, prog, only_main),
                ranges_model(ranges@) == new_regions(pv.take(i as int), cv.take(i as int), text@.take(i as int), maps@, prog, only_main),
                errors@.len() == unmapped_files(pv.take(i as int), cv.take(i as int), text@.take(i as int), maps@, prog, only_main).len(),
                forall|k: int|
                    0 <= k < errors@.len() ==> ((#[trigger] errors@[k]) matches Error::MappingNotFound(p) && p@ == unmapped_files(
                        pv.take(i as int),
                        cv.take(i as int),
                        text@.take(i as int),
                        maps@,
                        prog,
                        only_main,
                    )[k]),
            decreases pv.len() - i,
        {
            proof {
                assert(pv.take(i + 1).drop_last() =~= pv.take(i as int));
                assert(cv.take(i + 1).drop_last() =~= cv.take(i as int));
                assert(text@.take(i + 1).drop_last() =~= text@.take(i as int));
                assert(pv.take(i + 1).last() == pv[i as int]);
                assert(cv.take(i + 1).last() == canonical@[i as int]@);
                assert(text@.take(i + 1).last() == text@[i as int]);
                assert(pv[i as int] == self.files@[i as int].path@);
            }
            let selected = !only_main || crate::text::string_eq(&self.files[i].path, &self.program_path);
            if selected {
                proof {
                    assert forall|j: int| 0 <= j < maps@.len() implies (#[trigger] maps@[j]).start + maps@[j].size <= usize::MAX by {}
                    assert forall|a: int, j: int|
                        0 <= a < seq![text@[i as int]].len() && 0 <= j < maps@.len() implies (#[trigger] seq![text@[i as int]][a] matches Some(r) ==> (r.begin as usize)
                            + (#[trigger] maps@[j]).start <= usize::MAX && (r.end as usize) + maps@[j].start <= usize::MAX) by {
                        assert(seq![text@[i as int]][a] == text@[i as int]);
                    }
                }
                match compute_file_region(maps, &canonical[i], text[i]) {
                    Some((m, region)) => {
                        let ghost mb = mappings@;
                        let ghost rb = ranges@;
                        mappings.push((copy_string(&self.files[i].path), m));
                        ranges.push((copy_string(&self.files[i].path), region));
                        proof {
                            assert(mappings_model(mappings@) =~= mappings_model(mb).push((pv[i as int], m)));
                            assert(ranges_model(ranges@) =~= ranges_model(rb).push((pv[i as int], region)));
                        }
                    },
                    None => {
                        errors.push(Error::MappingNotFound(copy_string(&self.files[i].path)));
                    },
                }
            }
            i = i + 1;
        }
        proof {
            assert(pv.take(i as int) =~= pv);
            assert(cv.take(i as int) =~= cv);
            assert(text@.take(i as int) =~= text@);
        }
        self.set_mappings(mappings, ranges);
        errors
    }

    /// Region of a registered file, if it has one.
    fn file_region_of(&self, path: &String) -> (r: Option<RegionRange>)
        ensures
            r == region_of(self.ranges_view(), path@),
    {
        let mut i: usize = 0;
        assert(self.ranges_view().skip(0) =~= self.ranges_view());
        while i < self.ranges.len()
            invariant
                i <= self.ranges@.len(),
                region_of(self.ranges_view(), path@) == region_of(self.ranges_view().skip(i as int), path@),
            decreases self.ranges@.len() - i,
        {
            proof {
                assert(self.ranges_view().skip(i as int)[0] == (self.ranges@[i as int].0@, self.ranges@[i as int].1));
                assert(self.ranges_view().skip(i as int).drop_first() =~= self.ranges_view().skip(i + 1));
            }
            if string_eq(&self.ranges[i].0, path) {
                return Some(self.ranges[i].1);
            }
            i = i + 1;
        }
        None
    }

    /// Return a list of mapped regions, main executable region at first
    /// place, then the other files by path: the path of each file, whether
    /// it has debug information (given by `has_debug_info`, in registration
    /// order) and its region, if known.
    pub fn dump(&self, has_debug_info: &[bool]) -> (r: Vec<RegionInfo>)
        requires
            self.wf(),
            has_debug_info@.len() == self.paths_view().len(),
        ensures
            forall|k1: int, k2: int| 0 <= k1 < k2 < r@.len() ==> (#[trigger] r@[k1]).path@ != (#[trigger] r@[k2]).path@,
            forall|k: int|
                0 <= k < r@.len() ==> exists|j: int|
                    0 <= j < self.paths_view().len() && (#[trigger] r@[k]).path@ == self.paths_view()[j]
                        && r@[k].has_debug_info == has_debug_info@[j] && r@[k].range == region_of(
                        self.ranges_view(),
                        self.paths_view()[j],
                    ),
            forall|j: int|
                #![trigger self.paths_view()[j]]
                0 <= j < self.paths_view().len() ==> exists|k: int| #![trigger r@[k]] 0 <= k < r@.len() && r@[k].path@ == self.paths_view()[j],
            has_path(self.paths_view(), self.program_view()) ==> r@[0].path@ == self.program_view(),
            forall|k: int|
                0 <= k && k + 1 < r@.len() && (k > 0 || !has_path(self.paths_view(), self.program_view())) ==> path_lt(
                    (#[trigger] r@[k]).path@,
                    r@[k + 1].path@,
                ),
    {
        let ghost pv = self.paths_view();
        let ghost prog = self.program_view();
        let ghost flags = has_debug_info@;
        let ghost rv = self.ranges_view();
        let mut main: Vec<RegionInfo> = Vec::new();
        let mut others: Vec<RegionInfo> = Vec::new();
        let ghost mut idx: Seq<int> = Seq::empty();
        proof {
            lemma_others_start(pv, prog, flags, rv);
        }
        let mut i: usize = 0;
        while i < self.files.len()
            invariant
                i <= pv.len(),
                pv == self.paths_view(),
                prog == self.program_view(),
                flags == has_debug_info@,
                rv == self.ranges_view(),
                self.wf(),
                self.files@.len() == pv.len(),
                flags.len() == pv.len(),
                main@.len() <= 1,
                main@.len() == 1 <==> has_path(pv.take(i as int), prog),
                main@.len() == 1 ==> main@[0].path@ == prog && exists|j: int| #[trigger] region_entry_of(main@[0], j, pv, flags, rv),
                others_listed(others@, idx, i as int, pv, prog, flags, rv),
                others_cover(idx, i as int, pv, prog),
                paths_ascending(others@),
            decreases pv.len() - i,
        {
            let path = copy_string(&self.files[i].path);
            let info = RegionInfo { path, has_debug_info: has_debug_info[i], range: self.file_region_of(&self.files[i].path) };
            proof {
                assert(pv[i as int] == self.files@[i as int].path@);
                assert(pv.take(i + 1) =~= pv.take(i as int).push(pv[i as int]));
                assert(region_entry_of(info, i as int, pv, flags, rv));
            }
            if string_eq(&self.files[i].path, &self.program_path) {
                proof {
                    assert forall|j: int| 0 <= j < i implies pv[j] != prog by {
                        assert(pv[j] != pv[i as int]);
                    }
                    assert(!has_path(pv.take(i as int), prog));
                    assert(pv.take(i + 1)[i as int] == prog);
                    lemma_others_skip(others@, idx, i as int, pv, prog, flags, rv);
                }
                main.push(info);
            } else {
                let ghost old_others = others@;
                let ghost old_idx = idx;
                proof {
                    reveal(others_listed);
                    assert forall|k: int| 0 <= k < old_others.len() implies (#[trigger] old_others[k]).path@ != info.path@ by {
                        assert(pv[idx[k]] != pv[i as int]);
                    }
                    if has_path(pv.take(i + 1), prog) {
                        let j = choose|j: int| #![trigger pv.take(i + 1)[j]] 0 <= j < pv.take(i + 1).len() && pv.take(i + 1)[j] == prog;
                        assert(j < i);
                        assert(has_path(pv.take(i as int), prog));
                    }
                    if has_path(pv.take(i as int), prog) {
                        let j = choose|j: int| #![trigger pv.take(i as int)[j]] 0 <= j < pv.take(i as int).len() && pv.take(i as int)[j] == prog;
                        assert(pv.take(i + 1)[j] == prog);
                    }
                }
                let p = insert_by_path(&mut others, info);
                proof {
                    lemma_others_insert(old_others, old_idx, i as int, pv, prog, flags, rv, p as int, info);
                    idx = old_idx.insert(p as int, i as int);
                }
            }
            i = i + 1;
        }
        proof {
            assert(pv.take(i as int) =~= pv);
        }
        let ghost m0 = main@;
        let ghost o = others@;
        main.append(&mut others);
        proof {
            let (owner, pos) = lemma_dump_result(m0, o, idx, pv, prog, flags, rv);
            assert(main@ =~= m0 + o);
            assert forall|k: int|
                0 <= k && k + 1 < main@.len() && (k > 0 || !has_path(pv, prog)) implies path_lt(
                (#[trigger] main@[k]).path@,
                main@[k + 1].path@,
            ) by {
                assert(main@[k + 1] == o[k + 1 - m0.len()]);
                assert(main@[k] == o[k - m0.len()]);
            }
            assert forall|k: int|
                0 <= k < main@.len() implies exists|j: int|
                    0 <= j < pv.len() && (#[trigger] main@[k]).path@ == pv[j] && main@[k].has_debug_info == flags[j]
                        && main@[k].range == region_of(rv, pv[j]) by {
                assert(region_entry_of(main@[k], owner[k], pv, flags, rv));
            }
            assert forall|j: int|
                #![trigger pv[j]]
                0 <= j < pv.len() implies exists|k: int| #![trigger main@[k]] 0 <= k < main@.len() && main@[k].path@ == pv[j] by {
                assert(0 <= pos[j] < main@.len() && main@[pos[j]].path@ == pv[j]);
            }
        }
        main
    }

    /// Return the region that contains an address.
    pub fn find_range(&self, addr: RelocatedAddress) -> (r: Option<&(String, RegionRange)>)
        requires
            self.wf(),
        ensures
            r matches Some(e) ==> range_contains(e.1, addr.0) && exists|i: int|
                0 <= i < self.ranges_view().len() && self.ranges_view()[i] == (e.0@, e.1),
            r is None && ranges_disjoint(self.ranges_view()) ==> forall|i: int|
                0 <= i < self.ranges_view().len() ==> !range_contains(#[trigger] self.ranges_view()[i].1, addr.0),
    {
        let ghost rv = self.ranges_view();
        let mut lo: usize = 0;
        let mut hi: usize = self.ranges.len();
        while lo < hi
            invariant
                lo <= hi <= self.ranges@.len(),
                rv == self.ranges_view(),
                ranges_sorted(rv),
                ranges_disjoint(rv) ==> forall|k: int|
                    (0 <= k < lo || hi <= k < rv.len()) ==> !range_contains(#[trigger] rv[k].1, addr.0),
            decreases hi - lo,
        {
            let mid = lo + (hi - lo) / 2;
            let range = &self.ranges[mid].1;
            assert(rv[mid as int].1 == *range);
            if addr.0 >= range.from.0 && addr.0 <= range.to.0 {
                return Some(&self.ranges[mid]);
            } else if range.from.0 > addr.0 {
                proof {
                    assert forall|k: int| mid <= k < rv.len() implies !range_contains(#[trigger] rv[k].1, addr.0) by {
                        assert(rv[mid as int].1.from.0 <= rv[k].1.from.0);
                    }
                }
                hi = mid;
            } else {
                proof {
                    if ranges_disjoint(rv) {
                        assert forall|k: int| 0 <= k <= mid implies !range_contains(#[trigger] rv[k].1, addr.0) by {
                            if k < mid {
                                assert(rv[k].1.to.0 < rv[mid as int].1.from.0);
                            }
                        }
                    }
                }
                lo = mid + 1;
            }
        }
        None
    }

    /// Return debug information that describes .text section determined by given address.
    ///
    /// # Arguments
    ///
    /// * `addr`: memory address that determine .text section.
    pub fn find_by_addr(&self, addr: RelocatedAddress) -> (r: Option<&D>)
        requires
            self.wf(),
        ensures
            r matches Some(d) ==> exists|i: int, j: int|
                0 <= i < self.ranges_view().len() && 0 <= j < self.paths_view().len()
                    && range_contains(self.ranges_view()[i].1, addr.0) && self.ranges_view()[i].0
                    == self.paths_view()[j] && self.dwarfs_view()[j] == *d,
            r is None && ranges_disjoint(self.ranges_view()) ==> forall|i: int|
                0 <= i < self.ranges_view().len() && range_contains(#[trigger] self.ranges_view()[i].1, addr.0)
                    ==> !has_path(self.paths_view(), self.ranges_view()[i].0),
    {
        let (path, range) = match self.find_range(addr) {
            Some(e) => e,
            None => {
                return None;
            },
        };
        let r = self.find_by_file(path.as_str());
        proof {
            let rv = self.ranges_view();
            if r is None && ranges_disjoint(rv) {
                let i0 = choose|i: int| 0 <= i < rv.len() && rv[i] == (path@, *range);
                assert forall|i: int|
                    0 <= i < rv.len() && range_contains(#[trigger] rv[i].1, addr.0) implies !has_path(
                    self.paths_view(),
                    rv[i].0,
                ) by {
                    lemma_disjoint_single(rv, addr.0, i, i0);
                }
            }
        }
        r
    }

    /// Return debug information extracted from file.
    ///
    /// # Arguments
    ///
    /// * `path`: already parsed file contains debug information.
    pub fn find_by_file(&self, path: &str) -> (r: Option<&D>)
        requires
            self.wf(),
        ensures
            r is Some <==> has_path(self.paths_view(), path@),
            r matches Some(d) ==> exists|j: int|
                0 <= j < self.paths_view().len() && self.paths_view()[j] == path@ && self.dwarfs_view()[j] == *d,
    {
        match self.file_pos(path) {
            Some(i) => Some(&self.files[i].dwarf),
            None => None,
        }
    }

    /// Find main executable object debug information.
    pub fn find_main_program_dwarf(&self) -> (r: Option<&D>)
        requires
            self.wf(),
        ensures
            r is Some <==> has_path(self.paths_view(), self.program_view()),
    {
        self.find_by_file(self.program_path.as_str())
    }

    /// Calculate virtual memory region to which the address belongs and return
    /// this region offset.
    ///
    /// # Arguments
    ///
    /// * `addr`: address for determine VAS region.
    pub fn find_mapping_offset(&self, addr: RelocatedAddress) -> (r: Option<usize>)
        requires
            self.wf(),
        ensures
            r matches Some(off) ==> exists|i: int, j: int|
                0 <= i < self.ranges_view().len() && 0 <= j < self.mappings_view().len()
                    && range_contains(self.ranges_view()[i].1, addr.0) && self.ranges_view()[i].0
                    == self.mappings_view()[j].0 && self.mappings_view()[j].1 == off && forall|k: int|
                    0 <= k < j ==> self.mappings_view()[k].0 != self.ranges_view()[i].0,
            r is None && ranges_disjoint(self.ranges_view()) ==> forall|i: int, j: int|
                0 <= i < self.ranges_view().len() && range_contains(#[trigger] self.ranges_view()[i].1, addr.0) && 0
                    <= j < self.mappings_view().len() ==> #[trigger] self.mappings_view()[j].0 != self.ranges_view()[i].0,
    {
        let (path, range) = match self.find_range(addr) {
            Some(e) => e,
            None => {
                return None;
            },
        };
        let r = self.find_mapping_offset_for_file(path.as_str());
        proof {
            let rv = self.ranges_view();
            let i0 = choose|i: int| 0 <= i < rv.len() && rv[i] == (path@, *range);
            assert(rv[i0].0 == path@);
            if r is None && ranges_disjoint(rv) {
                assert forall|i: int, j: int|
                    0 <= i < rv.len() && range_contains(#[trigger] rv[i].1, addr.0) && 0 <= j
                        < self.mappings_view().len() implies #[trigger] self.mappings_view()[j].0 != rv[i].0 by {
                    lemma_disjoint_single(rv, addr.0, i, i0);
                }
            }
        }
        r
    }

    /// Return offset of the mapped memory region of a file.
    pub fn find_mapping_offset_for_file(&self, path: &str) -> (r: Option<usize>)
        ensures
            r is Some <==> exists|j: int| 0 <= j < self.mappings_view().len() && self.mappings_view()[j].0 == path@,
            r matches Some(off) ==> exists|j: int|
                0 <= j < self.mappings_view().len() && self.mappings_view()[j].0 == path@ && self.mappings_view()[j].1
                    == off && forall|k: int| 0 <= k < j ==> self.mappings_view()[k].0 != path@,
    {
        let mut i: usize = 0;
        while i < self.mappings.len()
            invariant
                i <= self.mappings@.len(),
                forall|k: int| 0 <= k < i ==> self.mappings_view()[k].0 != path@,
            decreases self.mappings@.len() - i,
        {
            if crate::text::str_eq(self.mappings[i].0.as_str(), path) {
                assert(self.mappings_view()[i as int] == (self.mappings@[i as int].0@, self.mappings@[i as int].1));
                return Some(self.mappings[i].1);
            }
            i = i + 1;
        }
        None
    }

    /// Create new [`DwarfRegistry`] with same debug information, for a new process.
    /// Mappings and regions must be computed again.
    pub fn extend(&self, new_pid: i32) -> (r: DwarfRegistry<D>)
        where
            D: Copy,
        requires
            self.wf(),
        ensures
            r.wf(),
            r.pid_view() == new_pid,
            r.program_view() == self.program_view(),
            r.paths_view() == self.paths_view(),
            r.dwarfs_view() == self.dwarfs_view(),
            r.ranges_view().len() == 0,
            r.mappings_view().len() == 0,
    {
        let mut files: Vec<RegistryFile<D>> = Vec::new();
        let mut i: usize = 0;
        while i < self.files.len()
            invariant
                i <= self.files@.len(),
                files@.len() == i,
                forall|k: int| 0 <= k < i ==> (#[trigger] files@[k]).path@ == self.files@[k].path@ && files@[k].dwarf
                    == self.files@[k].dwarf,
            decreases self.files@.len() - i,
        {
            let path = copy_string(&self.files[i].path);
            files.push(RegistryFile { path, dwarf: self.files[i].dwarf });
            i = i + 1;
        }
        let r = DwarfRegistry {
            pid: new_pid,
            program_path: copy_string(&self.program_path),
            files,
            ranges: Vec::new(),
            mappings: Vec::new(),
        };
        assert(r.paths_view() =~= self.paths_view());
        assert(r.dwarfs_view() =~= self.dwarfs_view());
        r
    }
}

/// Whether a path is in a list of paths.
fn contains_path(paths: &Vec<String>, p: &str) -> (r: bool)
    ensures
        r == has_path(strings_view(paths@), p@),
{
    let mut i: usize = 0;
    while i < paths.len()
        invariant
            i <= paths@.len(),
            forall|k: int| 0 <= k < i ==> paths@[k]@ != p@,
        decreases paths@.len() - i,
    {
        if crate::text::str_eq(paths[i].as_str(), p) {
            assert(strings_view(paths@)[i as int] == p@);
            return true;
        }
        i = i + 1;
    }
    false
}

/// Mappings without the ones of a path.
/// Mappings whose path is not `path`, in the same order.
pub open spec fn mappings_without(mappings: Seq<(Seq<char>, usize)>, path: Seq<char>) -> Seq<(Seq<char>, usize)>
    decreases mappings.len(),
{
    if mappings.len() == 0 {
        Seq::empty()
    } else {
        let rest = mappings_without(mappings.drop_last(), path);
        if mappings.last().0 == path {
            rest
        } else {
            rest.push(mappings.last())
        }
    }
}

fn remove_mappings(mappings: &Vec<(String, usize)>, path: &str) -> (r: Vec<(String, usize)>)
    ensures
        mappings_model(r@) == mappings_without(mappings_model(mappings@), path@),
        forall|i: int| 0 <= i < r@.len() ==> (#[trigger] r@[i]).0@ != path@,
        forall|j: int|
            0 <= j < mappings@.len() && mappings@[j].0@ != path@ ==> exists|i: int|
                0 <= i < r@.len() && (#[trigger] r@[i]).0@ == mappings@[j].0@ && r@[i].1 == mappings@[j].1,
{
    let mut r: Vec<(String, usize)> = Vec::new();
    let mut i: usize = 0;
    proof {
        assert(mappings_model(r@) =~= mappings_without(mappings_model(mappings@).subrange(0, 0), path@));
    }
    while i < mappings.len()
        invariant
            i <= mappings@.len(),
            forall|k: int| 0 <= k < r@.len() ==> (#[trigger] r@[k]).0@ != path@,
            forall|j: int|
                0 <= j < i && mappings@[j].0@ != path@ ==> exists|k: int|
                    0 <= k < r@.len() && (#[trigger] r@[k]).0@ == mappings@[j].0@ && r@[k].1 == mappings@[j].1,
            mappings_model(r@) == mappings_without(mappings_model(mappings@).subrange(0, i as int), path@),
        decreases mappings@.len() - i,
    {
        proof {
            let mv = mappings_model(mappings@);
            let sub = mv.subrange(0, i + 1);
            assert(sub.drop_last() =~= mv.subrange(0, i as int));
            assert(sub.last() == mv[i as int]);
            assert(mv[i as int] == (mappings@[i as int].0@, mappings@[i as int].1));
        }
        let ghost r0 = r@;
        if !crate::text::str_eq(mappings[i].0.as_str(), path) {
            let e = (copy_string(&mappings[i].0), mappings[i].1);
            let ghost before = r@;
            r.push(e);
            proof {
                assert forall|j: int|
                    0 <= j < i + 1 && mappings@[j].0@ != path@ implies exists|k: int|
                        0 <= k < r@.len() && (#[trigger] r@[k]).0@ == mappings@[j].0@ && r@[k].1 == mappings@[j].1 by {
                    if j < i {
                        let k = choose|k: int|
                            0 <= k < before.len() && (#[trigger] before[k]).0@ == mappings@[j].0@ && before[k].1
                                == mappings@[j].1;
                        assert(r@[k] == before[k]);
                    } else {
                        assert(r@[before.len() as int] == e);
                    }
                }
            }
        }
        proof {
            if r@.len() > r0.len() {
                assert(mappings_model(r@) =~= mappings_model(r0).push(mappings_model(mappings@)[i as int]));
            } else {
                assert(r@ == r0);
            }
        }
        i = i + 1;
    }
    proof {
        assert(mappings_model(mappings@).subrange(0, i as int) =~= mappings_model(mappings@));
    }
    r
}

/// Regions whose path is not `path`, in the same order.
pub open spec fn ranges_without(ranges: Seq<(Seq<char>, RegionRange)>, path: Seq<char>) -> Seq<(Seq<char>, RegionRange)>
    decreases ranges.len(),
{
    if ranges.len() == 0 {
        Seq::empty()
    } else {
        let rest = ranges_without(ranges.drop_last(), path);
        if ranges.last().0 == path {
            rest
        } else {
            rest.push(ranges.last())
        }
    }
}

/// Regions without the ones of a path, in the same order.
fn remove_ranges(ranges: &Vec<(String, RegionRange)>, path: &str) -> (r: Vec<(String, RegionRange)>)
    requires
        ranges_sorted(ranges@.map_values(|r: (String, RegionRange)| (r.0@, r.1))),
    ensures
        ranges_sorted(r@.map_values(|r: (String, RegionRange)| (r.0@, r.1))),
        forall|i: int| 0 <= i < r@.len() ==> (#[trigger] r@[i]).0@ != path@,
        ranges_model(r@) == ranges_without(ranges_model(ranges@), path@),
{
    let ghost rv = ranges@.map_values(|r: (String, RegionRange)| (r.0@, r.1));
    let mut r: Vec<(String, RegionRange)> = Vec::new();
    proof {
        assert(ranges_model(r@) =~= ranges_without(rv.subrange(0, 0), path@));
    }
    let mut i: usize = 0;
    while i < ranges.len()
        invariant
            i <= ranges@.len(),
            rv == ranges@.map_values(|r: (String, RegionRange)| (r.0@, r.1)),
            ranges_sorted(rv),
            forall|k: int| 0 <= k < r@.len() ==> (#[trigger] r@[k]).0@ != path@,
            forall|k: int|
                0 <= k < r@.len() ==> exists|j: int| 0 <= j < i && (#[trigger] r@[k]).1 == rv[j].1,
            forall|a: int, b: int| 0 <= a <= b < r@.len() ==> r@[a].1.from.0 <= r@[b].1.from.0,
            r@.len() > 0 ==> exists|j: int| 0 <= j < i && r@.last().1 == rv[j].1,
            rv == ranges_model(ranges@),
            ranges_model(r@) == ranges_without(rv.subrange(0, i as int), path@),
        decreases ranges@.len() - i,
    {
        proof {
            let sub = rv.subrange(0, i + 1);
            assert(sub.drop_last() =~= rv.subrange(0, i as int));
            assert(sub.last() == rv[i as int]);
            assert(rv[i as int].0 == ranges@[i as int].0@);
        }
        let ghost r0 = r@;
        if !crate::text::str_eq(ranges[i].0.as_str(), path) {
            let e = (copy_string(&ranges[i].0), ranges[i].1);
            let ghost before = r@;
            proof {
                assert(rv[i as int].1 == ranges@[i as int].1);
                if before.len() > 0 {
                    let j = choose|j: int| 0 <= j < i && before.last().1 == rv[j].1;
                    assert forall|a: int| 0 <= a < before.len() implies before[a].1.from.0 <= e.1.from.0 by {
                        assert(before[a].1.from.0 <= before.last().1.from.0);
                    }
                }
            }
            r.push(e);
            proof {
                assert forall|k: int| 0 <= k < r@.len() implies exists|j: int|
                    0 <= j < i + 1 && (#[trigger] r@[k]).1 == rv[j].1 by {
                    if k < before.len() {
                        assert(r@[k] == before[k]);
                    } else {
                        assert(r@[k].1 == rv[i as int].1);
                    }
                }
            }
        }
        proof {
            if r@.len() > r0.len() {
                assert(ranges_model(r@) =~= ranges_model(r0).push(rv[i as int]));
            } else {
                assert(r@ == r0);
            }
        }
        i = i + 1;
    }
    proof {
        assert(rv.subrange(0, i as int) =~= rv);
        let m = r@.map_values(|r: (String, RegionRange)| (r.0@, r.1));
        assert forall|a: int, b: int| 0 <= a <= b < m.len() implies m[a].1.from.0 <= m[b].1.from.0 by {
            assert(m[a].1 == r@[a].1 && m[b].1 == r@[b].1);
        }
    }
    r
}

/// Model of a list of mappings: path views and offsets.
pub open spec fn mappings_model(v: Seq<(String, usize)>) -> Seq<(Seq<char>, usize)> {
    v.map_values(|m: (String, usize)| (m.0@, m.1))
}

/// Model of a list of regions: path views and regions.
pub open spec fn ranges_model(v: Seq<(String, RegionRange)>) -> Seq<(Seq<char>, RegionRange)> {
    v.map_values(|e: (String, RegionRange)| (e.0@, e.1))
}

/// Regions ordered by start address (an insertion sort).
fn sort_ranges(ranges: Vec<(String, RegionRange)>) -> (r: Vec<(String, RegionRange)>)
    ensures
        ranges_sorted(ranges_model(r@)),
        r@.len() == ranges@.len(),
        ranges_model(r@).to_multiset() == ranges_model(ranges@).to_multiset(),
{
    broadcast use vstd::seq_lib::group_to_multiset_ensures;

    let mut rem = ranges;
    let ghost orig = ranges_model(rem@);
    let mut out: Vec<(String, RegionRange)> = Vec::new();
    proof {
        assert(ranges_model(out@) =~= Seq::<(Seq<char>, RegionRange)>::empty());
        assert(ranges_model(out@).to_multiset() =~= Multiset::empty());
        assert(orig.to_multiset() =~= ranges_model(rem@).to_multiset().add(ranges_model(out@).to_multiset()));
    }
    while rem.len() > 0
        invariant
            rem@.len() + out@.len() == orig.len(),
            orig.to_multiset() == ranges_model(rem@).to_multiset().add(ranges_model(out@).to_multiset()),
            forall|a: int, b: int| 0 <= a <= b < out@.len() ==> out@[a].1.from.0 <= out@[b].1.from.0,
        decreases rem@.len(),
    {
        let ghost rem_before = rem@;
        let ghost out_before = out@;
        let x = rem.pop().unwrap();
        let mut pos: usize = 0;
        while pos < out.len() && out[pos].1.from.0 <= x.1.from.0
            invariant
                pos <= out@.len(),
                out@ == out_before,
                forall|k: int| 0 <= k < pos ==> out@[k].1.from.0 <= x.1.from.0,
            decreases out@.len() - pos,
        {
            pos = pos + 1;
        }
        out.insert(pos, x);
        proof {
            let fx = (x.0@, x.1);
            assert(rem_before =~= rem@.push(x));
            assert(ranges_model(rem_before) =~= ranges_model(rem@).push(fx));
            assert(ranges_model(out@) =~= ranges_model(out_before).insert(pos as int, fx));
            vstd::seq_lib::to_multiset_build(ranges_model(rem@), fx);
            vstd::seq_lib::to_multiset_insert(ranges_model(out_before), pos as int, fx);
            assert(ranges_model(rem_before).to_multiset() == ranges_model(rem@).to_multiset().insert(fx));
            assert(ranges_model(out@).to_multiset() == ranges_model(out_before).to_multiset().insert(fx));
            assert(orig.to_multiset() =~= ranges_model(rem@).to_multiset().add(ranges_model(out@).to_multiset()));
            assert forall|a: int, b: int| 0 <= a <= b < out@.len() implies out@[a].1.from.0 <= out@[b].1.from.0 by {
                if a < pos as int && b == pos as int {
                } else if a < pos as int && b > pos as int {
                    assert(out@[b] == out_before[b - 1]);
                    assert(out_before[a].1.from.0 <= out_before[b - 1].1.from.0);
                } else if a == pos as int && b > pos as int {
                    assert(out@[b] == out_before[b - 1]);
                    assert(pos < out_before.len());
                    assert(out_before[pos as int].1.from.0 > x.1.from.0);
                    assert(out_before[pos as int].1.from.0 <= out_before[b - 1].1.from.0);
                } else if a > pos as int {
                    assert(out@[a] == out_before[a - 1]);
                    assert(out@[b] == out_before[b - 1]);
                } else if b < pos as int {
                    assert(out@[a] == out_before[a]);
                    assert(out@[b] == out_before[b]);
                }
            }
        }
    }
    proof {
        assert(ranges_model(rem@) =~= Seq::<(Seq<char>, RegionRange)>::empty());
        assert(ranges_model(rem@).to_multiset() =~= Multiset::empty());
        assert(orig.to_multiset() =~= ranges_model(out@).to_multiset());
        let m = ranges_model(out@);
        assert forall|a: int, b: int| 0 <= a <= b < m.len() implies m[a].1.from.0 <= m[b].1.from.0 by {
            assert(m[a].1 == out@[a].1 && m[b].1 == out@[b].1);
        }
    }
    out
}

/// Of disjoint regions, at most one contains an address.
proof fn lemma_disjoint_single(rv: Seq<(Seq<char>, RegionRange)>, addr: usize, i: int, j: int)
    requires
        ranges_disjoint(rv),
        0 <= i < rv.len(),
        0 <= j < rv.len(),
        range_contains(rv[i].1, addr),
        range_contains(rv[j].1, addr),
    ensures
        i == j,
{
    if i < j {
        assert(rv[i].1.to.0 < rv[j].1.from.0);
    } else if j < i {
        assert(rv[j].1.to.0 < rv[i].1.from.0);
    }
}

/// A path is to be deleted when it is registered, not wanted any more, and
/// not the program itself.
proof fn lemma_delete_has_path(current: Seq<Seq<char>>, target: Seq<Seq<char>>, program: Seq<char>, p: Seq<char>)
    ensures
        has_path(paths_to_delete(current, target, program), p) <==> (has_path(current, p) && !has_path(target, p)
            && p != program),
    decreases current.len(),
{
    if current.len() > 0 {
        let d = current.drop_last();
        lemma_delete_has_path(d, target, program, p);
        let rest = paths_to_delete(d, target, program);
        assert(has_path(current, p) <==> (has_path(d, p) || current.last() == p)) by {
            if has_path(current, p) {
                let i = choose|i: int| 0 <= i < current.len() && current[i] == p;
                if i < current.len() - 1 {
                    assert(d[i] == p);
                }
            }
            if has_path(d, p) {
                let i = choose|i: int| 0 <= i < d.len() && d[i] == p;
                assert(current[i] == p);
            }
            if current.last() == p {
                assert(current[current.len() - 1] == p);
            }
        }
        if !has_path(target, current.last()) && current.last() != program {
            assert(has_path(rest.push(current.last()), p) <==> (has_path(rest, p) || current.last() == p)) by {
                let q = rest.push(current.last());
                if has_path(q, p) {
                    let i = choose|i: int| 0 <= i < q.len() && q[i] == p;
                    if i < rest.len() {
                        assert(rest[i] == p);
                    }
                }
                if has_path(rest, p) {
                    let i = choose|i: int| 0 <= i < rest.len() && rest[i] == p;
                    assert(q[i] == p);
                }
                if current.last() == p {
                    assert(q[q.len() - 1] == p);
                }
            }
        }
    }
}

/// A path is to be added when it is wanted and not registered.
proof fn lemma_add_has_path(current: Seq<Seq<char>>, target: Seq<Seq<char>>, p: Seq<char>)
    ensures
        has_path(paths_to_add(current, target), p) <==> (has_path(target, p) && !has_path(current, p)),
    decreases target.len(),
{
    if target.len() > 0 {
        let d = target.drop_last();
        lemma_add_has_path(current, d, p);
        let rest = paths_to_add(current, d);
        assert(has_path(target, p) <==> (has_path(d, p) || target.last() == p)) by {
            if has_path(target, p) {
                let i = choose|i: int| 0 <= i < target.len() && target[i] == p;
                if i < target.len() - 1 {
                    assert(d[i] == p);
                }
            }
            if has_path(d, p) {
                let i = choose|i: int| 0 <= i < d.len() && d[i] == p;
                assert(target[i] == p);
            }
            if target.last() == p {
                assert(target[target.len() - 1] == p);
            }
        }
        if !has_path(current, target.last()) {
            assert(has_path(rest.push(target.last()), p) <==> (has_path(rest, p) || target.last() == p)) by {
                let q = rest.push(target.last());
                if has_path(q, p) {
                    let i = choose|i: int| 0 <= i < q.len() && q[i] == p;
                    if i < rest.len() {
                        assert(rest[i] == p);
                    }
                }
                if has_path(rest, p) {
                    let i = choose|i: int| 0 <= i < rest.len() && rest[i] == p;
                    assert(q[i] == p);
                }
                if target.last() == p {
                    assert(q[q.len() - 1] == p);
                }
            }
        }
    }
}

/// Once a reload plan is carried out (its paths to delete removed from the
/// registered paths, its paths to add added), the registry holds exactly the
/// target paths, and the program path if it was registered.
pub proof fn lemma_reload_plan_reaches_target(current: Seq<Seq<char>>, target: Seq<Seq<char>>, program: Seq<char>, p: Seq<char>)
    ensures
        ({
            let del = paths_to_delete(current, target, program);
            let add = paths_to_add(current, target);
            let kept = (has_path(current, p) && !has_path(del, p)) || has_path(add, p);
            kept <==> (has_path(target, p) || (p == program && has_path(current, p)))
        }),
{
    lemma_delete_has_path(current, target, program, p);
    lemma_add_has_path(current, target, p);
}

} // verus!
