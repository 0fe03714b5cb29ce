//! DWARF compilation unit: its line table and the places of the program text
//! that the line table describes.

use crate::debugger::debugee::dwarf::{spec_demangle_alternate, spec_namespace_and_name, NamespaceHierarchy};
use crate::debugger::error::Error;
use crate::debugger::debugee::dwarf::utils::{NameIndex, PathSearchIndex};
use std::collections::HashMap;
use crate::text::{as_strs, copy_string, strings_view};
use vstd::prelude::*;

pub mod die_ref;
pub mod parser;
pub mod lazy;



verus! {

broadcast use vstd::std_specs::hash::group_hash_axioms;

pub const IS_STMT: u8 = 2;

pub const PROLOG_END: u8 = 4;

pub const EPILOG_BEGIN: u8 = 8;

pub const END_SEQUENCE: u8 = 16;

/// True when every bit of `mask` is set in `flags`.
pub open spec fn has_flag(flags: u8, mask: u8) -> bool {
    flags & mask == mask
}

/// A row in the line number program's resulting matrix.
#[derive(PartialEq, Eq, Debug, Clone, Copy, Structural)]
pub struct LineRow {
    pub address: u64,
    pub file_index: u64,
    pub line: u64,
    pub column: u64,
    pub flags: u8,
}

impl LineRow {
    /// Row of the line table with flags built from the given row properties.
    pub fn new(
        address: u64,
        file_index: u64,
        line: u64,
        column: u64,
        is_stmt: bool,
        prolog_end: bool,
        epilog_begin: bool,
        end_sequence: bool,
    ) -> (r: LineRow)
        ensures
            r.address == address,
            r.file_index == file_index,
            r.line == line,
            r.column == column,
            r.is_stmt_spec() == is_stmt,
            r.prolog_end_spec() == prolog_end,
            r.epilog_begin_spec() == epilog_begin,
            r.end_sequence_spec() == end_sequence,
    {
        let f1: u8 = if is_stmt {
            IS_STMT
        } else {
            0
        };
        let f2: u8 = if prolog_end {
            PROLOG_END
        } else {
            0
        };
        let f3: u8 = if epilog_begin {
            EPILOG_BEGIN
        } else {
            0
        };
        let f4: u8 = if end_sequence {
            END_SEQUENCE
        } else {
            0
        };
        let flags: u8 = f1 | f2 | f3 | f4;
        assert({
            &&& ((flags & 2u8) == 2u8) == is_stmt
            &&& ((flags & 4u8) == 4u8) == prolog_end
            &&& ((flags & 8u8) == 8u8) == epilog_begin
            &&& ((flags & 16u8) == 16u8) == end_sequence
        }) by (bit_vector)
            requires
                f1 == (if is_stmt { 2u8 } else { 0u8 }),
                f2 == (if prolog_end { 4u8 } else { 0u8 }),
                f3 == (if epilog_begin { 8u8 } else { 0u8 }),
                f4 == (if end_sequence { 16u8 } else { 0u8 }),
                flags == f1 | f2 | f3 | f4,
        ;
        LineRow { address, file_index, line, column, flags }
    }

    pub open spec fn is_stmt_spec(&self) -> bool {
        has_flag(self.flags, IS_STMT)
    }

    pub open spec fn prolog_end_spec(&self) -> bool {
        has_flag(self.flags, PROLOG_END)
    }

    pub open spec fn epilog_begin_spec(&self) -> bool {
        has_flag(self.flags, EPILOG_BEGIN)
    }

    pub open spec fn end_sequence_spec(&self) -> bool {
        has_flag(self.flags, END_SEQUENCE)
    }

    pub fn is_stmt(&self) -> (r: bool)
        ensures
            r == self.is_stmt_spec(),
    {
        self.flags & IS_STMT == IS_STMT
    }

    pub fn prolog_end(&self) -> (r: bool)
        ensures
            r == self.prolog_end_spec(),
    {
        self.flags & PROLOG_END == PROLOG_END
    }

    pub fn epilog_begin(&self) -> (r: bool)
        ensures
            r == self.epilog_begin_spec(),
    {
        self.flags & EPILOG_BEGIN == EPILOG_BEGIN
    }

    pub fn end_sequence(&self) -> (r: bool)
        ensures
            r == self.end_sequence_spec(),
    {
        self.flags & END_SEQUENCE == END_SEQUENCE
    }
}

/// An address range: `begin` included, `end` excluded.
#[derive(PartialEq, Eq, Debug, Clone, Copy, Structural)]
pub struct Range {
    pub begin: u64,
    pub end: u64,
}

/// Like a [`PlaceDescriptor`] but without reference to compilation unit.
#[derive(Debug)]
pub struct PlaceDescriptorOwned {
    pub file: String,
    pub address: u64,
    pub line_number: u64,
    pub pos_in_unit: usize,
    pub is_stmt: bool,
    pub column_number: u64,
    pub epilog_begin: bool,
    pub prolog_end: bool,
}

/// Some of the compilation unit methods may return UnitResult
/// to show that reloading is necessary
pub enum UnitResult<T> {
    Value(T),
    Reload,
}

impl<T> UnitResult<T> {
    /// Return T if a result contains data. Must not be called on `Reload`.
    pub fn ensure_ok(self) -> (r: T)
        requires
            self is Value,
        ensures
            self == UnitResult::Value(r),
    {
        match self {
            UnitResult::Value(val) => val,
            UnitResult::Reload => vstd::pervasive::unreached(),
        }
    }
}

/// Information about a function of a compilation unit.
pub struct FunctionInfo {
    pub namespace: NamespaceHierarchy,
    pub linkage_name: Option<String>,
    pub decl_file_line: Option<(u64, u64)>,
    pub name: Option<String>,
}

/// Copy of an optional string.
fn copy_opt_string(s: &Option<String>) -> (r: Option<String>)
    ensures
        r is Some <==> s is Some,
        r matches Some(x) ==> x@ == s->Some_0@,
{
    match s {
        Some(x) => Some(copy_string(x)),
        None => None,
    }
}

impl FunctionInfo {
    /// If a subprogram die contains a `DW_AT_specification` attribute than this subprogram have
    /// a declaration part in another die.
    /// This function will complete subprogram with
    /// information from its declaration (typically this is a name and linkage_name).
    pub fn complete_from_decl(&mut self, declaration: &FunctionInfo)
        ensures
            old(self).linkage_name is None ==> {
                &&& final(self).namespace@ == declaration.namespace@
                &&& (final(self).linkage_name is Some <==> declaration.linkage_name is Some)
                &&& final(self).linkage_name matches Some(x) ==> x@ == declaration.linkage_name->Some_0@
            },
            old(self).linkage_name is Some ==> {
                &&& final(self).namespace@ == old(self).namespace@
                &&& final(self).linkage_name == old(self).linkage_name
            },
            old(self).name is None ==> {
                &&& (final(self).name is Some <==> declaration.name is Some)
                &&& final(self).name matches Some(x) ==> x@ == declaration.name->Some_0@
            },
            old(self).name is Some ==> final(self).name == old(self).name,
            final(self).decl_file_line == if old(self).decl_file_line is None {
                declaration.decl_file_line
            } else {
                old(self).decl_file_line
            },
    {
        if self.linkage_name.is_none() {
            self.namespace = declaration.namespace.clone_hierarchy();
            self.linkage_name = copy_opt_string(&declaration.linkage_name);
        }
        if self.name.is_none() {
            self.name = copy_opt_string(&declaration.name);
        }
        if self.decl_file_line.is_none() {
            self.decl_file_line = declaration.decl_file_line;
        }
    }

    /// Full name of the function: its namespace parts and its name joined with `::`.
    pub fn full_name(&self) -> (r: Option<String>)
        ensures
            r is Some <==> self.name is Some,
            r matches Some(x) ==> x@ == crate::text::spec_join(self.namespace@, seq![':', ':']) + seq![':', ':']
                + self.name->Some_0@,
    {
        match &self.name {
            None => None,
            Some(name) => {
                let sep = "::";
                proof {
                    reveal_strlit("::");
                }
                assert(sep@ == seq![':', ':']);
                let mut s = self.namespace.join(sep);
                s.append(sep);
                s.append(name.as_str());
                Some(s)
            },
        }
    }
}

/// View of an optional string.
pub open spec fn opt_string_view(s: Option<String>) -> Option<Seq<char>> {
    match s {
        Some(x) => Some(x@),
        None => None,
    }
}

/// Namespace and linkage name of a subprogram entry before it is completed
/// from a declaration: those of its demangled linkage name (the last part of
/// that name as the linkage name) when it has one, otherwise the enclosing
/// namespace and no linkage name.
pub open spec fn own_namespace_and_linkage(linkage_name: Option<Seq<char>>, enclosing: Seq<Seq<char>>) -> (
    Seq<Seq<char>>,
    Option<Seq<char>>,
) {
    match linkage_name {
        Some(l) => (
            spec_namespace_and_name(spec_demangle_alternate(l)).0,
            Some(spec_namespace_and_name(spec_demangle_alternate(l)).1),
        ),
        None => (enclosing, None),
    }
}

/// What [`subprogram_info`] gives for a subprogram entry: `r` is the
/// information of an entry with the given name, linkage name, declaration
/// file and line and enclosing namespace, completed from `declaration`.
pub open spec fn is_subprogram_info(
    name: Option<String>,
    linkage_name: Option<Seq<char>>,
    decl_file_line: Option<(u64, u64)>,
    enclosing: Seq<Seq<char>>,
    declaration: Option<FunctionInfo>,
    r: FunctionInfo,
) -> bool {
    let own = own_namespace_and_linkage(linkage_name, enclosing);
    match declaration {
        None => {
            &&& r.namespace@ == own.0
            &&& opt_string_view(r.linkage_name) == own.1
            &&& opt_string_view(r.name) == opt_string_view(name)
            &&& r.decl_file_line == decl_file_line
        },
        Some(d) => {
            &&& own.1 is None ==> r.namespace@ == d.namespace@ && opt_string_view(r.linkage_name)
                == opt_string_view(d.linkage_name)
            &&& own.1 is Some ==> r.namespace@ == own.0 && opt_string_view(r.linkage_name) == own.1
            &&& opt_string_view(r.name) == if name is None {
                opt_string_view(d.name)
            } else {
                opt_string_view(name)
            }
            &&& r.decl_file_line == if decl_file_line is None {
                d.decl_file_line
            } else {
                decl_file_line
            }
        },
    }
}

/// Function information of a subprogram entry (see
/// [`own_namespace_and_linkage`]); a function defined by specification is
/// then completed from its declaration (see
/// [`FunctionInfo::complete_from_decl`]).
///
/// # Arguments
///
/// * `name`: name of the entry
/// * `linkage_name`: linkage name of the entry, if it has one
/// * `decl_file_line`: file and line of the declaration of the entry
/// * `enclosing`: namespace that encloses the entry
/// * `declaration`: the function that the entry specifies, if any
pub fn subprogram_info(
    name: Option<String>,
    linkage_name: Option<&str>,
    decl_file_line: Option<(u64, u64)>,
    enclosing: NamespaceHierarchy,
    declaration: Option<&FunctionInfo>,
) -> (r: FunctionInfo)
    ensures
        is_subprogram_info(
            name,
            match linkage_name {
                Some(l) => Some(l@),
                None => None,
            },
            decl_file_line,
            enclosing@,
            match declaration {
                Some(d) => Some(*d),
                None => None,
            },
            r,
        ),
{
    let (namespace, linkage) = match linkage_name {
        Some(l) => {
            let (ns, fn_name) = NamespaceHierarchy::from_mangled(l);
            (ns, Some(fn_name))
        },
        None => (enclosing, None),
    };
    let mut info = FunctionInfo { namespace, linkage_name: linkage, decl_file_line, name };
    if let Some(d) = declaration {
        info.complete_from_decl(d);
    }
    info
}

/// Name under which a function is indexed: its linkage name, or else its name.
pub open spec fn index_name(info: FunctionInfo) -> Option<Seq<char>> {
    match info.linkage_name {
        Some(l) => Some(l@),
        None => match info.name {
            Some(n) => Some(n@),
            None => None,
        },
    }
}

/// Record function entry `idx` in the function index, under its namespace
/// and its linkage name (or, without one, its name); a function without a
/// name, or without address ranges, is not recorded.
pub fn index_function(index: &mut PathSearchIndex<usize>, info: &FunctionInfo, has_ranges: bool, idx: usize)
    ensures
        final(index).delimiter_view() == old(index).delimiter_view(),
        has_ranges && index_name(*info) is Some ==> final(index).entries_view() == old(index).entries_view().push(
            (info.namespace@, index_name(*info)->Some_0, idx),
        ),
        !(has_ranges && index_name(*info) is Some) ==> final(index).entries_view() == old(index).entries_view(),
{
    let name = match &info.linkage_name {
        Some(l) => l,
        None => match &info.name {
            Some(n) => n,
            None => {
                return;
            },
        },
    };
    if has_ranges {
        let parts = info.namespace.as_parts();
        let path = as_strs(&parts);
        index.insert_w_head(path.as_slice(), name.as_str(), idx);
    }
}

/// Indexes of the entries of a unit, filled while its entries are read:
/// variables by name (each with its namespace and entry index), types by name
/// (the offset of the last type entry read with that name), and function
/// declarations by offset (the index of their entry).
pub struct UnitIndexes {
    pub variable_index: NameIndex<Vec<(NamespaceHierarchy, usize)>>,
    pub type_index: NameIndex<u64>,
    pub fn_declarations: HashMap<u64, usize>,
}

impl UnitIndexes {
    /// Empty indexes.
    pub fn new() -> (r: Self)
        ensures
            r.variable_index@ == Map::<Seq<char>, Vec<(NamespaceHierarchy, usize)>>::empty(),
            r.type_index@ == Map::<Seq<char>, u64>::empty(),
            r.fn_declarations@ == Map::<u64, usize>::empty(),
    {
        UnitIndexes { variable_index: NameIndex::new(), type_index: NameIndex::new(), fn_declarations: HashMap::new() }
    }

    /// Record a variable entry under its name.
    pub fn add_variable(&mut self, name: &str, namespace: NamespaceHierarchy, idx: usize)
        ensures
            final(self).variable_index@.contains_key(name@),
            final(self).variable_index@[name@]@ == (if old(self).variable_index@.contains_key(name@) {
                old(self).variable_index@[name@]@
            } else {
                Seq::empty()
            }).push((namespace, idx)),
            forall|n: Seq<char>| n != name@ ==> #[trigger] final(self).variable_index@.contains_key(n)
                == old(self).variable_index@.contains_key(n),
            forall|n: Seq<char>|
                n != name@ && old(self).variable_index@.contains_key(n) ==> #[trigger] final(self).variable_index@[n]
                    == old(self).variable_index@[n],
            final(self).type_index@ == old(self).type_index@,
            final(self).fn_declarations@ == old(self).fn_declarations@,
    {
        let mut list = match self.variable_index.take(name) {
            Some(l) => l,
            None => Vec::new(),
        };
        list.push((namespace, idx));
        self.variable_index.insert(name, list);
    }

    /// Record a type entry under its name.
    pub fn add_type(&mut self, name: &str, offset: u64)
        ensures
            final(self).type_index@ == old(self).type_index@.insert(name@, offset),
            final(self).variable_index@ == old(self).variable_index@,
            final(self).fn_declarations@ == old(self).fn_declarations@,
    {
        self.type_index.insert(name, offset);
    }

    /// Record a function declaration entry by its offset.
    pub fn add_declaration(&mut self, offset: u64, idx: usize)
        ensures
            final(self).fn_declarations@ == old(self).fn_declarations@.insert(offset, idx),
            final(self).variable_index@ == old(self).variable_index@,
            final(self).type_index@ == old(self).type_index@,
    {
        self.fn_declarations.insert(offset, idx);
    }

    /// Entry index of the function declaration at an offset.
    pub fn declaration(&self, offset: u64) -> (r: Option<usize>)
        ensures
            r is Some == self.fn_declarations@.contains_key(offset),
            r matches Some(i) ==> i == self.fn_declarations@[offset],
    {
        match self.fn_declarations.get(&offset) {
            Some(i) => Some(*i),
            None => None,
        }
    }

    /// Variables of the given name, with their namespaces and entry indexes.
    pub fn locate_var_die(&self, name: &str) -> (r: Option<&Vec<(NamespaceHierarchy, usize)>>)
        ensures
            r is Some == self.variable_index@.contains_key(name@),
            r matches Some(v) ==> *v == self.variable_index@[name@],
    {
        self.variable_index.get(name)
    }

    /// Offset of the type of the given name.
    pub fn locate_type(&self, name: &str) -> (r: Option<u64>)
        ensures
            r is Some == self.type_index@.contains_key(name@),
            r matches Some(o) ==> o == self.type_index@[name@],
    {
        match self.type_index.get(name) {
            Some(o) => Some(*o),
            None => None,
        }
    }
}

/// Parts joined with a separator between each two consecutive parts.
pub open spec fn join_with_sep(parts: Seq<Seq<char>>, sep: Seq<char>) -> Seq<char>
    decreases parts.len(),
{
    if parts.len() == 0 {
        Seq::empty()
    } else if parts.len() == 1 {
        parts[0]
    } else {
        join_with_sep(parts.drop_last(), sep) + sep + parts.last()
    }
}

/// True when line addresses never decrease.
pub open spec fn lines_sorted(lines: Seq<LineRow>) -> bool {
    forall|i: int, j: int| 0 <= i <= j < lines.len() ==> lines[i].address <= lines[j].address
}

/// True when every line refers to an existing file.
pub open spec fn lines_refer_files(lines: Seq<LineRow>, files_len: nat) -> bool {
    forall|i: int| 0 <= i < lines.len() ==> #[trigger] lines[i].file_index < files_len
}

/// Number of lines with an address lower than `pc`.
pub open spec fn count_below(lines: Seq<LineRow>, pc: u64) -> int
    decreases lines.len(),
{
    if lines.len() == 0 {
        0
    } else {
        count_below(lines.drop_last(), pc) + if lines.last().address < pc {
            1int
        } else {
            0int
        }
    }
}

/// The position that a search by program counter selects: the first line at
/// `pc` if there is one, else the last line before `pc`, else the first line.
pub open spec fn pos_for_pc(lines: Seq<LineRow>, pc: u64) -> int {
    let lb = count_below(lines, pc);
    if lb < lines.len() && lines[lb].address == pc {
        lb
    } else if lb > 0 {
        lb - 1
    } else {
        0
    }
}

/// The last line at or before `pos` that begins an epilogue.
pub open spec fn eb_at_or_before(lines: Seq<LineRow>, pos: int) -> Option<int>
    decreases pos + 1,
{
    if pos < 0 {
        None
    } else if lines[pos].epilog_begin_spec() {
        Some(pos)
    } else {
        eb_at_or_before(lines, pos - 1)
    }
}

/// The nearest line that begins an epilogue at `pc` or at a lower address:
/// the last such line at or before the line found for `pc`.
pub open spec fn eb_line(lines: Seq<LineRow>, pc: u64) -> Option<int> {
    if lines.len() == 0 {
        None
    } else {
        match eb_at_or_before(lines, pos_for_pc(lines, pc)) {
            Some(j) => if lines[j].address <= pc {
                Some(j)
            } else {
                None
            },
            None => None,
        }
    }
}

/// DWARF compilation unit representation: the parts of the unit that describe
/// the program text.
pub struct BsUnit {
    name: Option<String>,
    /// Index in unit registry may be usize::MAX if the unit is not yet placed in the register
    idx: usize,
    files: Vec<String>,
    /// List of program lines, ordered by its address
    lines: Vec<LineRow>,
    ranges: Vec<Range>,
}

/// Represent a place in program text identified by file name
/// line number and column number.
pub struct PlaceDescriptor<'a> {
    pub file: &'a String,
    pub file_idx: u64,
    pub address: u64,
    pub line_number: u64,
    pub pos_in_unit: usize,
    pub is_stmt: bool,
    pub column_number: u64,
    pub epilog_begin: bool,
    pub end_sequence: bool,
    pub prolog_end: bool,
    pub unit: &'a BsUnit,
}

impl<'a> PlaceDescriptor<'a> {
    /// True when this place describes line `pos` of `unit`.
    pub open spec fn describes(&self, unit: BsUnit, pos: int) -> bool {
        &&& 0 <= pos < unit.lines_view().len()
        &&& self.pos_in_unit == pos
        &&& self.unit_view() == unit
        &&& self.file@ == unit.files_view()[unit.lines_view()[pos].file_index as int]
        &&& self.file_idx == unit.lines_view()[pos].file_index
        &&& self.address == unit.lines_view()[pos].address
        &&& self.line_number == unit.lines_view()[pos].line
        &&& self.column_number == unit.lines_view()[pos].column
        &&& self.is_stmt == unit.lines_view()[pos].is_stmt_spec()
        &&& self.prolog_end == unit.lines_view()[pos].prolog_end_spec()
        &&& self.epilog_begin == unit.lines_view()[pos].epilog_begin_spec()
        &&& self.end_sequence == unit.lines_view()[pos].end_sequence_spec()
    }

    /// The unit this place belongs to.
    pub closed spec fn unit_view(&self) -> BsUnit {
        *self.unit
    }

    /// Place of the next line of the unit.
    pub fn next(&self) -> (r: Option<PlaceDescriptor<'a>>)
        requires
            self.describes(self.unit_view(), self.pos_in_unit as int),
            self.unit_view().wf(),
        ensures
            self.pos_in_unit + 1 < self.unit_view().lines_view().len() ==> (r matches Some(p) && p.describes(
                self.unit_view(),
                self.pos_in_unit + 1,
            )),
            self.pos_in_unit + 1 >= self.unit_view().lines_view().len() ==> r is None,
    {
        if self.pos_in_unit < self.unit.lines.len() - 1 {
            self.unit.find_place_by_idx(self.pos_in_unit + 1)
        } else {
            None
        }
    }

    /// Place of the previous line of the unit. Must not be called on the first line.
    pub fn prev(&self) -> (r: Option<PlaceDescriptor<'a>>)
        requires
            self.describes(self.unit_view(), self.pos_in_unit as int),
            self.unit_view().wf(),
            self.pos_in_unit > 0,
        ensures
            r matches Some(p) && p.describes(self.unit_view(), self.pos_in_unit - 1),
    {
        self.unit.find_place_by_idx(self.pos_in_unit - 1)
    }

    /// Whether two places are on the same line of the same file.
    pub fn line_eq(&self, other: &PlaceDescriptor) -> (r: bool)
        ensures
            r == (self.file@ == other.file@ && self.line_number == other.line_number),
    {
        crate::text::string_eq(self.file, other.file) && self.line_number == other.line_number
    }

    /// Copy of this place without the reference to the unit.
    pub fn to_owned(&self) -> (r: PlaceDescriptorOwned)
        ensures
            r.file@ == self.file@,
            r.address == self.address,
            r.line_number == self.line_number,
            r.pos_in_unit == self.pos_in_unit,
            r.is_stmt == self.is_stmt,
            r.column_number == self.column_number,
            r.epilog_begin == self.epilog_begin,
            r.prolog_end == self.prolog_end,
    {
        PlaceDescriptorOwned {
            file: copy_string(self.file),
            address: self.address,
            line_number: self.line_number,
            pos_in_unit: self.pos_in_unit,
            is_stmt: self.is_stmt,
            column_number: self.column_number,
            epilog_begin: self.epilog_begin,
            prolog_end: self.prolog_end,
        }
    }
}

impl BsUnit {
    pub closed spec fn lines_view(&self) -> Seq<LineRow> {
        self.lines@
    }

    pub closed spec fn files_view(&self) -> Seq<Seq<char>> {
        strings_view(self.files@)
    }

    pub closed spec fn ranges_view(&self) -> Seq<Range> {
        self.ranges@
    }

    pub closed spec fn name_view(&self) -> Option<String> {
        self.name
    }

    pub closed spec fn idx_view(&self) -> usize {
        self.idx
    }

    /// Lines are ordered by address and refer to files of the unit.
    pub open spec fn wf(&self) -> bool {
        &&& lines_sorted(self.lines_view())
        &&& lines_refer_files(self.lines_view(), self.files_view().len())
    }

    /// Create a unit that is not yet placed in a unit registry.
    pub fn new(name: Option<String>, files: Vec<String>, lines: Vec<LineRow>, ranges: Vec<Range>) -> (r: BsUnit)
        requires
            lines_sorted(lines@),
            lines_refer_files(lines@, files@.len()),
        ensures
            r.wf(),
            r.name_view() == name,
            r.files_view() == strings_view(files@),
            r.lines_view() == lines@,
            r.ranges_view() == ranges@,
            r.idx_view() == usize::MAX,
    {
        BsUnit { name, idx: usize::MAX, files, lines, ranges }
    }

    /// Create a unit from what its line program and ranges hold as read: the
    /// rows of the line table are ordered by address and the ranges by the
    /// address they begin at. Every row refers to a file of the unit.
    pub fn from_rows(name: Option<String>, files: Vec<String>, lines: Vec<LineRow>, ranges: Vec<Range>) -> (r: BsUnit)
        requires
            lines_refer_files(lines@, files@.len()),
        ensures
            r.wf(),
            r.name_view() == name,
            r.files_view() == strings_view(files@),
            lines_sorted(r.lines_view()),
            r.lines_view().to_multiset() == lines@.to_multiset(),
            ranges_sorted(r.ranges_view()),
            r.ranges_view().to_multiset() == ranges@.to_multiset(),
            r.idx_view() == usize::MAX,
    {
        let ghost before = lines@;
        let sorted_lines = sort_lines(lines);
        proof {
            assert forall|k: int| 0 <= k < sorted_lines@.len() implies (#[trigger] sorted_lines@[k]).file_index
                < files@.len() by {
                vstd::seq_lib::to_multiset_contains(sorted_lines@, sorted_lines@[k]);
                vstd::seq_lib::to_multiset_contains(before, sorted_lines@[k]);
                assert(sorted_lines@.contains(sorted_lines@[k]));
                let j = choose|j: int| 0 <= j < before.len() && before[j] == sorted_lines@[k];
                assert(before[j].file_index < files@.len());
            }
        }
        let sorted_ranges = sort_ranges(ranges);
        BsUnit::new(name, files, sorted_lines, sorted_ranges)
    }

    /// Return unit index in unit registry. The unit must be placed in a registry.
    pub fn idx(&self) -> (r: usize)
        requires
            self.idx_view() != usize::MAX,
        ensures
            r == self.idx_view(),
    {
        self.idx
    }

    /// Set index in unit registry.
    pub fn set_idx(&mut self, idx: usize)
        ensures
            final(self).idx_view() == idx,
            final(self).lines_view() == old(self).lines_view(),
            final(self).files_view() == old(self).files_view(),
            final(self).ranges_view() == old(self).ranges_view(),
            final(self).name_view() == old(self).name_view(),
    {
        self.idx = idx;
    }

    /// Return a list of unit address ranges.
    pub fn ranges(&self) -> (r: &Vec<Range>)
        ensures
            r@ == self.ranges_view(),
    {
        &self.ranges
    }

    /// Return all files related to this unit.
    pub fn files(&self) -> (r: &Vec<String>)
        ensures
            strings_view(r@) == self.files_view(),
    {
        &self.files
    }

    /// Return a line of the unit.
    pub fn line(&self, index: usize) -> (r: &LineRow)
        requires
            index < self.lines_view().len(),
        ensures
            *r == self.lines_view()[index as int],
    {
        &self.lines[index]
    }

    /// Return [`PlaceDescriptor`] by index for line vector in unit.
    pub fn find_place_by_idx(&self, line_pos: usize) -> (r: Option<PlaceDescriptor<'_>>)
        requires
            self.wf(),
        ensures
            line_pos < self.lines_view().len() ==> (r matches Some(p) && p.describes(*self, line_pos as int)),
            line_pos >= self.lines_view().len() ==> r is None,
    {
        if line_pos >= self.lines.len() {
            return None;
        }
        let nfiles = self.files.len();
        let line = &self.lines[line_pos];
        proof {
            assert(self.lines_view()[line_pos as int].file_index < self.files_view().len());
            assert(self.files_view()[line.file_index as int] == self.files@[line.file_index as int]@);
        }
        let file = &self.files[line.file_index as usize];
        Some(
            PlaceDescriptor {
                file,
                file_idx: line.file_index,
                address: line.address,
                line_number: line.line,
                column_number: line.column,
                pos_in_unit: line_pos,
                is_stmt: line.is_stmt(),
                prolog_end: line.prolog_end(),
                epilog_begin: line.epilog_begin(),
                end_sequence: line.end_sequence(),
                unit: self,
            },
        )
    }

    /// Return first [`PlaceDescriptor`] matching the file index and line number.
    pub fn find_place_by_line(&self, file_idx: u64, line: u64) -> (r: Option<PlaceDescriptor<'_>>)
        requires
            self.wf(),
        ensures
            match r {
                Some(p) => {
                    &&& p.describes(*self, p.pos_in_unit as int)
                    &&& self.lines_view()[p.pos_in_unit as int].file_index == file_idx
                    &&& self.lines_view()[p.pos_in_unit as int].line == line
                    &&& forall|k: int|
                        0 <= k < p.pos_in_unit ==> !(#[trigger] self.lines_view()[k].file_index == file_idx
                            && self.lines_view()[k].line == line)
                },
                None => forall|k: int|
                    0 <= k < self.lines_view().len() ==> !(#[trigger] self.lines_view()[k].file_index
                        == file_idx && self.lines_view()[k].line == line),
            },
    {
        let mut i: usize = 0;
        while i < self.lines.len()
            invariant
                self.wf(),
                i <= self.lines_view().len(),
                forall|k: int|
                    0 <= k < i ==> !(#[trigger] self.lines_view()[k].file_index == file_idx
                        && self.lines_view()[k].line == line),
            decreases self.lines_view().len() - i,
        {
            let l = &self.lines[i];
            if l.file_index == file_idx && l.line == line {
                return self.find_place_by_idx(i);
            }
            i = i + 1;
        }
        None
    }

    /// Number of lines with an address lower than `pc`.
    fn lower_bound(&self, pc: u64) -> (r: usize)
        requires
            self.wf(),
        ensures
            r == count_below(self.lines_view(), pc),
            r <= self.lines_view().len(),
            forall|k: int| 0 <= k < r ==> #[trigger] self.lines_view()[k].address < pc,
            forall|k: int| r <= k < self.lines_view().len() ==> #[trigger] self.lines_view()[k].address >= pc,
    {
        let mut lo: usize = 0;
        let mut hi: usize = self.lines.len();
        while lo < hi
            invariant
                lo <= hi <= self.lines_view().len(),
                lines_sorted(self.lines_view()),
                forall|k: int| 0 <= k < lo ==> #[trigger] self.lines_view()[k].address < pc,
                forall|k: int| hi <= k < self.lines_view().len() ==> #[trigger] self.lines_view()[k].address >= pc,
            decreases hi - lo,
        {
            let mid = lo + (hi - lo) / 2;
            if self.lines[mid].address < pc {
                lo = mid + 1;
            } else {
                hi = mid;
            }
        }
        proof {
            lemma_count_below(self.lines_view(), pc, lo as int);
        }
        lo
    }

    /// Return nearest [`PlaceDescriptor`] for given program counter: the first
    /// line at `pc` if there is one, else the last line before `pc`, else the first line.
    ///
    /// # Arguments
    ///
    /// * `pc`: program counter represented by global address.
    pub fn find_place_by_pc(&self, pc: u64) -> (r: Option<PlaceDescriptor<'_>>)
        requires
            self.wf(),
        ensures
            self.lines_view().len() == 0 ==> r is None,
            self.lines_view().len() > 0 ==> (r matches Some(p) && p.describes(
                *self,
                pos_for_pc(self.lines_view(), pc),
            )),
    {
        let pos = self.pos_for_pc(pc);
        self.find_place_by_idx(pos)
    }

    fn pos_for_pc(&self, pc: u64) -> (r: usize)
        requires
            self.wf(),
        ensures
            r == pos_for_pc(self.lines_view(), pc),
            self.lines_view().len() > 0 ==> r < self.lines_view().len(),
    {
        let lb = self.lower_bound(pc);
        if lb < self.lines.len() && self.lines[lb].address == pc {
            lb
        } else if lb > 0 {
            lb - 1
        } else {
            0
        }
    }

    /// Return the nearest line with EB (epilog begin).
    /// Nearest means - at given address or at address less than given.
    ///
    /// # Arguments
    ///
    /// * `pc`: program counter represented by global address.
    pub fn find_eb(&self, pc: u64) -> (r: Option<PlaceDescriptor<'_>>)
        requires
            self.wf(),
        ensures
            match eb_line(self.lines_view(), pc) {
                Some(j) => r matches Some(p) && p.describes(*self, j),
                None => r is None,
            },
    {
        if self.lines.len() == 0 {
            return None;
        }
        let mut pos = self.pos_for_pc(pc);
        loop
            invariant
                self.wf(),
                self.lines_view().len() > 0,
                0 <= pos < self.lines_view().len(),
                eb_at_or_before(self.lines_view(), pos_for_pc(self.lines_view(), pc)) == eb_at_or_before(
                    self.lines_view(),
                    pos as int,
                ),
            decreases pos,
        {
            if self.lines[pos].epilog_begin() {
                if self.lines[pos].address <= pc {
                    return self.find_place_by_idx(pos);
                } else {
                    return None;
                }
            }
            if pos == 0 {
                proof {
                    assert(eb_at_or_before(self.lines_view(), -1) is None);
                }
                return None;
            }
            pos = pos - 1;
        }
    }

    /// Return place with address equals to given program counter (the first
    /// one if several lines share it).
    ///
    /// # Arguments
    ///
    /// * `pc`: program counter represented by global address.
    pub fn find_exact_place_by_pc(&self, pc: u64) -> (r: Option<PlaceDescriptor<'_>>)
        requires
            self.wf(),
        ensures
            match r {
                Some(p) => {
                    &&& p.describes(*self, p.pos_in_unit as int)
                    &&& p.address == pc
                    &&& forall|k: int| 0 <= k < p.pos_in_unit ==> #[trigger] self.lines_view()[k].address != pc
                },
                None => forall|k: int| 0 <= k < self.lines_view().len() ==> #[trigger] self.lines_view()[k].address != pc,
            },
    {
        let lb = self.lower_bound(pc);
        if lb < self.lines.len() && self.lines[lb].address == pc {
            self.find_place_by_idx(lb)
        } else {
            None
        }
    }

    /// Return all places that correspond to given range: the places from the
    /// one found for the range start to the one found for its last address.
    ///
    /// # Arguments
    ///
    /// * `range`: address range
    pub fn find_lines_for_range(&self, range: &Range) -> (r: Vec<PlaceDescriptor<'_>>)
        requires
            self.wf(),
            self.lines_view().len() > 0 ==> pos_for_pc(self.lines_view(), range.begin) <= pos_for_pc(
                self.lines_view(),
                if range.end > 0 {
                    (range.end - 1) as u64
                } else {
                    0u64
                },
            ),
        ensures
            self.lines_view().len() == 0 ==> r@.len() == 0,
            self.lines_view().len() > 0 ==> {
                let s = pos_for_pc(self.lines_view(), range.begin);
                let e = pos_for_pc(
                    self.lines_view(),
                    if range.end > 0 {
                        (range.end - 1) as u64
                    } else {
                        0u64
                    },
                );
                let n = if e == s {
                    2
                } else {
                    e - s + 1
                };
                &&& r@.len() == n
                &&& r@[0].describes(*self, s)
                &&& forall|k: int| 1 <= k < n - 1 ==> #[trigger] r@[k].describes(*self, s + k)
                &&& r@[n - 1].describes(*self, e)
            },
    {
        let start_place = match self.find_place_by_pc(range.begin) {
            None => {
                return Vec::new();
            },
            Some(p) => p,
        };
        let range_end_instr = if range.end > 0 {
            range.end - 1
        } else {
            0
        };
        let end_place = match self.find_place_by_pc(range_end_instr) {
            None => {
                let mut v = Vec::new();
                v.push(start_place);
                return v;
            },
            Some(p) => p,
        };
        let start_pos = start_place.pos_in_unit;
        let end_pos = end_place.pos_in_unit;
        let len = self.lines.len();
        let mut result: Vec<PlaceDescriptor<'_>> = Vec::new();
        result.push(start_place);
        let mut pos = start_pos + 1;
        while pos < end_pos
            invariant
                self.wf(),
                start_pos < pos,
                start_pos <= end_pos < self.lines_view().len(),
                pos <= end_pos || pos == start_pos + 1,
                result@.len() == pos - start_pos,
                result@[0].describes(*self, start_pos as int),
                forall|k: int| 1 <= k < pos - start_pos ==> #[trigger] result@[k].describes(*self, start_pos + k),
            decreases end_pos - pos,
        {
            match self.find_place_by_idx(pos) {
                Some(p) => {
                    result.push(p);
                },
                None => {
                    proof {
                        assert(false);
                    }
                },
            }
            pos = pos + 1;
        }
        result.push(end_place);
        result
    }

    /// Line indexes of each file of the unit that has lines, in file order:
    /// pairs of file index and the indexes of its lines in the unit line list.
    pub fn file_lines_pairs(&self) -> (r: Vec<(usize, Vec<usize>)>)
        requires
            self.wf(),
        ensures
            forall|i: int|
                0 <= i < r@.len() ==> {
                    &&& (#[trigger] r@[i]).0 < self.files_view().len()
                    &&& r@[i].1@ == lines_of_file(self.lines_view(), r@[i].0 as int)
                    &&& r@[i].1@.len() > 0
                },
            forall|f: int|
                0 <= f < self.files_view().len() && lines_of_file(self.lines_view(), f).len() > 0 ==> exists|i: int|
                    0 <= i < r@.len() && (#[trigger] r@[i]).0 == f,
            forall|i: int, j: int| 0 <= i < j < r@.len() ==> r@[i].0 < r@[j].0,
            pairs_model(r@) == file_pairs(self.lines_view(), self.files_view().len() as int),
    {
        let mut r: Vec<(usize, Vec<usize>)> = Vec::new();
        let mut f: usize = 0;
        proof {
            assert(pairs_model(r@) =~= Seq::empty());
        }
        while f < self.files.len()
            invariant
                f <= self.files_view().len(),
                pairs_model(r@) == file_pairs(self.lines_view(), f as int),
                self.files@.len() == self.files_view().len(),
                forall|i: int|
                    0 <= i < r@.len() ==> {
                        &&& (#[trigger] r@[i]).0 < f
                        &&& r@[i].1@ == lines_of_file(self.lines_view(), r@[i].0 as int)
                        &&& r@[i].1@.len() > 0
                    },
                forall|g: int|
                    0 <= g < f && lines_of_file(self.lines_view(), g).len() > 0 ==> exists|i: int|
                        0 <= i < r@.len() && (#[trigger] r@[i]).0 == g,
                forall|i: int, j: int| 0 <= i < j < r@.len() ==> r@[i].0 < r@[j].0,
            decreases self.files_view().len() - f,
        {
            let mut idxs: Vec<usize> = Vec::new();
            let mut i: usize = 0;
            while i < self.lines.len()
                invariant
                    i <= self.lines_view().len(),
                    idxs@ == lines_of_file(self.lines_view().take(i as int), f as int),
                decreases self.lines_view().len() - i,
            {
                proof {
                    assert(self.lines_view().take(i + 1).drop_last() =~= self.lines_view().take(i as int));
                }
                if self.lines[i].file_index == f as u64 {
                    idxs.push(i);
                }
                i = i + 1;
            }
            proof {
                assert(self.lines_view().take(i as int) =~= self.lines_view());
            }
            let ghost old_r = r@;
            let ghost idxs_v = idxs@;
            if idxs.len() > 0 {
                r.push((f, idxs));
            }
            proof {
                if idxs_v.len() > 0 {
                    assert(pairs_model(r@) =~= pairs_model(old_r).push((f, idxs_v)));
                } else {
                    assert(r@ == old_r);
                }
                assert forall|g: int|
                    0 <= g < f + 1 && lines_of_file(self.lines_view(), g).len() > 0 implies exists|i: int|
                        0 <= i < r@.len() && (#[trigger] r@[i]).0 == g by {
                    if g < f {
                        let i = choose|i: int| 0 <= i < old_r.len() && (#[trigger] old_r[i]).0 == g;
                        assert(r@[i] == old_r[i]);
                    } else {
                        assert(r@[r@.len() - 1].0 == g);
                    }
                }
            }
            f = f + 1;
        }
        r
    }
}

/// File indexes and line indexes of pairs.
pub open spec fn pairs_model(pairs: Seq<(usize, Vec<usize>)>) -> Seq<(usize, Seq<usize>)> {
    pairs.map_values(|p: (usize, Vec<usize>)| (p.0, p.1@))
}

/// The files among the first `n` that have lines, in file order, each with
/// the indexes of its lines.
pub open spec fn file_pairs(lines: Seq<LineRow>, n: int) -> Seq<(usize, Seq<usize>)>
    decreases n,
{
    if n <= 0 {
        Seq::empty()
    } else {
        let rest = file_pairs(lines, n - 1);
        if lines_of_file(lines, n - 1).len() > 0 {
            rest.push(((n - 1) as usize, lines_of_file(lines, n - 1)))
        } else {
            rest
        }
    }
}

/// Indexes of the lines of a file, in the order of the line list.
pub open spec fn lines_of_file(lines: Seq<LineRow>, f: int) -> Seq<usize>
    decreases lines.len(),
{
    if lines.len() == 0 {
        Seq::empty()
    } else {
        let rest = lines_of_file(lines.drop_last(), f);
        if lines.last().file_index == f {
            rest.push((lines.len() - 1) as usize)
        } else {
            rest
        }
    }
}

/// Row of the line list at position `k` of a list of line indexes.
pub open spec fn row_at(rows: Seq<LineRow>, fl: Seq<usize>, k: int) -> LineRow {
    rows[fl[k] as int]
}

/// A statement row of the wanted line: a place where the search may stop.
pub open spec fn line_candidate(rows: Seq<LineRow>, fl: Seq<usize>, needle: u64, k: int) -> bool {
    row_at(rows, fl, k).line == needle && row_at(rows, fl, k).is_stmt_spec()
}

/// Position of the first candidate at or after position `i`.
pub open spec fn first_candidate_from(rows: Seq<LineRow>, fl: Seq<usize>, needle: u64, i: int) -> Option<int>
    decreases fl.len() - i,
{
    if i < 0 || i >= fl.len() {
        None
    } else if line_candidate(rows, fl, needle, i) {
        Some(i)
    } else {
        first_candidate_from(rows, fl, needle, i + 1)
    }
}

/// Position of the first row with the end of a prolog in the run of statement
/// rows of the same line that follows position `i`, looking from position `a`.
pub open spec fn prolog_end_ahead(rows: Seq<LineRow>, fl: Seq<usize>, i: int, a: int) -> Option<int>
    decreases fl.len() - a,
{
    if a < 0 || a >= fl.len() {
        None
    } else if row_at(rows, fl, a).line != row_at(rows, fl, i).line || !row_at(rows, fl, a).is_stmt_spec() {
        None
    } else if row_at(rows, fl, a).prolog_end_spec() {
        Some(a)
    } else {
        prolog_end_ahead(rows, fl, i, a + 1)
    }
}

/// A statement row that repeats the line, column and flags of another row:
/// another representation of the same place.
pub open spec fn same_place(r: LineRow, o: LineRow) -> bool {
    &&& o.line == r.line
    &&& o.column == r.column
    &&& o.prolog_end_spec() == r.prolog_end_spec()
    &&& o.epilog_begin_spec() == r.epilog_begin_spec()
    &&& o.end_sequence_spec() == r.end_sequence_spec()
    &&& o.is_stmt_spec()
}

/// Positions after `c` and before `end` of the rows that repeat the place of position `c`.
pub open spec fn repeats_of(rows: Seq<LineRow>, fl: Seq<usize>, c: int, end: int) -> Seq<int>
    decreases end - c,
{
    if end <= c + 1 {
        Seq::empty()
    } else {
        let f = repeats_of(rows, fl, c, end - 1);
        if same_place(row_at(rows, fl, c), row_at(rows, fl, end - 1)) {
            f.push(end - 1)
        } else {
            f
        }
    }
}

/// Positions, in a list of line indexes, of the places closest to a line: the
/// first statement row of the line, or the first row with the end of a prolog
/// in the run of statement rows of that line that follows it, then every later
/// row that repeats that place. Empty when no statement row has the line.
pub open spec fn closest_selection(rows: Seq<LineRow>, fl: Seq<usize>, needle: u64) -> Seq<int> {
    match first_candidate_from(rows, fl, needle, 0) {
        None => Seq::empty(),
        Some(i) => {
            let c = match prolog_end_ahead(rows, fl, i, i + 1) {
                Some(a) => a,
                None => i,
            };
            seq![c].add(repeats_of(rows, fl, c, fl.len() as int))
        },
    }
}

impl BsUnit {
    /// Places of the unit closest to a line, looked for among the given line
    /// indexes of one file (see [`closest_selection`]).
    pub fn closest_places(&self, file_lines: &[usize], needle_line: u64) -> (r: Vec<PlaceDescriptor<'_>>)
        requires
            self.wf(),
            forall|k: int| 0 <= k < file_lines@.len() ==> #[trigger] file_lines@[k] < self.lines_view().len(),
        ensures
            r@.len() == closest_selection(self.lines_view(), file_lines@, needle_line).len(),
            forall|k: int|
                0 <= k < r@.len() ==> (#[trigger] r@[k]).describes(
                    *self,
                    file_lines@[closest_selection(self.lines_view(), file_lines@, needle_line)[k]] as int,
                ),
    {
        let ghost rows = self.lines_view();
        let ghost fl = file_lines@;
        let mut result: Vec<PlaceDescriptor<'_>> = Vec::new();
        let mut chosen: usize = 0;
        let mut found = false;
        let mut i: usize = 0;
        while i < file_lines.len()
            invariant
                self.wf(),
                rows == self.lines_view(),
                fl == file_lines@,
                forall|k: int| 0 <= k < fl.len() ==> #[trigger] fl[k] < rows.len(),
                i <= fl.len(),
                !found ==> result@.len() == 0,
                !found ==> first_candidate_from(rows, fl, needle_line, 0) == first_candidate_from(
                    rows,
                    fl,
                    needle_line,
                    i as int,
                ),
                found ==> {
                    let cur = seq![chosen as int].add(repeats_of(rows, fl, chosen as int, i as int));
                    &&& chosen < i
                    &&& closest_selection(rows, fl, needle_line) == seq![chosen as int].add(
                        repeats_of(rows, fl, chosen as int, fl.len() as int),
                    )
                    &&& result@.len() == cur.len()
                    &&& forall|k: int| 0 <= k < result@.len() ==> (#[trigger] result@[k]).describes(*self, fl[cur[k]] as int)
                },
            decreases fl.len() - i,
        {
            let line_idx = file_lines[i];
            let row = self.line(line_idx);
            if !found {
                if row.line == needle_line && row.is_stmt() {
                    let mut pick: usize = i;
                    let mut ahead: usize = i + 1;
                    let mut scanning = true;
                    while scanning && ahead < file_lines.len()
                        invariant
                            self.wf(),
                            rows == self.lines_view(),
                            fl == file_lines@,
                            forall|k: int| 0 <= k < fl.len() ==> #[trigger] fl[k] < rows.len(),
                            i < fl.len(),
                            *row == row_at(rows, fl, i as int),
                            i < ahead <= fl.len(),
                            i <= pick < fl.len(),
                            scanning ==> pick == i && prolog_end_ahead(rows, fl, i as int, i + 1) == prolog_end_ahead(
                                rows,
                                fl,
                                i as int,
                                ahead as int,
                            ),
                            !scanning ==> pick == match prolog_end_ahead(rows, fl, i as int, i + 1) {
                                Some(a) => a,
                                None => i as int,
                            },
                        decreases (if scanning { fl.len() - ahead + 1 } else { 0 }),
                    {
                        let ahead_row = self.line(file_lines[ahead]);
                        if ahead_row.line != row.line || !ahead_row.is_stmt() {
                            scanning = false;
                        } else if ahead_row.prolog_end() {
                            pick = ahead;
                            scanning = false;
                        } else {
                            ahead = ahead + 1;
                        }
                    }
                    proof {
                        assert(first_candidate_from(rows, fl, needle_line, i as int) == Some(i as int));
                        assert(seq![pick as int].add(repeats_of(rows, fl, pick as int, pick + 1)) =~= seq![pick as int]);
                    }
                    chosen = pick;
                    found = true;
                    let place = self.find_place_by_idx(file_lines[pick]);
                    match place {
                        Some(p) => result.push(p),
                        None => {},
                    }
                    i = pick;
                }
            } else {
                let ghost before = seq![chosen as int].add(repeats_of(rows, fl, chosen as int, i as int));
                let first_row = self.line(file_lines[chosen]);
                if row.line == first_row.line && row.column == first_row.column && row.prolog_end()
                    == first_row.prolog_end() && row.epilog_begin() == first_row.epilog_begin()
                    && row.end_sequence() == first_row.end_sequence() && row.is_stmt() {
                    let place = self.find_place_by_idx(line_idx);
                    match place {
                        Some(p) => result.push(p),
                        None => {},
                    }
                    proof {
                        assert(seq![chosen as int].add(repeats_of(rows, fl, chosen as int, i + 1)) =~= before.push(i as int));
                    }
                } else {
                    proof {
                        assert(seq![chosen as int].add(repeats_of(rows, fl, chosen as int, i + 1)) =~= before);
                    }
                }
            }
            i = i + 1;
        }
        proof {
            if !found {
                assert(first_candidate_from(rows, fl, needle_line, i as int) is None);
            }
        }
        result
    }
}

/// Lines chosen by [`closest_selection`] in each file, file after file: pairs
/// of a unit index and a line index of that unit.
pub open spec fn selected_lines(units: Seq<BsUnit>, files: Seq<(usize, Seq<usize>)>, needle: u64) -> Seq<(int, int)>
    decreases files.len(),
{
    if files.len() == 0 {
        Seq::empty()
    } else {
        let (u, fl) = files.last();
        selected_lines(units, files.drop_last(), needle).add(
            closest_selection(units[u as int].lines_view(), fl, needle).map_values(|p: int| (u as int, fl[p] as int)),
        )
    }
}

/// Lines closest to `line` over a set of files: those for `line` itself, or,
/// when no file has a statement row for it, those for the next line.
pub open spec fn closest_lines(units: Seq<BsUnit>, files: Seq<(usize, Seq<usize>)>, line: u64) -> Seq<(int, int)> {
    if selected_lines(units, files, line).len() > 0 {
        selected_lines(units, files, line)
    } else {
        selected_lines(units, files, (line + 1) as u64)
    }
}

/// Files as pairs of a unit index and line indexes of that unit.
pub open spec fn files_model(files: Seq<&(usize, Vec<usize>)>) -> Seq<(usize, Seq<usize>)> {
    files.map_values(|f: &(usize, Vec<usize>)| (f.0, f.1@))
}

/// Places closest to a line in the given files, each file given by its unit
/// index and the indexes of its lines in that unit: the places for `line`
/// or, if there are none, for the line after it (see [`closest_lines`]).
pub fn closest_places_in_files<'u>(units: &'u [BsUnit], files: &[&(usize, Vec<usize>)], line: u64) -> (r: Vec<
    PlaceDescriptor<'u>,
>)
    requires
        line < u64::MAX,
        forall|i: int| 0 <= i < units@.len() ==> (#[trigger] units@[i]).wf(),
        forall|i: int|
            0 <= i < files@.len() ==> {
                &&& (#[trigger] files@[i]).0 < units@.len()
                &&& forall|k: int|
                    0 <= k < files@[i].1@.len() ==> #[trigger] files@[i].1@[k] < units@[files@[i].0 as int].lines_view().len()
            },
    ensures
        r@.len() == closest_lines(units@, files_model(files@), line).len(),
        forall|k: int|
            0 <= k < r@.len() ==> {
                let (u, l) = closest_lines(units@, files_model(files@), line)[k];
                (#[trigger] r@[k]).describes(units@[u], l)
            },
{
    let first = places_for_line(units, files, line);
    if first.len() > 0 {
        first
    } else {
        places_for_line(units, files, line + 1)
    }
}

fn places_for_line<'u>(units: &'u [BsUnit], files: &[&(usize, Vec<usize>)], needle: u64) -> (r: Vec<PlaceDescriptor<'u>>)
    requires
        forall|i: int| 0 <= i < units@.len() ==> (#[trigger] units@[i]).wf(),
        forall|i: int|
            0 <= i < files@.len() ==> {
                &&& (#[trigger] files@[i]).0 < units@.len()
                &&& forall|k: int|
                    0 <= k < files@[i].1@.len() ==> #[trigger] files@[i].1@[k] < units@[files@[i].0 as int].lines_view().len()
            },
    ensures
        r@.len() == selected_lines(units@, files_model(files@), needle).len(),
        forall|k: int|
            0 <= k < r@.len() ==> {
                let (u, l) = selected_lines(units@, files_model(files@), needle)[k];
                (#[trigger] r@[k]).describes(units@[u], l)
            },
{
    let ghost fm = files_model(files@);
    let mut r: Vec<PlaceDescriptor<'u>> = Vec::new();
    let mut i: usize = 0;
    while i < files.len()
        invariant
            i <= files@.len(),
            fm == files_model(files@),
            forall|i: int| 0 <= i < units@.len() ==> (#[trigger] units@[i]).wf(),
            forall|i: int|
                0 <= i < files@.len() ==> {
                    &&& (#[trigger] files@[i]).0 < units@.len()
                    &&& forall|k: int|
                        0 <= k < files@[i].1@.len() ==> #[trigger] files@[i].1@[k] < units@[files@[i].0 as int].lines_view().len()
                },
            r@.len() == selected_lines(units@, fm.subrange(0, i as int), needle).len(),
            forall|k: int|
                0 <= k < r@.len() ==> {
                    let (u, l) = selected_lines(units@, fm.subrange(0, i as int), needle)[k];
                    (#[trigger] r@[k]).describes(units@[u], l)
                },
        decreases files@.len() - i,
    {
        let f = files[i];
        let unit = &units[f.0];
        let places = unit.closest_places(f.1.as_slice(), needle);
        let ghost prev = selected_lines(units@, fm.subrange(0, i as int), needle);
        let ghost sel = closest_selection(unit.lines_view(), f.1@, needle);
        let ghost add = sel.map_values(|p: int| (f.0 as int, f.1@[p] as int));
        proof {
            assert(fm.subrange(0, i + 1).drop_last() =~= fm.subrange(0, i as int));
            assert(fm.subrange(0, i + 1).last() == (f.0, f.1@));
            assert(selected_lines(units@, fm.subrange(0, i + 1), needle) == prev.add(add));
        }
        let ghost r0 = r@;
        let ghost p0 = places@;
        let mut places = places;
        r.append(&mut places);
        proof {
            assert forall|k: int| 0 <= k < r@.len() implies {
                let (u, l) = prev.add(add)[k];
                (#[trigger] r@[k]).describes(units@[u], l)
            } by {
                if k >= r0.len() {
                    assert(r@[k] == p0[k - r0.len()]);
                } else {
                    assert(r@[k] == r0[k]);
                }
            }
        }
        i = i + 1;
    }
    proof {
        assert(fm.subrange(0, i as int) =~= fm);
    }
    r
}


/// The function that a place belongs to, as far as the search of places
/// tells functions apart: its name and its address ranges.
pub struct FunctionKey {
    pub name: Option<String>,
    pub ranges: Vec<Range>,
}

/// View of an optional function key.
pub open spec fn key_view(k: Option<FunctionKey>) -> Option<(Option<Seq<char>>, Seq<Range>)> {
    match k {
        Some(key) => Some(
            (
                match key.name {
                    Some(n) => Some(n@),
                    None => None,
                },
                key.ranges@,
            ),
        ),
        None => None,
    }
}

/// Whether the place at `i` is kept: it belongs to no known function, or no
/// place before it belongs to the same function.
pub open spec fn first_of_function(keys: Seq<Option<(Option<Seq<char>>, Seq<Range>)>>, i: int) -> bool {
    keys[i] is None || forall|j: int| 0 <= j < i ==> keys[j] != keys[i]
}

/// The places that are kept (see [`first_of_function`]), in order.
pub open spec fn first_places<T>(places: Seq<T>, keys: Seq<Option<(Option<Seq<char>>, Seq<Range>)>>) -> Seq<T>
    decreases places.len(),
{
    if places.len() == 0 {
        Seq::empty()
    } else {
        let rest = first_places(places.drop_last(), keys);
        if first_of_function(keys, places.len() - 1) {
            rest.push(places.last())
        } else {
            rest
        }
    }
}

/// Whether two optional strings are equal.
fn opt_string_eq(a: &Option<String>, b: &Option<String>) -> (r: bool)
    ensures
        r == (match a {
            Some(x) => Some(x@),
            None => None::<Seq<char>>,
        } == match b {
            Some(x) => Some(x@),
            None => None::<Seq<char>>,
        }),
{
    match (a, b) {
        (Some(x), Some(y)) => crate::text::string_eq(x, y),
        (None, None) => true,
        _ => false,
    }
}

/// Whether two lists of ranges are equal.
fn ranges_eq(a: &Vec<Range>, b: &Vec<Range>) -> (r: bool)
    ensures
        r == (a@ == b@),
{
    if a.len() != b.len() {
        return false;
    }
    let mut i: usize = 0;
    while i < a.len()
        invariant
            i <= a.len() == b.len(),
            forall|k: int| 0 <= k < i ==> a@[k] == b@[k],
        decreases a.len() - i,
    {
        if a[i].begin != b[i].begin || a[i].end != b[i].end {
            return false;
        }
        i = i + 1;
    }
    assert(a@ =~= b@);
    true
}

/// Whether two optional function keys are equal.
fn key_eq(a: &Option<FunctionKey>, b: &Option<FunctionKey>) -> (r: bool)
    ensures
        r == (key_view(*a) == key_view(*b)),
{
    match (a, b) {
        (Some(x), Some(y)) => opt_string_eq(&x.name, &y.name) && ranges_eq(&x.ranges, &y.ranges),
        (None, None) => true,
        _ => false,
    }
}

/// Only one place for a single function: of the places that belong to the
/// same function, the first one is kept; a place that belongs to no known
/// function is kept too.
///
/// # Arguments
///
/// * `places`: the places found, in order
/// * `keys`: for each place, the function it belongs to, if one is known
pub fn unique_function_places<T>(places: Vec<T>, keys: &Vec<Option<FunctionKey>>) -> (r: Vec<T>)
    requires
        keys.len() == places.len(),
    ensures
        r@ == first_places(places@, keys@.map_values(|k: Option<FunctionKey>| key_view(k))),
{
    let ghost kv = keys@.map_values(|k: Option<FunctionKey>| key_view(k));
    let ghost all = places@;
    let mut r: Vec<T> = Vec::new();
    let mut rest = places;
    let mut i: usize = 0;
    proof {
        assert(all.subrange(0, all.len() as int) =~= all);
        assert(all.subrange(0, 0) =~= Seq::<T>::empty());
    }
    while i < keys.len()
        invariant
            i <= all.len(),
            keys@.len() == all.len(),
            kv == keys@.map_values(|k: Option<FunctionKey>| key_view(k)),
            rest@ == all.subrange(i as int, all.len() as int),
            r@ == first_places(all.subrange(0, i as int), kv),
        decreases all.len() - i,
    {
        proof {
            assert(rest@.len() > 0);
        }
        let x = rest.remove(0);
        proof {
            assert(x == all[i as int]);
            assert(rest@ =~= all.subrange(i + 1, all.len() as int));
        }
        proof {
            assert(kv[i as int] == key_view(keys@[i as int]));
        }
        let mut keep = keys[i].is_none();
        if !keep {
            keep = true;
            let mut j: usize = 0;
            while j < i
                invariant
                    j <= i < keys.len(),
                    kv == keys@.map_values(|k: Option<FunctionKey>| key_view(k)),
                    keep == forall|m: int| 0 <= m < j ==> kv[m] != kv[i as int],
                decreases i - j,
            {
                proof {
                    assert(kv[j as int] == key_view(keys@[j as int]));
                    assert(kv[i as int] == key_view(keys@[i as int]));
                }
                if key_eq(&keys[j], &keys[i]) {
                    keep = false;
                }
                j = j + 1;
            }
        }
        proof {
            let sub = all.subrange(0, i + 1);
            assert(sub.drop_last() =~= all.subrange(0, i as int));
            assert(keep == first_of_function(kv, i as int));
        }
        if keep {
            r.push(x);
        }
        i = i + 1;
    }
    r
}

/// Lowest beginning of the ranges of a function.
pub open spec fn min_begin(ranges: Seq<Range>) -> Option<u64>
    decreases ranges.len(),
{
    if ranges.len() == 0 {
        None
    } else {
        match min_begin(ranges.drop_last()) {
            None => Some(ranges.last().begin),
            Some(m) => Some(if ranges.last().begin < m {
                ranges.last().begin
            } else {
                m
            }),
        }
    }
}

/// The range with the highest beginning (the last of them when several begin there).
pub open spec fn last_range(ranges: Seq<Range>) -> Option<Range>
    decreases ranges.len(),
{
    if ranges.len() == 0 {
        None
    } else {
        match last_range(ranges.drop_last()) {
            None => Some(ranges.last()),
            Some(r) => if ranges.last().begin >= r.begin {
                Some(ranges.last())
            } else {
                Some(r)
            },
        }
    }
}

/// Address of the first instruction of a function: the lowest beginning of its ranges.
pub fn start_instruction(ranges: &[Range]) -> (r: Option<u64>)
    ensures
        r == min_begin(ranges@),
{
    let mut m: Option<u64> = None;
    let mut i: usize = 0;
    while i < ranges.len()
        invariant
            i <= ranges@.len(),
            m == min_begin(ranges@.take(i as int)),
        decreases ranges@.len() - i,
    {
        proof {
            assert(ranges@.take(i + 1).drop_last() =~= ranges@.take(i as int));
        }
        let b = ranges[i].begin;
        m = match m {
            None => Some(b),
            Some(x) => Some(if b < x {
                b
            } else {
                x
            }),
        };
        i = i + 1;
    }
    proof {
        assert(ranges@.take(i as int) =~= ranges@);
    }
    m
}

/// Address past the last instruction of a function: the end of its range
/// with the highest beginning.
pub fn end_instruction(ranges: &[Range]) -> (r: Option<u64>)
    ensures
        r == match last_range(ranges@) {
            Some(x) => Some(x.end),
            None => None,
        },
{
    let mut m: Option<Range> = None;
    let mut i: usize = 0;
    while i < ranges.len()
        invariant
            i <= ranges@.len(),
            m == last_range(ranges@.take(i as int)),
        decreases ranges@.len() - i,
    {
        proof {
            assert(ranges@.take(i + 1).drop_last() =~= ranges@.take(i as int));
        }
        let x = ranges[i];
        m = match m {
            None => Some(x),
            Some(r) => if x.begin >= r.begin {
                Some(x)
            } else {
                Some(r)
            },
        };
        i = i + 1;
    }
    proof {
        assert(ranges@.take(i as int) =~= ranges@);
    }
    match m {
        Some(x) => Some(x.end),
        None => None,
    }
}

/// Position of the first line at or after `k` that ends a prolog, or of the
/// last line when none does.
pub open spec fn prolog_end_pos(lines: Seq<LineRow>, k: int) -> int
    decreases lines.len() - k,
{
    if k < 0 || k + 1 >= lines.len() || lines[k].prolog_end_spec() {
        k
    } else {
        prolog_end_pos(lines, k + 1)
    }
}

impl BsUnit {
    /// Place where the prolog that begins at `start` ends: the first place
    /// from `start` on that ends a prolog, or the last place of the unit.
    pub fn prolog_end_place<'a>(&'a self, start: PlaceDescriptor<'a>) -> (r: PlaceDescriptor<'a>)
        requires
            self.wf(),
            start.describes(*self, start.pos_in_unit as int),
        ensures
            r.describes(*self, prolog_end_pos(self.lines_view(), start.pos_in_unit as int)),
    {
        let mut place = start;
        while !place.prolog_end
            invariant
                self.wf(),
                place.describes(*self, place.pos_in_unit as int),
                prolog_end_pos(self.lines_view(), start.pos_in_unit as int) == prolog_end_pos(
                    self.lines_view(),
                    place.pos_in_unit as int,
                ),
            ensures
                place.describes(*self, place.pos_in_unit as int),
                prolog_end_pos(self.lines_view(), start.pos_in_unit as int) == place.pos_in_unit,
            decreases self.lines_view().len() - place.pos_in_unit,
        {
            assert(place.unit_view() == *self);
            match place.next() {
                None => {
                    break;
                },
                Some(n) => {
                    place = n;
                },
            }
        }
        place
    }

    /// Prolog of a function with the given ranges: from the place of its
    /// first instruction to the place where the prolog ends.
    pub fn function_prolog(&self, ranges: &[Range], fn_name: Option<String>) -> (r: Result<Range, Error>)
        requires
            self.wf(),
        ensures
            match min_begin(ranges@) {
                None => r == Err::<Range, Error>(Error::NoFunctionRanges(fn_name)),
                Some(low) => if self.lines_view().len() == 0 {
                    r == Err::<Range, Error>(Error::FunctionNotFound(low as usize))
                } else {
                    let s = pos_for_pc(self.lines_view(), low);
                    r == Ok::<Range, Error>(
                        Range {
                            begin: self.lines_view()[s].address,
                            end: self.lines_view()[prolog_end_pos(self.lines_view(), s)].address,
                        },
                    )
                },
            },
    {
        let low = match start_instruction(ranges) {
            None => {
                return Err(Error::NoFunctionRanges(fn_name));
            },
            Some(low) => low,
        };
        let start = match self.find_place_by_pc(low) {
            None => {
                return Err(Error::FunctionNotFound(low as usize));
            },
            Some(p) => p,
        };
        let begin = start.address;
        let end = self.prolog_end_place(start);
        Ok(Range { begin, end: end.address })
    }
}

/// Address of the last instruction of a range (its begin, for an empty range at zero).
pub open spec fn last_instruction(range: Range) -> u64 {
    if range.end > 0 {
        (range.end - 1) as u64
    } else {
        0u64
    }
}

/// True when the place found for the range start does not come after the
/// place found for its last instruction.
pub open spec fn range_places_ordered(lines: Seq<LineRow>, range: Range) -> bool {
    lines.len() > 0 ==> pos_for_pc(lines, range.begin) <= pos_for_pc(lines, last_instruction(range))
}

/// The largest of `floor` and the line numbers of the lines at positions
/// `from` to `to`, both included.
pub open spec fn max_line_between(lines: Seq<LineRow>, from: int, to: int, floor: u64) -> u64
    decreases to - from + 1,
{
    if to < from {
        floor
    } else {
        let rest = max_line_between(lines, from, to - 1, floor);
        if lines[to].line > rest {
            lines[to].line
        } else {
            rest
        }
    }
}

/// Last line of a function with the given ranges and declaration line: the
/// largest line number among the places of its ranges, or the declaration
/// line when no place comes after it.
pub open spec fn function_end_line_of(lines: Seq<LineRow>, ranges: Seq<Range>, start_line: u64) -> u64
    decreases ranges.len(),
{
    if ranges.len() == 0 || lines.len() == 0 {
        start_line
    } else {
        let r = ranges.last();
        max_line_between(
            lines,
            pos_for_pc(lines, r.begin),
            pos_for_pc(lines, last_instruction(r)),
            function_end_line_of(lines, ranges.drop_last(), start_line),
        )
    }
}

impl BsUnit {
    /// Last line of a function that is declared at `start_line` and covers
    /// `ranges`: the largest line among the places of its ranges, and never
    /// less than `start_line`.
    pub fn function_end_line(&self, ranges: &[Range], start_line: u64) -> (r: u64)
        requires
            self.wf(),
            forall|i: int| 0 <= i < ranges.len() ==> range_places_ordered(self.lines_view(), #[trigger] ranges[i]),
        ensures
            r == function_end_line_of(self.lines_view(), ranges@, start_line),
            r >= start_line,
    {
        let mut end_line = start_line;
        let mut i: usize = 0;
        while i < ranges.len()
            invariant
                self.wf(),
                i <= ranges.len(),
                forall|k: int| 0 <= k < ranges.len() ==> range_places_ordered(self.lines_view(), #[trigger] ranges[k]),
                end_line == function_end_line_of(self.lines_view(), ranges@.subrange(0, i as int), start_line),
                end_line >= start_line,
            decreases ranges.len() - i,
        {
            let range = &ranges[i];
            proof {
                assert(range_places_ordered(self.lines_view(), ranges[i as int]));
            }
            let places = self.find_lines_for_range(range);
            let ghost acc = end_line;
            let ghost lines = self.lines_view();
            let ghost s = pos_for_pc(lines, range.begin);
            let ghost e = pos_for_pc(lines, last_instruction(*range));
            proof {
                if lines.len() > 0 {
                    lemma_pos_for_pc_monotone(lines, range.begin, range.begin);
                    lemma_pos_for_pc_monotone(lines, last_instruction(*range), last_instruction(*range));
                    assert forall|k: int| 0 <= k < places@.len() implies (#[trigger] places@[k]).line_number
                        == lines[if s + k <= e {
                        s + k
                    } else {
                        e
                    }].line by {
                        if k == 0 {
                            assert(places@[0].describes(*self, s));
                        } else if k < places@.len() - 1 {
                            assert(places@[k].describes(*self, s + k));
                        } else {
                            assert(places@[places@.len() - 1].describes(*self, e));
                        }
                    }
                }
            }
            let mut j: usize = 0;
            while j < places.len()
                invariant
                    j <= places.len(),
                    lines == self.lines_view(),
                    lines.len() == 0 ==> places@.len() == 0,
                    lines.len() > 0 ==> {
                        &&& 0 <= s <= e < lines.len()
                        &&& places@.len() == (if e == s {
                            2
                        } else {
                            e - s + 1
                        })
                        &&& forall|k: int| 0 <= k < places@.len() ==> (#[trigger] places@[k]).line_number == lines[if s + k <= e {
                            s + k
                        } else {
                            e
                        }].line
                        &&& end_line == max_line_between(lines, s, if s + j - 1 <= e {
                            s + j - 1
                        } else {
                            e
                        }, acc)
                    },
                    lines.len() == 0 ==> end_line == acc,
                    end_line >= acc,
                decreases places.len() - j,
            {
                let ln = places[j].line_number;
                if ln > end_line {
                    end_line = ln;
                }
                j = j + 1;
            }
            proof {
                let sub = ranges@.subrange(0, i as int + 1);
                assert(sub.drop_last() == ranges@.subrange(0, i as int));
                assert(sub.last() == ranges[i as int]);
            }
            i = i + 1;
        }
        proof {
            assert(ranges@.subrange(0, ranges.len() as int) == ranges@);
        }
        end_line
    }
}

/// Position of the range with the largest end (the last of them when
/// several end at the same address).
pub open spec fn max_end_pos(ranges: Seq<Range>) -> int
    decreases ranges.len(),
{
    if ranges.len() <= 1 {
        0
    } else {
        let p = max_end_pos(ranges.drop_last());
        if ranges.last().end >= ranges[p].end {
            ranges.len() - 1
        } else {
            p
        }
    }
}

/// Widest range of a function with the given ranges (see
/// [`BsUnit::max_range`]).
pub open spec fn max_range_of(lines: Seq<LineRow>, ranges: Seq<Range>) -> Option<Range> {
    if ranges.len() == 0 {
        None
    } else {
        let m = ranges[max_end_pos(ranges)];
        match eb_line(lines, m.end) {
            Some(j) => Some(Range { begin: m.begin, end: lines[j].address }),
            None => Some(ranges.last()),
        }
    }
}

impl BsUnit {
    /// Range of a function with the given ranges that ends where its epilog
    /// begins: from the start of the range that ends last to the epilog
    /// place found for that end; without such a place, the last range.
    pub fn max_range(&self, ranges: &[Range]) -> (r: Option<Range>)
        requires
            self.wf(),
        ensures
            r == max_range_of(self.lines_view(), ranges@),
    {
        if ranges.len() == 0 {
            return None;
        }
        let mut m: usize = 0;
        let mut i: usize = 1;
        proof {
            assert(ranges@.subrange(0, 1).len() == 1);
        }
        while i < ranges.len()
            invariant
                1 <= i <= ranges.len(),
                m < i,
                m == max_end_pos(ranges@.subrange(0, i as int)),
            decreases ranges.len() - i,
        {
            proof {
                let sub = ranges@.subrange(0, i + 1);
                assert(sub.drop_last() =~= ranges@.subrange(0, i as int));
                assert(sub[m as int] == ranges[m as int]);
            }
            if ranges[i].end >= ranges[m].end {
                m = i;
            }
            i = i + 1;
        }
        proof {
            assert(ranges@.subrange(0, i as int) =~= ranges@);
        }
        let max = ranges[m];
        match self.find_eb(max.end) {
            Some(eb) => Some(Range { begin: max.begin, end: eb.address }),
            None => Some(ranges[ranges.len() - 1]),
        }
    }
}

/// An address range of a debug information entry, with the entry's position
/// in the unit's entry list.
#[derive(Debug, Clone, Copy, PartialEq, Eq, Structural)]
pub struct DieRange {
    pub range: Range,
    pub die_idx: usize,
}

/// Entry ranges ordered by beginning.
pub open spec fn die_ranges_sorted(drs: Seq<DieRange>) -> bool {
    forall|i: int, j: int| 0 <= i <= j < drs.len() ==> (#[trigger] drs[i]).range.begin <= (#[trigger] drs[j]).range.begin
}

/// Entry ranges ordered by the address they begin at: the same ranges, in
/// order of their begin address.
pub fn sort_die_ranges(ranges: Vec<DieRange>) -> (r: Vec<DieRange>)
    ensures
        die_ranges_sorted(r@),
        r@.to_multiset() == ranges@.to_multiset(),
{
    let mut r: Vec<DieRange> = Vec::new();
    let mut i: usize = 0;
    proof {
        assert(ranges@.subrange(0, 0) =~= Seq::<DieRange>::empty());
    }
    while i < ranges.len()
        invariant
            i <= ranges.len(),
            die_ranges_sorted(r@),
            r@.to_multiset() == ranges@.subrange(0, i as int).to_multiset(),
        decreases ranges.len() - i,
    {
        let x = ranges[i];
        let mut pos: usize = 0;
        while pos < r.len() && r[pos].range.begin <= x.range.begin
            invariant
                pos <= r.len(),
                forall|k: int| 0 <= k < pos ==> (#[trigger] r@[k]).range.begin <= x.range.begin,
            decreases r.len() - pos,
        {
            pos = pos + 1;
        }
        let ghost before = r@;
        r.insert(pos, x);
        proof {
            assert(ranges@.subrange(0, i + 1) =~= ranges@.subrange(0, i as int).push(x));
            assert(r@ == before.insert(pos as int, x));
            vstd::seq_lib::to_multiset_insert(before, pos as int, x);
            vstd::seq_lib::to_multiset_build(ranges@.subrange(0, i as int), x);
            assert forall|a: int, b: int| 0 <= a <= b < r@.len() implies (#[trigger] r@[a]).range.begin <= (
            #[trigger] r@[b]).range.begin by {
                if b < pos {
                    assert(r@[a] == before[a] && r@[b] == before[b]);
                } else if b == pos {
                    if a < pos {
                        assert(r@[a] == before[a]);
                    }
                } else {
                    assert(r@[b] == before[b - 1]);
                    if pos < before.len() {
                        assert(before[pos as int].range.begin > x.range.begin);
                        assert(before[pos as int].range.begin <= before[b - 1].range.begin);
                    }
                    if a < pos {
                        assert(r@[a] == before[a]);
                    } else if a > pos {
                        assert(r@[a] == before[a - 1]);
                    }
                }
            }
        }
        i = i + 1;
    }
    proof {
        assert(ranges@.subrange(0, i as int) =~= ranges@);
    }
    r
}

/// Rows of a line table ordered by address: the same rows, in order of
/// their address.
pub fn sort_lines(ranges: Vec<LineRow>) -> (r: Vec<LineRow>)
    ensures
        lines_sorted(r@),
        r@.to_multiset() == ranges@.to_multiset(),
{
    let mut r: Vec<LineRow> = Vec::new();
    let mut i: usize = 0;
    proof {
        assert(ranges@.subrange(0, 0) =~= Seq::<LineRow>::empty());
    }
    while i < ranges.len()
        invariant
            i <= ranges.len(),
            lines_sorted(r@),
            r@.to_multiset() == ranges@.subrange(0, i as int).to_multiset(),
        decreases ranges.len() - i,
    {
        let x = ranges[i];
        let mut pos: usize = 0;
        while pos < r.len() && r[pos].address <= x.address
            invariant
                pos <= r.len(),
                forall|k: int| 0 <= k < pos ==> (#[trigger] r@[k]).address <= x.address,
            decreases r.len() - pos,
        {
            pos = pos + 1;
        }
        let ghost before = r@;
        r.insert(pos, x);
        proof {
            assert(ranges@.subrange(0, i + 1) =~= ranges@.subrange(0, i as int).push(x));
            assert(r@ == before.insert(pos as int, x));
            vstd::seq_lib::to_multiset_insert(before, pos as int, x);
            vstd::seq_lib::to_multiset_build(ranges@.subrange(0, i as int), x);
            assert forall|a: int, b: int| 0 <= a <= b < r@.len() implies (#[trigger] r@[a]).address <= (
            #[trigger] r@[b]).address by {
                if b < pos {
                    assert(r@[a] == before[a] && r@[b] == before[b]);
                } else if b == pos {
                    if a < pos {
                        assert(r@[a] == before[a]);
                    }
                } else {
                    assert(r@[b] == before[b - 1]);
                    if pos < before.len() {
                        assert(before[pos as int].address > x.address);
                        assert(before[pos as int].address <= before[b - 1].address);
                    }
                    if a < pos {
                        assert(r@[a] == before[a]);
                    } else if a > pos {
                        assert(r@[a] == before[a - 1]);
                    }
                }
            }
        }
        i = i + 1;
    }
    proof {
        assert(ranges@.subrange(0, i as int) =~= ranges@);
    }
    r
}

/// Address ranges ordered by the address they begin at.
pub open spec fn ranges_sorted(ranges: Seq<Range>) -> bool {
    forall|i: int, j: int| 0 <= i <= j < ranges.len() ==> (#[trigger] ranges[i]).begin <= (#[trigger] ranges[j]).begin
}

/// Address ranges ordered by the address they begin at: the same ranges, in
/// order of their begin address.
pub fn sort_ranges(ranges: Vec<Range>) -> (r: Vec<Range>)
    ensures
        ranges_sorted(r@),
        r@.to_multiset() == ranges@.to_multiset(),
{
    let mut r: Vec<Range> = Vec::new();
    let mut i: usize = 0;
    proof {
        assert(ranges@.subrange(0, 0) =~= Seq::<Range>::empty());
    }
    while i < ranges.len()
        invariant
            i <= ranges.len(),
            ranges_sorted(r@),
            r@.to_multiset() == ranges@.subrange(0, i as int).to_multiset(),
        decreases ranges.len() - i,
    {
        let x = ranges[i];
        let mut pos: usize = 0;
        while pos < r.len() && r[pos].begin <= x.begin
            invariant
                pos <= r.len(),
                forall|k: int| 0 <= k < pos ==> (#[trigger] r@[k]).begin <= x.begin,
            decreases r.len() - pos,
        {
            pos = pos + 1;
        }
        let ghost before = r@;
        r.insert(pos, x);
        proof {
            assert(ranges@.subrange(0, i + 1) =~= ranges@.subrange(0, i as int).push(x));
            assert(r@ == before.insert(pos as int, x));
            vstd::seq_lib::to_multiset_insert(before, pos as int, x);
            vstd::seq_lib::to_multiset_build(ranges@.subrange(0, i as int), x);
            assert forall|a: int, b: int| 0 <= a <= b < r@.len() implies (#[trigger] r@[a]).begin <= (
            #[trigger] r@[b]).begin by {
                if b < pos {
                    assert(r@[a] == before[a] && r@[b] == before[b]);
                } else if b == pos {
                    if a < pos {
                        assert(r@[a] == before[a]);
                    }
                } else {
                    assert(r@[b] == before[b - 1]);
                    if pos < before.len() {
                        assert(before[pos as int].begin > x.begin);
                        assert(before[pos as int].begin <= before[b - 1].begin);
                    }
                    if a < pos {
                        assert(r@[a] == before[a]);
                    } else if a > pos {
                        assert(r@[a] == before[a - 1]);
                    }
                }
            }
        }
        i = i + 1;
    }
    proof {
        assert(ranges@.subrange(0, i as int) =~= ranges@);
    }
    r
}

/// Number of entry ranges that begin at or before an address.
pub open spec fn count_begin_le(drs: Seq<DieRange>, pc: u64) -> int
    decreases drs.len(),
{
    if drs.len() == 0 {
        0
    } else {
        count_begin_le(drs.drop_last(), pc) + if drs.last().range.begin <= pc {
            1int
        } else {
            0int
        }
    }
}

/// Position of the last range before position `k` that belongs to a function
/// and contains the address.
pub open spec fn function_range_before(drs: Seq<DieRange>, is_function: Seq<bool>, pc: u64, k: int) -> Option<int>
    decreases k,
{
    if k <= 0 || k > drs.len() {
        None
    } else {
        let d = drs[k - 1];
        if is_function[d.die_idx as int] && d.range.begin <= pc < d.range.end {
            Some(k - 1)
        } else {
            function_range_before(drs, is_function, pc, k - 1)
        }
    }
}

proof fn lemma_count_begin_le(drs: Seq<DieRange>, pc: u64, p: int)
    requires
        0 <= p <= drs.len(),
        forall|k: int| 0 <= k < p ==> #[trigger] drs[k].range.begin <= pc,
        forall|k: int| p <= k < drs.len() ==> #[trigger] drs[k].range.begin > pc,
    ensures
        count_begin_le(drs, pc) == p,
    decreases drs.len(),
{
    if drs.len() > 0 {
        let d = drs.drop_last();
        if p == drs.len() {
            assert forall|k: int| 0 <= k < d.len() implies #[trigger] d[k].range.begin <= pc by {
                assert(d[k] == drs[k]);
            }
            lemma_count_begin_le(d, pc, p - 1);
            assert(drs[drs.len() - 1].range.begin <= pc);
        } else {
            assert forall|k: int| 0 <= k < p implies #[trigger] d[k].range.begin <= pc by {
                assert(d[k] == drs[k]);
            }
            assert forall|k: int| p <= k < d.len() implies #[trigger] d[k].range.begin > pc by {
                assert(d[k] == drs[k]);
            }
            lemma_count_begin_le(d, pc, p);
            assert(drs[drs.len() - 1].range.begin > pc);
        }
    }
}

/// Return the position of the range of the function that contains an
/// address: among the entry ranges (ordered by beginning) that begin at or
/// before it, the last one that belongs to a function and contains it.
/// `is_function` tells, for each entry, whether it is a function.
pub fn find_function_range(drs: &[DieRange], is_function: &[bool], pc: u64) -> (r: Option<usize>)
    requires
        die_ranges_sorted(drs@),
        forall|k: int| 0 <= k < drs@.len() ==> (#[trigger] drs@[k]).die_idx < is_function@.len(),
    ensures
        r == match function_range_before(drs@, is_function@, pc, count_begin_le(drs@, pc)) {
            Some(i) => Some(i as usize),
            None => None::<usize>,
        },
{
    let mut lo: usize = 0;
    let mut hi: usize = drs.len();
    while lo < hi
        invariant
            lo <= hi <= drs@.len(),
            die_ranges_sorted(drs@),
            forall|k: int| 0 <= k < lo ==> #[trigger] drs@[k].range.begin <= pc,
            forall|k: int| hi <= k < drs@.len() ==> #[trigger] drs@[k].range.begin > pc,
        decreases hi - lo,
    {
        let mid = lo + (hi - lo) / 2;
        if drs[mid].range.begin <= pc {
            proof {
                assert forall|k: int| 0 <= k < mid + 1 implies #[trigger] drs@[k].range.begin <= pc by {
                    assert(drs@[k].range.begin <= drs@[mid as int].range.begin);
                }
            }
            lo = mid + 1;
        } else {
            proof {
                assert forall|k: int| mid <= k < drs@.len() implies #[trigger] drs@[k].range.begin > pc by {
                    assert(drs@[mid as int].range.begin <= drs@[k].range.begin);
                }
            }
            hi = mid;
        }
    }
    proof {
        lemma_count_begin_le(drs@, pc, lo as int);
    }
    let mut k: usize = lo;
    while k > 0
        invariant
            k <= lo <= drs@.len(),
            count_begin_le(drs@, pc) == lo,
            forall|j: int| 0 <= j < drs@.len() ==> (#[trigger] drs@[j]).die_idx < is_function@.len(),
            function_range_before(drs@, is_function@, pc, lo as int) == function_range_before(
                drs@,
                is_function@,
                pc,
                k as int,
            ),
        decreases k,
    {
        let d = drs[k - 1];
        if is_function[d.die_idx] && d.range.begin <= pc && pc < d.range.end {
            return Some(k - 1);
        }
        k = k - 1;
    }
    None
}

/// The lower bound computed by a search is the number of lines below `pc`.
proof fn lemma_count_below(lines: Seq<LineRow>, pc: u64, lb: int)
    requires
        0 <= lb <= lines.len(),
        forall|k: int| 0 <= k < lb ==> #[trigger] lines[k].address < pc,
        forall|k: int| lb <= k < lines.len() ==> #[trigger] lines[k].address >= pc,
    ensures
        count_below(lines, pc) == lb,
    decreases lines.len(),
{
    if lines.len() > 0 {
        let rest = lines.drop_last();
        if lb == lines.len() {
            lemma_count_below(rest, pc, lb - 1);
        } else {
            lemma_count_below(rest, pc, lb);
        }
    }
}

/// Searching by a larger program counter never selects an earlier line.
pub proof fn lemma_pos_for_pc_monotone(lines: Seq<LineRow>, pc1: u64, pc2: u64)
    requires
        lines_sorted(lines),
        lines.len() > 0,
        pc1 <= pc2,
    ensures
        pos_for_pc(lines, pc1) <= pos_for_pc(lines, pc2),
        0 <= pos_for_pc(lines, pc1) < lines.len(),
{
    lemma_count_below_props(lines, pc1);
    lemma_count_below_props(lines, pc2);
}

/// The number of lines below `pc` splits a sorted line list.
proof fn lemma_count_below_props(lines: Seq<LineRow>, pc: u64)
    requires
        lines_sorted(lines),
    ensures
        0 <= count_below(lines, pc) <= lines.len(),
        forall|k: int| 0 <= k < count_below(lines, pc) ==> #[trigger] lines[k].address < pc,
        forall|k: int| count_below(lines, pc) <= k < lines.len() ==> #[trigger] lines[k].address >= pc,
    decreases lines.len(),
{
    if lines.len() > 0 {
        let rest = lines.drop_last();
        assert(lines_sorted(rest));
        lemma_count_below_props(rest, pc);
        assert forall|k: int| 0 <= k < count_below(lines, pc) implies #[trigger] lines[k].address < pc by {
            if k < rest.len() {
                assert(rest[k] == lines[k]);
            }
        }
        assert forall|k: int| count_below(lines, pc) <= k < lines.len() implies #[trigger] lines[k].address >= pc by {
            if k < rest.len() {
                assert(rest[k] == lines[k]);
            } else {
                if lines.last().address < pc {
                    assert(count_below(lines, pc) == lines.len());
                }
            }
        }
    }
}

/// The line found by a search at `pc` is at `pc` when a line is at `pc`, and
/// otherwise it is the last line before `pc` (or the first line, when every
/// line is after `pc`).
pub proof fn lemma_pos_for_pc_selects(lines: Seq<LineRow>, pc: u64)
    requires
        lines_sorted(lines),
        lines.len() > 0,
    ensures
        (exists|k: int| 0 <= k < lines.len() && lines[k].address == pc) ==> lines[pos_for_pc(lines, pc)].address == pc,
        !(exists|k: int| 0 <= k < lines.len() && lines[k].address == pc) && lines[0].address < pc ==> {
            &&& lines[pos_for_pc(lines, pc)].address < pc
            &&& forall|k: int| pos_for_pc(lines, pc) < k < lines.len() ==> #[trigger] lines[k].address > pc
        },
{
    lemma_count_below_props(lines, pc);
}

} // verus!
