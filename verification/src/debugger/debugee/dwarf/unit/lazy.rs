//! The part of a compilation unit that is read on demand: its entries, in the
//! order of a depth-first walk, with the tree they form and the indexes built
//! over them. The reader of the debug information hands each entry over as a
//! plain record; what the unit keeps of it, and how the indexes grow, is
//! decided here.

use crate::debugger::debugee::dwarf::unit::parser::{
    children_spec, depth, enclosing_blocks, enclosing_blocks_of, parent_for, BlockKind, DieTree,
};
use crate::debugger::debugee::dwarf::unit::{
    count_begin_le, find_function_range, function_range_before, key_view, FunctionKey,
    die_ranges_sorted, index_function, index_name, is_subprogram_info, sort_die_ranges, subprogram_info, DieRange,
    FunctionInfo, Range, UnitIndexes,
};
use crate::debugger::debugee::dwarf::utils::{EntryModel, PathSearchIndex};
use crate::debugger::debugee::dwarf::{names_model, ns_chain, spec_demangle_alternate, spec_namespace_and_name, NamespaceHierarchy};
use crate::text::copy_string;
use std::collections::HashMap;
use vstd::prelude::*;

verus! {

/// Kind of an entry, as far as the unit keeps it.
pub enum EntryKind {
    /// A function: whether the entry only declares it, the offset of the
    /// declaration that it defines (its specification), its linkage name and
    /// the file and line of its declaration.
    Subprogram {
        is_declaration: bool,
        specification: Option<u64>,
        linkage_name: Option<String>,
        decl_file_line: Option<(u64, u64)>,
    },
    /// A formal parameter of a function.
    Parameter,
    /// A variable, with its linkage name.
    Variable { linkage_name: Option<String> },
    /// A type that is found by its name: a base, structure, union, array or
    /// pointer type.
    IndexedType,
    /// A lexical block.
    LexicalBlock,
    /// A namespace.
    Namespace,
    /// Any other entry.
    Other,
}

/// An entry of a unit as the reader hands it over.
pub struct EntryRecord {
    /// Offset of the entry in its unit.
    pub offset: u64,
    /// Name of the entry.
    pub name: Option<String>,
    /// Address ranges of the entry.
    pub ranges: Vec<Range>,
    pub kind: EntryKind,
}

/// What the unit keeps of an entry.
pub enum EntryData {
    /// A function.
    Function(FunctionInfo),
    /// A formal parameter and the function that encloses it.
    Parameter { fn_block_idx: Option<usize> },
    /// A variable, the function that encloses it and the closest lexical block
    /// below that function.
    Variable { fn_block_idx: Option<usize>, lexical_block_idx: Option<usize> },
    /// Any other entry.
    Plain,
}

/// Kind of block an entry of the given kind forms.
pub open spec fn block_kind_of(kind: EntryKind) -> BlockKind {
    match kind {
        EntryKind::Subprogram { .. } => BlockKind::Function,
        EntryKind::LexicalBlock => BlockKind::LexicalBlock,
        _ => BlockKind::Other,
    }
}

/// An index entry of a variable points to a variable entry of that name.
pub open spec fn names_variable(data: Seq<EntryData>, names: Seq<Option<String>>, name: Seq<char>, i: usize) -> bool {
    &&& i < data.len()
    &&& i < names.len()
    &&& data[i as int] is Variable
    &&& names[i as int] matches Some(s) && s@ == name
}

/// An optional entry index as an optional integer.
pub open spec fn opt_int(i: Option<usize>) -> Option<int> {
    match i {
        Some(x) => Some(x as int),
        None => None,
    }
}

/// View of an optional string.
pub open spec fn opt_view(s: Option<String>) -> Option<Seq<char>> {
    match s {
        Some(x) => Some(x@),
        None => None,
    }
}

/// Namespace of a variable entry `i`: that of its demangled linkage name,
/// or else the namespaces that directly enclose it.
pub open spec fn variable_namespace(
    linkage_name: Option<Seq<char>>,
    parents: Seq<Option<usize>>,
    is_namespace: Seq<bool>,
    names: Seq<Seq<char>>,
    i: int,
) -> Seq<Seq<char>> {
    match linkage_name {
        Some(l) => spec_namespace_and_name(spec_demangle_alternate(l)).0,
        None => ns_chain(parents, is_namespace, names, i),
    }
}

/// Entries of a unit with their tree and indexes.
pub struct UnitLazyPart {
    tree: DieTree,
    kinds: Vec<BlockKind>,
    is_namespace: Vec<bool>,
    names: Vec<Option<String>>,
    data: Vec<EntryData>,
    entry_ranges: Vec<Vec<Range>>,
    die_ranges: Vec<DieRange>,
    indexes: UnitIndexes,
    die_offsets: HashMap<u64, usize>,
    function_index: PathSearchIndex<usize>,
}

impl UnitLazyPart {
    pub closed spec fn len_view(&self) -> nat {
        self.tree.len_view()
    }

    /// Parent of each entry.
    pub closed spec fn parents(&self) -> Seq<Option<usize>> {
        self.tree.parents()
    }

    /// Kind of block of each entry.
    pub closed spec fn kinds_view(&self) -> Seq<BlockKind> {
        self.kinds@
    }

    /// Whether each entry is a namespace.
    pub closed spec fn is_namespace_view(&self) -> Seq<bool> {
        self.is_namespace@
    }

    /// Name of each entry.
    pub closed spec fn names_view(&self) -> Seq<Option<String>> {
        self.names@
    }

    /// What is kept of each entry.
    pub closed spec fn data_view(&self) -> Seq<EntryData> {
        self.data@
    }

    /// Address ranges of each entry.
    pub closed spec fn entry_ranges_view(&self) -> Seq<Seq<Range>> {
        self.entry_ranges@.map_values(|v: Vec<Range>| v@)
    }

    /// Address ranges of the entries, each with its entry.
    pub closed spec fn die_ranges_view(&self) -> Seq<DieRange> {
        self.die_ranges@
    }

    /// Index of the entry at each offset.
    pub closed spec fn offsets_view(&self) -> Map<u64, usize> {
        self.die_offsets@
    }

    /// Variables by name: namespace and entry of each.
    pub closed spec fn variables_view(&self) -> Map<Seq<char>, Vec<(NamespaceHierarchy, usize)>> {
        self.indexes.variable_index@
    }

    /// Types by name: offset of the last type entry with that name.
    pub closed spec fn types_view(&self) -> Map<Seq<char>, u64> {
        self.indexes.type_index@
    }

    /// Function declarations by offset: their entries.
    pub closed spec fn declarations_view(&self) -> Map<u64, usize> {
        self.indexes.fn_declarations@
    }

    /// Functions with address ranges by namespace and name: their entries.
    pub closed spec fn functions_view(&self) -> Seq<EntryModel<usize>> {
        self.function_index.entries_view()
    }

    /// Delimiter of the paths of the function index.
    pub closed spec fn function_delimiter(&self) -> Seq<char> {
        self.function_index.delimiter_view()
    }

    /// The tree of the entries is consistent, every list has an item per
    /// entry, and every index points to entries: offsets, ranges and
    /// declarations to existing entries, each variable of the variable index
    /// to a variable entry of that name, each function of the function index
    /// to a function entry.
    pub open spec fn wf(&self) -> bool {
        &&& self.parents().len() == self.len_view()
        &&& self.kinds_view().len() == self.len_view()
        &&& self.is_namespace_view().len() == self.len_view()
        &&& self.names_view().len() == self.len_view()
        &&& self.data_view().len() == self.len_view()
        &&& self.entry_ranges_view().len() == self.len_view()
        &&& self.tree_wf()
        &&& forall|o: u64| #[trigger] self.offsets_view().contains_key(o) ==> self.offsets_view()[o] < self.len_view()
        &&& forall|o: u64| #[trigger] self.declarations_view().contains_key(o) ==> self.declarations_view()[o]
            < self.len_view()
        &&& forall|k: int| 0 <= k < self.die_ranges_view().len() ==> #[trigger] self.die_ranges_view()[k].die_idx
            < self.len_view()
        &&& forall|n: Seq<char>, k: int|
            self.variables_view().contains_key(n) && 0 <= k < self.variables_view()[n]@.len() ==> names_variable(
                self.data_view(),
                self.names_view(),
                n,
                #[trigger] self.variables_view()[n]@[k].1,
            )
        &&& forall|k: int| 0 <= k < self.functions_view().len() ==> {
            let i = (#[trigger] self.functions_view()[k]).2;
            &&& i < self.len_view()
            &&& self.data_view()[i as int] is Function
        }
    }

    /// The tree of the entries is consistent.
    pub closed spec fn tree_wf(&self) -> bool {
        self.tree.wf()
    }

    /// A unit without entries.
    pub fn new() -> (r: Self)
        ensures
            r.wf(),
            r.len_view() == 0,
            r.die_ranges_view() == Seq::<DieRange>::empty(),
            r.offsets_view() == Map::<u64, usize>::empty(),
            r.variables_view() == Map::<Seq<char>, Vec<(NamespaceHierarchy, usize)>>::empty(),
            r.types_view() == Map::<Seq<char>, u64>::empty(),
            r.declarations_view() == Map::<u64, usize>::empty(),
            r.functions_view() == Seq::<EntryModel<usize>>::empty(),
            r.function_delimiter() == seq![':', ':'],
    {
        let delimiter = "::";
        proof {
            reveal_strlit("::");
        }
        let r = UnitLazyPart {
            tree: DieTree::new(),
            kinds: Vec::new(),
            is_namespace: Vec::new(),
            names: Vec::new(),
            data: Vec::new(),
            entry_ranges: Vec::new(),
            die_ranges: Vec::new(),
            indexes: UnitIndexes::new(),
            die_offsets: HashMap::new(),
            function_index: PathSearchIndex::new(delimiter),
        };
        assert(r.offsets_view() =~= Map::<u64, usize>::empty());
        r
    }

    /// Number of entries.
    pub fn len(&self) -> (r: usize)
        ensures
            r == self.len_view(),
    {
        self.tree.len()
    }

    /// Parent of entry `i`.
    pub fn parent(&self, i: usize) -> (r: Option<usize>)
        requires
            self.wf(),
            i < self.len_view(),
        ensures
            r == self.parents()[i as int],
    {
        self.tree.parent(i)
    }

    /// Children of entry `i`, in the order they were read.
    pub fn children(&self, i: usize) -> (r: &Vec<usize>)
        requires
            self.wf(),
            i < self.len_view(),
        ensures
            r@ == children_spec(self.parents(), i as int),
    {
        &self.tree.node(i).children
    }

    /// What is kept of entry `i`.
    pub fn entry(&self, i: usize) -> (r: &EntryData)
        requires
            self.wf(),
            i < self.len_view(),
        ensures
            *r == self.data_view()[i as int],
    {
        &self.data[i]
    }

    /// Address ranges of the entries, each with its entry.
    pub fn die_ranges(&self) -> (r: &Vec<DieRange>)
        ensures
            r@ == self.die_ranges_view(),
    {
        &self.die_ranges
    }

    /// Index of the entry at an offset.
    pub fn entry_at(&self, offset: u64) -> (r: Option<usize>)
        ensures
            r is Some == self.offsets_view().contains_key(offset),
            r matches Some(i) ==> i == self.offsets_view()[offset],
    {
        match self.die_offsets.get(&offset) {
            Some(i) => Some(*i),
            None => None,
        }
    }

    /// Indexes of variables, types and function declarations.
    pub fn indexes(&self) -> (r: &UnitIndexes)
        ensures
            r.variable_index@ == self.variables_view(),
            r.type_index@ == self.types_view(),
            r.fn_declarations@ == self.declarations_view(),
    {
        &self.indexes
    }

    /// Index of the functions with address ranges.
    pub fn function_index(&self) -> (r: &PathSearchIndex<usize>)
        ensures
            r.entries_view() == self.functions_view(),
            r.delimiter_view() == self.function_delimiter(),
    {
        &self.function_index
    }

    /// Record the address ranges of entry `idx`.
    fn push_ranges(&mut self, ranges: &Vec<Range>, idx: usize)
        ensures
            final(self).die_ranges_view() == old(self).die_ranges_view() + ranges@.map_values(
                |r: Range| DieRange { range: r, die_idx: idx },
            ),
            final(self).tree == old(self).tree,
            final(self).kinds == old(self).kinds,
            final(self).is_namespace == old(self).is_namespace,
            final(self).names == old(self).names,
            final(self).data == old(self).data,
            final(self).entry_ranges == old(self).entry_ranges,
            final(self).indexes == old(self).indexes,
            final(self).die_offsets == old(self).die_offsets,
            final(self).function_index == old(self).function_index,
    {
        let mut k: usize = 0;
        while k < ranges.len()
            invariant
                k <= ranges@.len(),
                self.die_ranges@ == old(self).die_ranges@ + ranges@.subrange(0, k as int).map_values(
                    |r: Range| DieRange { range: r, die_idx: idx },
                ),
                self.tree == old(self).tree,
                self.kinds == old(self).kinds,
                self.is_namespace == old(self).is_namespace,
                self.names == old(self).names,
                self.data == old(self).data,
                self.entry_ranges == old(self).entry_ranges,
                self.indexes == old(self).indexes,
                self.die_offsets == old(self).die_offsets,
                self.function_index == old(self).function_index,
            decreases ranges@.len() - k,
        {
            self.die_ranges.push(DieRange { range: ranges[k], die_idx: idx });
            proof {
                assert(ranges@.subrange(0, k + 1).map_values(|r: Range| DieRange { range: r, die_idx: idx })
                    =~= ranges@.subrange(0, k as int).map_values(|r: Range| DieRange { range: r, die_idx: idx }).push(
                    DieRange { range: ranges@[k as int], die_idx: idx },
                ));
            }
            k = k + 1;
        }
        proof {
            assert(ranges@.subrange(0, k as int) =~= ranges@);
        }
    }
}

/// The declaration that a subprogram entry with the given specification
/// completes: the function entry recorded for that offset among the entries
/// read before it, if any.
pub open spec fn declaration_of(
    specification: Option<u64>,
    declarations: Map<u64, usize>,
    data: Seq<EntryData>,
) -> Option<FunctionInfo> {
    match specification {
        Some(s) => if declarations.contains_key(s) && declarations[s] < data.len()
            && data[declarations[s] as int] is Function {
            Some(data[declarations[s] as int]->Function_0)
        } else {
            None
        },
        None => None,
    }
}

impl UnitLazyPart {
    /// Add the entry read next, `delta` levels deeper than the entry read
    /// before it (`delta` is at most 1, the depth never becomes negative, and
    /// the first entry is not below the top), and return its index.
    ///
    /// The entry becomes a child of its parent, its offset and address ranges
    /// point to it, and, by its kind: a declared function is recorded by its
    /// offset, a function gets its information (completed from the
    /// declaration it defines) and is indexed by namespace and name when it
    /// has address ranges, a named variable is indexed by name with its
    /// namespace, a named type is indexed by name; variables and parameters
    /// keep the blocks that enclose them.
    #[verifier::rlimit(40)]
    pub fn add_entry(&mut self, delta: isize, record: EntryRecord) -> (idx: usize)
        requires
            old(self).wf(),
            old(self).len_view() < usize::MAX,
            delta <= 1,
            old(self).len_view() == 0 ==> delta >= 0,
            old(self).len_view() > 0 ==> depth(old(self).parents(), old(self).len_view() - 1) + delta >= 0,
        ensures
            final(self).wf(),
            idx == old(self).len_view(),
            final(self).parents() == old(self).parents().push(parent_for(old(self).parents(), delta as int)),
            final(self).data_view().drop_last() == old(self).data_view(),
            final(self).entry_ranges_view() == old(self).entry_ranges_view().push(record.ranges@),
            final(self).names_view().drop_last() == old(self).names_view(),
            opt_view(final(self).names_view()[idx as int]) == opt_view(record.name),
            final(self).kinds_view() == old(self).kinds_view().push(block_kind_of(record.kind)),
            final(self).is_namespace_view() == old(self).is_namespace_view().push(record.kind is Namespace),
            final(self).offsets_view() == old(self).offsets_view().insert(record.offset, idx),
            final(self).die_ranges_view() == old(self).die_ranges_view() + record.ranges@.map_values(
                |r: Range| DieRange { range: r, die_idx: idx },
            ),
            final(self).function_delimiter() == old(self).function_delimiter(),
            match record.kind {
                EntryKind::Subprogram { is_declaration, specification, linkage_name, decl_file_line } => {
                    &&& final(self).declarations_view() == if is_declaration {
                        old(self).declarations_view().insert(record.offset, idx)
                    } else {
                        old(self).declarations_view()
                    }
                    &&& final(self).data_view()[idx as int] matches EntryData::Function(info)
                    &&& is_subprogram_info(
                        record.name,
                        opt_view(linkage_name),
                        decl_file_line,
                        ns_chain(
                            final(self).parents(),
                            final(self).is_namespace_view(),
                            names_model(final(self).names_view()),
                            idx as int,
                        ),
                        declaration_of(specification, final(self).declarations_view(), old(self).data_view()),
                        info,
                    )
                    &&& final(self).functions_view() == if record.ranges@.len() > 0 && index_name(info) is Some {
                        old(self).functions_view().push((info.namespace@, index_name(info)->Some_0, idx))
                    } else {
                        old(self).functions_view()
                    }
                    &&& final(self).variables_view() == old(self).variables_view()
                    &&& final(self).types_view() == old(self).types_view()
                },
                EntryKind::Parameter => {
                    &&& final(self).data_view()[idx as int] matches EntryData::Parameter { fn_block_idx }
                    &&& opt_int(fn_block_idx) == enclosing_blocks(
                        final(self).parents(),
                        final(self).kinds_view(),
                        final(self).parents()[idx as int],
                    ).1
                    &&& final(self).variables_view() == old(self).variables_view()
                    &&& final(self).types_view() == old(self).types_view()
                    &&& final(self).declarations_view() == old(self).declarations_view()
                    &&& final(self).functions_view() == old(self).functions_view()
                },
                EntryKind::Variable { linkage_name } => {
                    &&& final(self).data_view()[idx as int] matches EntryData::Variable { fn_block_idx, lexical_block_idx }
                    &&& opt_int(fn_block_idx) == enclosing_blocks(
                        final(self).parents(),
                        final(self).kinds_view(),
                        final(self).parents()[idx as int],
                    ).1
                    &&& opt_int(lexical_block_idx) == enclosing_blocks(
                        final(self).parents(),
                        final(self).kinds_view(),
                        final(self).parents()[idx as int],
                    ).0
                    &&& match record.name {
                        Some(n) => {
                            let before = if old(self).variables_view().contains_key(n@) {
                                old(self).variables_view()[n@]@
                            } else {
                                Seq::empty()
                            };
                            &&& final(self).variables_view().contains_key(n@)
                            &&& final(self).variables_view()[n@]@.drop_last() == before
                            &&& final(self).variables_view()[n@]@.last().1 == idx
                            &&& final(self).variables_view()[n@]@.last().0@ == variable_namespace(
                                opt_view(linkage_name),
                                final(self).parents(),
                                final(self).is_namespace_view(),
                                names_model(final(self).names_view()),
                                idx as int,
                            )
                            &&& forall|m: Seq<char>| m != n@ ==> #[trigger] final(self).variables_view().contains_key(m)
                                == old(self).variables_view().contains_key(m)
                            &&& forall|m: Seq<char>|
                                m != n@ && old(self).variables_view().contains_key(m)
                                    ==> #[trigger] final(self).variables_view()[m] == old(self).variables_view()[m]
                        },
                        None => final(self).variables_view() == old(self).variables_view(),
                    }
                    &&& final(self).types_view() == old(self).types_view()
                    &&& final(self).declarations_view() == old(self).declarations_view()
                    &&& final(self).functions_view() == old(self).functions_view()
                },
                EntryKind::IndexedType => {
                    &&& final(self).data_view()[idx as int] is Plain
                    &&& final(self).types_view() == match record.name {
                        Some(n) => old(self).types_view().insert(n@, record.offset),
                        None => old(self).types_view(),
                    }
                    &&& final(self).variables_view() == old(self).variables_view()
                    &&& final(self).declarations_view() == old(self).declarations_view()
                    &&& final(self).functions_view() == old(self).functions_view()
                },
                _ => {
                    &&& final(self).data_view()[idx as int] is Plain
                    &&& final(self).variables_view() == old(self).variables_view()
                    &&& final(self).types_view() == old(self).types_view()
                    &&& final(self).declarations_view() == old(self).declarations_view()
                    &&& final(self).functions_view() == old(self).functions_view()
                },
            },
    {
        let ghost old_data = self.data@;
        let ghost old_names = self.names@;
        let ghost old_vars = self.indexes.variable_index@;
        let ghost old_fns = self.function_index.entries_view();
        let ghost old_ranges = self.die_ranges@;
        let idx = self.tree.push(delta);
        let block_kind = match &record.kind {
            EntryKind::Subprogram { .. } => BlockKind::Function,
            EntryKind::LexicalBlock => BlockKind::LexicalBlock,
            _ => BlockKind::Other,
        };
        let is_ns = match &record.kind {
            EntryKind::Namespace => true,
            _ => false,
        };
        self.kinds.push(block_kind);
        self.is_namespace.push(is_ns);
        let name_copy = match &record.name {
            Some(n) => Some(copy_string(n)),
            None => None,
        };
        self.names.push(name_copy);
        self.push_ranges(&record.ranges, idx);
        let parent = self.tree.parent(idx);
        proof {
            assert(self.tree.parents()[idx as int] == parent);
            assert(parent matches Some(p) ==> p < idx);
        }
        let data = match record.kind {
            EntryKind::Subprogram { is_declaration, specification, linkage_name, decl_file_line } => {
                if is_declaration {
                    self.indexes.add_declaration(record.offset, idx);
                }
                let enclosing = NamespaceHierarchy::for_die(
                    &self.tree,
                    self.is_namespace.as_slice(),
                    self.names.as_slice(),
                    idx,
                );
                let decl_idx = match specification {
                    Some(s) => self.indexes.declaration(s),
                    None => None,
                };
                let declaration: Option<&FunctionInfo> = match decl_idx {
                    Some(d) => if d < self.data.len() {
                        match &self.data[d] {
                            EntryData::Function(f) => Some(f),
                            _ => None,
                        }
                    } else {
                        None
                    },
                    None => None,
                };
                let linkage = match &linkage_name {
                    Some(l) => Some(l.as_str()),
                    None => None,
                };
                let info = subprogram_info(record.name, linkage, decl_file_line, enclosing, declaration);
                index_function(&mut self.function_index, &info, record.ranges.len() > 0, idx);
                EntryData::Function(info)
            },
            EntryKind::Parameter => {
                let (_, fn_block) = enclosing_blocks_of(&self.tree, self.kinds.as_slice(), parent);
                EntryData::Parameter { fn_block_idx: fn_block }
            },
            EntryKind::Variable { linkage_name } => {
                let (lexical, fn_block) = enclosing_blocks_of(&self.tree, self.kinds.as_slice(), parent);
                if let Some(n) = &record.name {
                    let ns = match &linkage_name {
                        Some(l) => NamespaceHierarchy::from_mangled(l.as_str()).0,
                        None => NamespaceHierarchy::for_die(
                            &self.tree,
                            self.is_namespace.as_slice(),
                            self.names.as_slice(),
                            idx,
                        ),
                    };
                    self.indexes.add_variable(n.as_str(), ns, idx);
                }
                EntryData::Variable { fn_block_idx: fn_block, lexical_block_idx: lexical }
            },
            EntryKind::IndexedType => {
                if let Some(n) = &record.name {
                    self.indexes.add_type(n.as_str(), record.offset);
                }
                EntryData::Plain
            },
            _ => EntryData::Plain,
        };
        self.data.push(data);
        let ghost old_er = self.entry_ranges@;
        self.entry_ranges.push(record.ranges);
        self.die_offsets.insert(record.offset, idx);
        proof {
            assert(self.data@.drop_last() =~= old_data);
            assert(self.entry_ranges_view() =~= old(self).entry_ranges_view().push(record.ranges@)) by {
                assert(self.entry_ranges@ == old_er.push(record.ranges));
            }
            assert(self.names@.drop_last() =~= old_names);
            assert forall|i: usize| i < old_data.len() implies self.data@[i as int] == old_data[i as int]
                && self.names@[i as int] == old_names[i as int] by {}
            assert forall|o: u64| #[trigger] self.die_offsets@.contains_key(o) implies self.die_offsets@[o]
                < self.tree.len_view() by {
                if o != record.offset {
                    assert(old(self).offsets_view().contains_key(o));
                }
            }
            assert forall|o: u64| #[trigger] self.indexes.fn_declarations@.contains_key(o) implies
                self.indexes.fn_declarations@[o] < self.tree.len_view() by {
                if self.indexes.fn_declarations@[o] != idx {
                    assert(old(self).declarations_view().contains_key(o));
                    assert(old(self).declarations_view()[o] == self.indexes.fn_declarations@[o]);
                }
            }
            assert forall|k: int| 0 <= k < self.die_ranges@.len() implies #[trigger] self.die_ranges@[k].die_idx
                < self.tree.len_view() by {
                if k >= old_ranges.len() {
                    assert(self.die_ranges@[k].die_idx == idx);
                } else {
                    assert(self.die_ranges@[k] == old(self).die_ranges_view()[k]);
                    assert(old(self).die_ranges_view()[k].die_idx < old(self).len_view());
                }
            }
            assert forall|n: Seq<char>, k: int|
                self.indexes.variable_index@.contains_key(n) && 0 <= k < self.indexes.variable_index@[n]@.len()
                implies names_variable(self.data@, self.names@, n, #[trigger] self.indexes.variable_index@[n]@[k].1) by {
                let i = self.indexes.variable_index@[n]@[k].1;
                if old_vars.contains_key(n) && k < old_vars[n]@.len() && self.indexes.variable_index@[n]@[k]
                    == old_vars[n]@[k] {
                    assert(names_variable(old_data, old_names, n, old(self).variables_view()[n]@[k].1));
                    assert(self.data@[i as int] == old_data[i as int]);
                    assert(self.names@[i as int] == old_names[i as int]);
                } else {
                    assert(i == idx);
                }
            }
            assert forall|k: int| 0 <= k < self.function_index.entries_view().len() implies {
                let i = (#[trigger] self.function_index.entries_view()[k]).2;
                &&& i < self.tree.len_view()
                &&& self.data@[i as int] is Function
            } by {
                if k < old_fns.len() {
                    assert(self.function_index.entries_view()[k] == old_fns[k]);
                    assert(self.data@[old_fns[k].2 as int] == old_data[old_fns[k].2 as int]);
                }
            }
        }
        idx
    }

    /// Finish reading the entries: their address ranges are ordered by the
    /// address they begin at.
    pub fn finish(&mut self)
        requires
            old(self).wf(),
        ensures
            final(self).wf(),
            die_ranges_sorted(final(self).die_ranges_view()),
            final(self).die_ranges_view().to_multiset() == old(self).die_ranges_view().to_multiset(),
            final(self).len_view() == old(self).len_view(),
            final(self).parents() == old(self).parents(),
            final(self).data_view() == old(self).data_view(),
            final(self).entry_ranges_view() == old(self).entry_ranges_view(),
            final(self).names_view() == old(self).names_view(),
            final(self).offsets_view() == old(self).offsets_view(),
            final(self).variables_view() == old(self).variables_view(),
            final(self).types_view() == old(self).types_view(),
            final(self).declarations_view() == old(self).declarations_view(),
            final(self).functions_view() == old(self).functions_view(),
    {
        let mut ranges: Vec<DieRange> = Vec::new();
        std::mem::swap(&mut ranges, &mut self.die_ranges);
        let ghost before = ranges@;
        let sorted = sort_die_ranges(ranges);
        proof {
            assert forall|k: int| 0 <= k < sorted@.len() implies #[trigger] sorted@[k].die_idx < self.tree.len_view() by {
                vstd::seq_lib::to_multiset_contains(sorted@, sorted@[k]);
                vstd::seq_lib::to_multiset_contains(before, sorted@[k]);
                assert(sorted@.contains(sorted@[k]));
                let j = choose|j: int| 0 <= j < before.len() && before[j] == sorted@[k];
                assert(old(self).die_ranges_view()[j].die_idx < old(self).len_view());
            }
        }
        self.die_ranges = sorted;
        assert(self.offsets_view() == old(self).offsets_view());
        assert(self.declarations_view() == old(self).declarations_view());
        assert(self.variables_view() == old(self).variables_view());
        assert(self.functions_view() == old(self).functions_view());
    }
}

/// Whether each entry is a function.
pub open spec fn function_flags_of(data: Seq<EntryData>) -> Seq<bool> {
    data.map_values(|d: EntryData| d is Function)
}

/// The function that an address belongs to in a unit whose entry ranges are
/// ordered (see [`function_range_before`]), as its name and its address
/// ranges.
pub open spec fn spec_function_key(part: UnitLazyPart, pc: u64) -> Option<(Option<Seq<char>>, Seq<Range>)> {
    match function_range_before(
        part.die_ranges_view(),
        function_flags_of(part.data_view()),
        pc,
        count_begin_le(part.die_ranges_view(), pc),
    ) {
        Some(i) => {
            let e = part.die_ranges_view()[i].die_idx as int;
            Some((opt_view(part.data_view()[e]->Function_0.name), part.entry_ranges_view()[e]))
        },
        None => None,
    }
}

/// A range found by [`function_range_before`] is one of the ranges before
/// the bound, and it belongs to a function.
proof fn lemma_function_range_found(drs: Seq<DieRange>, is_function: Seq<bool>, pc: u64, k: int)
    ensures
        function_range_before(drs, is_function, pc, k) matches Some(i) ==> 0 <= i < k && i < drs.len()
            && is_function[drs[i].die_idx as int],
    decreases k,
{
    if k > 0 && k <= drs.len() {
        lemma_function_range_found(drs, is_function, pc, k - 1);
    }
}

impl UnitLazyPart {
    /// For each entry, whether it is a function.
    pub fn function_flags(&self) -> (r: Vec<bool>)
        ensures
            r@ == function_flags_of(self.data_view()),
    {
        let mut r: Vec<bool> = Vec::new();
        let mut i: usize = 0;
        while i < self.data.len()
            invariant
                i <= self.data@.len(),
                r@ == function_flags_of(self.data_view().subrange(0, i as int)),
            decreases self.data@.len() - i,
        {
            let f = match &self.data[i] {
                EntryData::Function(_) => true,
                _ => false,
            };
            r.push(f);
            proof {
                assert(function_flags_of(self.data_view().subrange(0, i + 1)) =~= function_flags_of(
                    self.data_view().subrange(0, i as int),
                ).push(f));
            }
            i = i + 1;
        }
        proof {
            assert(self.data_view().subrange(0, i as int) =~= self.data_view());
        }
        r
    }

    /// The function that an address belongs to, as its name and address
    /// ranges: the last function range among the entry ranges that begin at
    /// or before the address that contains it. The entry ranges must be
    /// ordered (see [`UnitLazyPart::finish`]).
    pub fn function_key_at(&self, pc: u64) -> (r: Option<FunctionKey>)
        requires
            self.wf(),
            die_ranges_sorted(self.die_ranges_view()),
        ensures
            key_view(r) == spec_function_key(*self, pc),
    {
        let flags = self.function_flags();
        let drs = self.die_ranges.as_slice();
        let fl = flags.as_slice();
        assert(drs@ == self.die_ranges_view());
        assert(fl@ == function_flags_of(self.data_view()));
        let ghost fr = function_range_before(drs@, fl@, pc, count_begin_le(drs@, pc));
        proof {
            lemma_function_range_found(drs@, fl@, pc, count_begin_le(drs@, pc));
        }
        let found = find_function_range(drs, fl, pc);
        let n = drs.len();
        match found {
            None => None,
            Some(i) => {
                proof {
                    let j = fr->Some_0;
                    assert(0 <= j < n);
                    assert(found == Some(j as usize));
                    assert(j == i as int);
                    assert(drs@[j].die_idx < self.len_view());
                }
                let e = drs[i].die_idx;
                proof {
                    assert(fl@[e as int]);
                    assert(self.data@[e as int] is Function);
                }
                match &self.data[e] {
                    EntryData::Function(info) => {
                        let name = match &info.name {
                            Some(n) => Some(copy_string(n)),
                            None => None,
                        };
                        let ranges = self.entry_ranges[e].clone();
                        assert(ranges@ =~= self.entry_ranges@[e as int]@);
                        Some(FunctionKey { name, ranges })
                    },
                    _ => None,
                }
            },
        }
    }
}

} // verus!
