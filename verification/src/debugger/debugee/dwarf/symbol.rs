//! Symbol table of an object file, searched by regular expression.

use crate::debugger::address::GlobalAddress;
use crate::debugger::error;
use crate::text::copy_string;
use regex::Error as RegexError;
use vstd::prelude::*;

verus! {

/// Kind of a symbol of an object file.
#[derive(Debug, Clone, Copy, PartialEq, Eq, Structural)]
pub enum SymbolKind {
    Unknown,
    Text,
    Data,
    Section,
    File,
    Label,
    Tls,
}

/// A symbol found in a symbol table.
#[derive(Debug, Clone)]
pub struct Symbol<'a> {
    pub name: &'a str,
    pub kind: SymbolKind,
    pub addr: GlobalAddress,
}

/// What a symbol table keeps of a symbol besides its name.
#[derive(Debug, Clone, Copy, PartialEq, Eq, Structural)]
pub struct SymbolVal {
    pub kind: SymbolKind,
    pub addr: GlobalAddress,
}

/// A symbol as the object file lists it: its mangled name, kind and address.
pub struct RawSymbol {
    pub name: String,
    pub kind: SymbolKind,
    pub addr: GlobalAddress,
}

#[verifier::external_type_specification]
#[verifier::external_body]
pub struct ExRegex(regex::Regex);

#[verifier::external_type_specification]
#[verifier::external_body]
pub struct ExRegexError(RegexError);

/// Whether `regex::Regex::new` accepts `pattern`.
pub uninterp spec fn regex_valid(pattern: Seq<char>) -> bool;

/// Whether the regular expression compiled from `pattern` matches some part
/// of `haystack`.
pub uninterp spec fn regex_finds(pattern: Seq<char>, haystack: Seq<char>) -> bool;

/// Name that `rustc_demangle::demangle` gives a symbol, in its plain form
/// (with the hash suffix).
pub uninterp spec fn spec_demangle_full(name: Seq<char>) -> Seq<char>;

/// A regular expression with the pattern it was compiled from.
pub struct SymbolRegex {
    pattern: String,
    regex: regex::Regex,
}

impl View for SymbolRegex {
    type V = Seq<char>;

    closed spec fn view(&self) -> Seq<char> {
        self.pattern@
    }
}

/// `regex::Regex::new`: compiles `pattern` with the default options. The
/// contract names whether the pattern is accepted, and keeps the pattern
/// beside the compiled expression.
#[verifier::external_body]
fn regex_new(pattern: &str) -> (r: Result<SymbolRegex, RegexError>)
    ensures
        r is Ok == regex_valid(pattern@),
        r matches Ok(re) ==> re@ == pattern@,
{
    match regex::Regex::new(pattern) {
        Ok(regex) => Ok(SymbolRegex { pattern: pattern.to_string(), regex }),
        Err(e) => Err(e),
    }
}

/// `regex::Regex::find`: whether the expression matches some part of
/// `haystack`, named as a function of the pattern and the haystack.
#[verifier::external_body]
fn regex_find(re: &SymbolRegex, haystack: &str) -> (r: bool)
    ensures
        r == regex_finds(re@, haystack@),
{
    re.regex.find(haystack).is_some()
}

/// Message of a `regex::Error`, as its `Display` renders it; nothing is
/// stated of the text.
#[verifier::external_body]
fn regex_error_text(e: &RegexError) -> String {
    e.to_string()
}

/// `rustc_demangle::demangle`, rendered with `{}`: the demangled name with
/// its hash suffix, or the name itself when it is not a mangled one.
#[verifier::external_body]
fn demangle_full(name: &str) -> (r: String)
    ensures
        r@ == spec_demangle_full(name@),
{
    rustc_demangle::demangle(name).to_string()
}

impl SymbolRegex {
    /// Compile a regular expression; an invalid pattern is a
    /// [`error::Error::RegEx`].
    pub fn new(pattern: &str) -> (r: Result<SymbolRegex, error::Error>)
        ensures
            r is Ok == regex_valid(pattern@),
            r matches Ok(re) ==> re@ == pattern@,
            r matches Err(e) ==> e is RegEx,
    {
        match regex_new(pattern) {
            Ok(re) => Ok(re),
            Err(e) => Err(error::Error::RegEx(regex_error_text(&e))),
        }
    }

    /// True when the expression matches some part of `haystack`.
    pub fn finds(&self, haystack: &str) -> (r: bool)
        ensures
            r == regex_finds(self@, haystack@),
    {
        regex_find(self, haystack)
    }
}

/// Names of table entries.
pub open spec fn entry_names(entries: Seq<(String, SymbolVal)>) -> Seq<Seq<char>> {
    entries.map_values(|e: (String, SymbolVal)| e.0@)
}

/// Map from name to symbol made by inserting the entries in order.
pub open spec fn entries_map(entries: Seq<(String, SymbolVal)>) -> Map<Seq<char>, SymbolVal>
    decreases entries.len(),
{
    if entries.len() == 0 {
        Map::empty()
    } else {
        entries_map(entries.drop_last()).insert(entries.last().0@, entries.last().1)
    }
}

/// Map from demangled name to symbol made by inserting the symbols in order,
/// a later symbol with the same name replacing an earlier one.
pub open spec fn symbols_map(symbols: Seq<RawSymbol>) -> Map<Seq<char>, SymbolVal>
    decreases symbols.len(),
{
    if symbols.len() == 0 {
        Map::empty()
    } else {
        symbols_map(symbols.drop_last()).insert(
            spec_demangle_full(symbols.last().name@),
            SymbolVal { kind: symbols.last().kind, addr: symbols.last().addr },
        )
    }
}

/// Symbol table: symbols by demangled name.
pub struct SymbolTab {
    entries: Vec<(String, SymbolVal)>,
}

impl View for SymbolTab {
    type V = Map<Seq<char>, SymbolVal>;

    closed spec fn view(&self) -> Map<Seq<char>, SymbolVal> {
        entries_map(self.entries@)
    }
}

/// True when `found` holds the symbols of table `tab` whose name the regular
/// expression compiled from `pattern` matches some part of, each once, in
/// any order.
pub open spec fn found_in_table<'a>(tab: Map<Seq<char>, SymbolVal>, pattern: Seq<char>, found: Seq<Symbol<'a>>) -> bool {
    &&& forall|i: int|
        0 <= i < found.len() ==> {
            &&& tab.contains_key((#[trigger] found[i]).name@)
            &&& tab[found[i].name@] == (SymbolVal { kind: found[i].kind, addr: found[i].addr })
            &&& regex_finds(pattern, found[i].name@)
        }
    &&& forall|n: Seq<char>| #[trigger]
        tab.contains_key(n) && regex_finds(pattern, n) ==> exists|i: int| 0 <= i < found.len() && found[i].name@ == n
    &&& forall|i: int, j: int| 0 <= i < j < found.len() ==> (#[trigger] found[i]).name@ != (#[trigger] found[j]).name@
}

/// With distinct names, each entry is in the map, and the map holds nothing
/// else.
proof fn lemma_entries_map(entries: Seq<(String, SymbolVal)>)
    requires
        entry_names(entries).no_duplicates(),
    ensures
        forall|i: int|
            0 <= i < entries.len() ==> #[trigger] entries_map(entries).contains_key(entries[i].0@)
                && entries_map(entries)[entries[i].0@] == entries[i].1,
        forall|n: Seq<char>| #[trigger]
            entries_map(entries).contains_key(n) ==> exists|i: int| 0 <= i < entries.len() && entries[i].0@ == n,
    decreases entries.len(),
{
    if entries.len() > 0 {
        let rest = entries.drop_last();
        let last = entries.last();
        assert(entry_names(rest) =~= entry_names(entries).drop_last());
        lemma_entries_map(rest);
        assert(entries_map(entries) == entries_map(rest).insert(last.0@, last.1));
        assert forall|i: int| 0 <= i < entries.len() implies #[trigger] entries_map(entries).contains_key(
            entries[i].0@,
        ) && entries_map(entries)[entries[i].0@] == entries[i].1 by {
            if i < rest.len() {
                assert(rest[i] == entries[i]);
                assert(entry_names(entries)[i] == entries[i].0@);
                assert(entry_names(entries)[entries.len() - 1] == last.0@);
                assert(entry_names(entries)[i] != entry_names(entries)[entries.len() - 1]);
                assert(entries_map(rest).contains_key(rest[i].0@));
            }
        }
        assert forall|n: Seq<char>| #[trigger] entries_map(entries).contains_key(n) implies exists|i: int|
            0 <= i < entries.len() && entries[i].0@ == n by {
            if n != last.0@ {
                assert(entries_map(rest).contains_key(n));
                let i = choose|i: int| 0 <= i < rest.len() && rest[i].0@ == n;
                assert(entries[i] == rest[i]);
            } else {
                assert(entries[entries.len() - 1].0@ == n);
            }
        }
    }
}

/// Replacing the symbol of an entry, names being distinct, replaces it in
/// the map.
proof fn lemma_entries_map_update(entries: Seq<(String, SymbolVal)>, k: int, e: (String, SymbolVal))
    requires
        entry_names(entries).no_duplicates(),
        0 <= k < entries.len(),
        e.0@ == entries[k].0@,
    ensures
        entries_map(entries.update(k, e)) == entries_map(entries).insert(e.0@, e.1),
    decreases entries.len(),
{
    let rest = entries.drop_last();
    assert(entry_names(rest) =~= entry_names(entries).drop_last());
    if k == entries.len() - 1 {
        assert(entries.update(k, e).drop_last() =~= rest);
        assert(entries_map(entries.update(k, e)) =~= entries_map(entries).insert(e.0@, e.1));
    } else {
        lemma_entries_map_update(rest, k, e);
        assert(entries.update(k, e).drop_last() =~= rest.update(k, e));
        assert(entry_names(entries)[k] != entry_names(entries)[entries.len() - 1]);
        assert(entries_map(entries.update(k, e)) =~= entries_map(entries).insert(e.0@, e.1));
    }
}

impl SymbolTab {
    /// Names in the table are distinct.
    #[verifier::type_invariant]
    closed spec fn wf(&self) -> bool {
        entry_names(self.entries@).no_duplicates()
    }

    /// Symbol table of the given symbols, by demangled name: of symbols with
    /// the same demangled name, the last one is kept.
    pub fn new(symbols: &Vec<RawSymbol>) -> (r: SymbolTab)
        ensures
            r@ == symbols_map(symbols@),
    {
        let mut entries: Vec<(String, SymbolVal)> = Vec::new();
        let mut i: usize = 0;
        while i < symbols.len()
            invariant
                i <= symbols.len(),
                entry_names(entries@).no_duplicates(),
                entries_map(entries@) == symbols_map(symbols@.subrange(0, i as int)),
            decreases symbols.len() - i,
        {
            let name = demangle_full(symbols[i].name.as_str());
            let val = SymbolVal { kind: symbols[i].kind, addr: symbols[i].addr };
            let mut k: usize = 0;
            let mut found: bool = false;
            while k < entries.len() && !found
                invariant
                    k <= entries.len(),
                    found ==> k < entries.len() && entries@[k as int].0@ == name@,
                    !found ==> forall|j: int| 0 <= j < k ==> (#[trigger] entries@[j]).0@ != name@,
                decreases entries.len() - k + (if found {
                    0int
                } else {
                    1int
                }),
            {
                if crate::text::string_eq(&entries[k].0, &name) {
                    found = true;
                } else {
                    k = k + 1;
                }
            }
            proof {
                let sub = symbols@.subrange(0, i + 1);
                assert(sub.drop_last() =~= symbols@.subrange(0, i as int));
                assert(sub.last() == symbols@[i as int]);
            }
            if found {
                let ghost old_entries = entries@;
                let e = (copy_string(&entries[k].0), val);
                entries.set(k, e);
                proof {
                    lemma_entries_map_update(old_entries, k as int, e);
                    assert(entry_names(entries@) =~= entry_names(old_entries));
                }
            } else {
                let ghost old_entries = entries@;
                entries.push((name, val));
                proof {
                    assert(entries@.drop_last() =~= old_entries);
                    assert(entry_names(entries@) =~= entry_names(old_entries).push(name@));
                    assert forall|a: int, b: int|
                        0 <= a < b < entry_names(entries@).len() implies entry_names(entries@)[a] != entry_names(
                        entries@,
                    )[b] by {
                        assert(entry_names(entries@)[a] == entries@[a].0@);
                        assert(entry_names(entries@)[b] == entries@[b].0@);
                        if b == entries@.len() - 1 {
                            assert(entries@[a] == old_entries[a]);
                            assert(old_entries[a].0@ != name@);
                        } else {
                            assert(entry_names(old_entries)[a] == old_entries[a].0@);
                            assert(entry_names(old_entries)[b] == old_entries[b].0@);
                        }
                    }
                }
            }
            i = i + 1;
        }
        proof {
            assert(symbols@.subrange(0, i as int) =~= symbols@);
        }
        SymbolTab { entries }
    }

    /// Symbols whose name the regular expression matches some part of, each
    /// once.
    pub fn find(&self, regex: &SymbolRegex) -> (r: Vec<Symbol<'_>>)
        ensures
            found_in_table(self@, regex@, r@),
    {
        proof {
            use_type_invariant(self);
        }
        let mut r: Vec<Symbol<'_>> = Vec::new();
        let ghost mut idx: Seq<int> = Seq::empty();
        let mut k: usize = 0;
        while k < self.entries.len()
            invariant
                k <= self.entries.len(),
                idx.len() == r@.len(),
                forall|i: int| 0 <= i < r@.len() ==> 0 <= #[trigger] idx[i] < k,
                forall|i: int, j: int| 0 <= i < j < r@.len() ==> #[trigger] idx[i] < #[trigger] idx[j],
                forall|i: int|
                    0 <= i < r@.len() ==> {
                        &&& (#[trigger] r@[i]).name@ == self.entries@[idx[i]].0@
                        &&& r@[i].kind == self.entries@[idx[i]].1.kind
                        &&& r@[i].addr == self.entries@[idx[i]].1.addr
                        &&& regex_finds(regex@, r@[i].name@)
                    },
                forall|j: int|
                    0 <= j < k && regex_finds(regex@, #[trigger] self.entries@[j].0@) ==> exists|i: int|
                        0 <= i < r@.len() && idx[i] == j,
            decreases self.entries.len() - k,
        {
            let entry = &self.entries[k];
            let ghost r0 = r@;
            let ghost idx0 = idx;
            if regex.finds(entry.0.as_str()) {
                r.push(Symbol { name: entry.0.as_str(), kind: entry.1.kind, addr: entry.1.addr });
                proof {
                    idx = idx.push(k as int);
                    assert(idx[r@.len() - 1] == k);
                    assert forall|j: int|
                        0 <= j < k + 1 && regex_finds(regex@, #[trigger] self.entries@[j].0@) implies exists|i: int|
                        0 <= i < r@.len() && idx[i] == j by {
                        if j < k {
                            let i = choose|i: int| 0 <= i < r0.len() && idx0[i] == j;
                            assert(idx[i] == idx0[i]);
                        } else {
                            assert(idx[r@.len() - 1] == j);
                        }
                    }
                    assert forall|i: int| 0 <= i < r@.len() implies {
                        &&& (#[trigger] r@[i]).name@ == self.entries@[idx[i]].0@
                        &&& r@[i].kind == self.entries@[idx[i]].1.kind
                        &&& r@[i].addr == self.entries@[idx[i]].1.addr
                        &&& regex_finds(regex@, r@[i].name@)
                    } by {
                        if i < r0.len() {
                            assert(r@[i] == r0[i]);
                            assert(idx[i] == idx0[i]);
                        }
                    }
                }
            }
            k = k + 1;
        }
        proof {
            lemma_entries_map(self.entries@);
            assert forall|i: int|
                0 <= i < r@.len() implies {
                    &&& self@.contains_key((#[trigger] r@[i]).name@)
                    &&& self@[r@[i].name@] == (SymbolVal { kind: r@[i].kind, addr: r@[i].addr })
                    &&& regex_finds(regex@, r@[i].name@)
                } by {
                let j = idx[i];
                assert(entries_map(self.entries@).contains_key(self.entries@[j].0@));
            }
            assert forall|n: Seq<char>| #[trigger]
                self@.contains_key(n) && regex_finds(regex@, n) implies exists|i: int|
                0 <= i < r@.len() && r@[i].name@ == n by {
                let j = choose|j: int| 0 <= j < self.entries@.len() && self.entries@[j].0@ == n;
                let i = choose|i: int| 0 <= i < r@.len() && idx[i] == j;
                assert(r@[i].name@ == n);
            }
            assert forall|i: int, j: int| 0 <= i < j < r@.len() implies (#[trigger] r@[i]).name@ != (
            #[trigger] r@[j]).name@ by {
                assert(idx[i] < idx[j]);
                assert(entry_names(self.entries@)[idx[i]] != entry_names(self.entries@)[idx[j]]);
            }
        }
        r
    }
}

/// Symbols of all the given tables whose name the regular expression
/// `regex` matches some part of, table after table; an invalid expression is
/// a [`error::Error::RegEx`].
pub fn get_symbols<'a>(tables: &'a [SymbolTab], regex: &str) -> (r: Result<Vec<Symbol<'a>>, error::Error>)
    ensures
        r is Ok == regex_valid(regex@),
        r matches Err(e) ==> e is RegEx,
        r matches Ok(v) ==> exists|parts: Seq<Seq<Symbol<'a>>>|
            {
                &&& parts.len() == tables.len()
                &&& #[trigger] parts.flatten() == v@
                &&& forall|t: int| 0 <= t < tables.len() ==> found_in_table(tables[t]@, regex@, #[trigger] parts[t])
            },
{
    let re = match SymbolRegex::new(regex) {
        Ok(re) => re,
        Err(e) => {
            return Err(e);
        },
    };
    let mut all: Vec<Symbol<'a>> = Vec::new();
    let ghost mut parts: Seq<Seq<Symbol<'a>>> = Seq::empty();
    let mut t: usize = 0;
    proof {
        assert(parts.flatten() =~= all@);
    }
    while t < tables.len()
        invariant
            t <= tables.len(),
            re@ == regex@,
            parts.len() == t,
            parts.flatten() == all@,
            forall|u: int| 0 <= u < t ==> found_in_table(tables[u]@, regex@, #[trigger] parts[u]),
        decreases tables.len() - t,
    {
        let mut found = tables[t].find(&re);
        let ghost got = found@;
        let ghost before = all@;
        all.append(&mut found);
        proof {
            parts.lemma_flatten_push(got);
            parts = parts.push(got);
            assert(all@ =~= before + got);
            assert forall|u: int| 0 <= u < t + 1 implies found_in_table(tables[u]@, regex@, #[trigger] parts[u]) by {
                if u < t {
                    assert(parts[u] == parts.drop_last()[u]);
                }
            }
        }
        t = t + 1;
    }
    proof {
        assert(parts.len() == tables.len());
    }
    Ok(all)
}

} // verus!
