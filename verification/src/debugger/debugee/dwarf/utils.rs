//! An index from paths (function paths such as `ns1::ns2::fn1`, file paths) to
//! values, queried by the last parts of a path.

use crate::text::{split, spec_split, string_eq, strings_view, strs_to_strings, strs_view};
use vstd::prelude::*;

verus! {

/// One indexed path: every part but the last (the tail), the last part (the
/// head) and the associated value.
struct PathEntry<T> {
    tail: Vec<String>,
    head: String,
    value: T,
}

/// Model of an indexed path: (tail parts, head, value).
pub type EntryModel<T> = (Seq<Seq<char>>, Seq<char>, T);

/// True when `tail` ends with the parts `needle_tail`.
pub open spec fn ends_with(tail: Seq<Seq<char>>, needle_tail: Seq<Seq<char>>) -> bool {
    needle_tail.len() <= tail.len() && tail.subrange(tail.len() - needle_tail.len(), tail.len() as int)
        == needle_tail
}

/// True when an indexed path is reached by a query made of `needle_tail` followed by `needle_head`.
pub open spec fn entry_matches<T>(e: EntryModel<T>, needle_head: Seq<char>, needle_tail: Seq<Seq<char>>) -> bool {
    e.1 == needle_head && ends_with(e.0, needle_tail)
}

/// Values of the indexed paths reached by a query, in insertion order.
pub open spec fn select<T>(entries: Seq<EntryModel<T>>, needle_head: Seq<char>, needle_tail: Seq<Seq<char>>) -> Seq<T>
    decreases entries.len(),
{
    if entries.len() == 0 {
        Seq::empty()
    } else {
        let rest = select(entries.drop_last(), needle_head, needle_tail);
        if entry_matches(entries.last(), needle_head, needle_tail) {
            rest.push(entries.last().2)
        } else {
            rest
        }
    }
}

/// Values reached by the query `needle`, split into parts at `delimiter`: the
/// last part must equal an indexed head and the other parts must end its tail.
pub open spec fn spec_get<T>(entries: Seq<EntryModel<T>>, delimiter: Seq<char>, needle: Seq<char>) -> Seq<T> {
    let parts = spec_split(needle, delimiter);
    if parts.len() == 0 {
        Seq::empty()
    } else {
        select(entries, parts.last(), parts.drop_last())
    }
}

/// A data structure for storing key-value values, where the key is a path. For example
/// key may be a function path (e.g. "namespace_1::namespace_2::my_fn") or a file path.
///
/// This index is optimized for queries along the last parts of the path.
///
/// For example, if index contain function paths like "namespace_1::namespace_2::my_fn" than acceptable
/// requests are:
/// - "my_fn"
/// - "namespace_2::my_fn"
/// - "namespace_1::namespace_2::my_fn"
/// Other requests are not accepted.
pub struct PathSearchIndex<T> {
    delimiter: String,
    entries: Vec<PathEntry<T>>,
}

impl<T> PathSearchIndex<T> {
    /// Path delimiter.
    pub closed spec fn delimiter_view(&self) -> Seq<char> {
        self.delimiter@
    }

    /// Indexed paths with their values, in insertion order.
    pub closed spec fn entries_view(&self) -> Seq<EntryModel<T>> {
        self.entries@.map_values(|e: PathEntry<T>| (strings_view(e.tail@), e.head@, e.value))
    }

    /// Create a new path index.
    ///
    /// # Arguments
    ///
    /// * `delimiter`: path delimiter
    pub fn new(delimiter: &str) -> (r: Self)
        ensures
            r.delimiter_view() == delimiter@,
            r.entries_view() == Seq::<EntryModel<T>>::empty(),
    {
        let r = PathSearchIndex { delimiter: String::from_str(delimiter), entries: Vec::new() };
        assert(r.entries_view() =~= Seq::<EntryModel<T>>::empty());
        r
    }

    fn push_entry(&mut self, tail: Vec<String>, head: String, value: T)
        ensures
            final(self).delimiter_view() == old(self).delimiter_view(),
            final(self).entries_view() == old(self).entries_view().push(
                (strings_view(tail@), head@, value),
            ),
    {
        let ghost before = self.entries@;
        self.entries.push(PathEntry { tail, head, value });
        proof {
            assert(self.entries_view() =~= old(self).entries_view().push(
                (strings_view(tail@), head@, value),
            )) by {
                assert(self.entries@ == before.push(PathEntry { tail, head, value }));
            }
        }
    }

    /// Insert a new index value.
    ///
    /// # Arguments
    ///
    /// * `path`: path parts
    /// * `value`: a value associated with path
    pub fn insert(&mut self, path: &[&str], value: T)
        ensures
            final(self).delimiter_view() == old(self).delimiter_view(),
            path@.len() == 0 ==> final(self).entries_view() == old(self).entries_view(),
            path@.len() > 0 ==> final(self).entries_view() == old(self).entries_view().push(
                (strs_view(path@).drop_last(), path@.last()@, value),
            ),
    {
        let mut parts = strs_to_strings(path);
        match parts.pop() {
            None => {},
            Some(head) => {
                proof {
                    assert(strings_view(parts@) =~= strs_view(path@).drop_last());
                    assert(head@ == strs_view(path@).last());
                }
                self.push_entry(parts, head, value);
            },
        }
    }

    /// Insert a new index value.
    ///
    /// # Arguments
    ///
    /// * `path`: path parts, except the last one
    /// * `head`: a last path part
    /// * `value`: a value associated with path
    pub fn insert_w_head(&mut self, path: &[&str], head: &str, value: T)
        ensures
            final(self).delimiter_view() == old(self).delimiter_view(),
            final(self).entries_view() == old(self).entries_view().push((strs_view(path@), head@, value)),
    {
        let tail = strs_to_strings(path);
        let head = String::from_str(head);
        self.push_entry(tail, head, value);
    }

    /// Return all values which correspond to sub-path.
    ///
    /// # Arguments
    ///
    /// * `needle`: one or more parts in the end of target path
    pub fn get(&self, needle: &str) -> (r: Vec<&T>)
        ensures
            r@.len() == spec_get(self.entries_view(), self.delimiter_view(), needle@).len(),
            forall|i: int|
                0 <= i < r@.len() ==> *r@[i] == #[trigger] spec_get(
                    self.entries_view(),
                    self.delimiter_view(),
                    needle@,
                )[i],
    {
        let mut split = split(needle, self.delimiter.as_str());
        let expected_head = match split.pop() {
            None => {
                return Vec::new();
            },
            Some(h) => h,
        };
        let expected_tail = split;
        let ghost model = self.entries_view();
        let ghost needle_tail = strings_view(expected_tail@);
        proof {
            let parts = spec_split(needle@, self.delimiter@);
            assert(needle_tail =~= parts.drop_last());
            assert(expected_head@ == parts.last());
        }

        let mut result: Vec<&T> = Vec::new();
        let mut i: usize = 0;
        while i < self.entries.len()
            invariant
                i <= self.entries@.len(),
                model == self.entries_view(),
                needle_tail == strings_view(expected_tail@),
                result@.len() == select(model.subrange(0, i as int), expected_head@, needle_tail).len(),
                forall|k: int|
                    0 <= k < result@.len() ==> *result@[k] == #[trigger] select(
                        model.subrange(0, i as int),
                        expected_head@,
                        needle_tail,
                    )[k],
            decreases self.entries@.len() - i,
        {
            let e = &self.entries[i];
            proof {
                assert(model.subrange(0, i + 1).drop_last() =~= model.subrange(0, i as int));
                assert(model[i as int] == (strings_view(e.tail@), e.head@, e.value));
            }
            if string_eq(&e.head, &expected_head) && tail_ends_with(&e.tail, &expected_tail) {
                result.push(&e.value);
            }
            i = i + 1;
        }
        proof {
            assert(model.subrange(0, i as int) =~= model);
        }
        result
    }
}

/// Whether the parts `tail` end with the parts `needle`.
fn tail_ends_with(tail: &Vec<String>, needle: &Vec<String>) -> (r: bool)
    ensures
        r == ends_with(strings_view(tail@), strings_view(needle@)),
{
    let n = tail.len();
    let m = needle.len();
    if m > n {
        return false;
    }
    let off = n - m;
    let mut k: usize = 0;
    while k < m
        invariant
            n == tail@.len(),
            m == needle@.len(),
            m <= n,
            off == n - m,
            k <= m,
            forall|j: int| 0 <= j < k ==> tail@[off + j]@ == needle@[j]@,
        decreases m - k,
    {
        if !string_eq(&tail[off + k], &needle[k]) {
            assert(strings_view(tail@).subrange(off as int, n as int)[k as int] != strings_view(needle@)[k as int]);
            return false;
        }
        k = k + 1;
    }
    assert(strings_view(tail@).subrange(off as int, n as int) =~= strings_view(needle@));
    true
}

/// A query made after an insertion gives the values it gave before, followed
/// by the inserted value if the query reaches the inserted path.
pub proof fn lemma_get_after_insert<T>(entries: Seq<EntryModel<T>>, inserted: EntryModel<T>, delimiter: Seq<char>, needle: Seq<char>)
    ensures
        ({
            let parts = spec_split(needle, delimiter);
            spec_get(entries.push(inserted), delimiter, needle) == if parts.len() > 0 && entry_matches(
                inserted,
                parts.last(),
                parts.drop_last(),
            ) {
                spec_get(entries, delimiter, needle).push(inserted.2)
            } else {
                spec_get(entries, delimiter, needle)
            }
        }),
{
    assert(entries.push(inserted).drop_last() =~= entries);
}

/// A freshly created index reaches nothing.
pub proof fn lemma_get_on_empty<T>(delimiter: Seq<char>, needle: Seq<char>)
    ensures
        spec_get(Seq::<EntryModel<T>>::empty(), delimiter, needle) == Seq::<T>::empty(),
{
}

/// Names of index entries.
pub open spec fn index_names<V>(entries: Seq<(String, V)>) -> Seq<Seq<char>> {
    entries.map_values(|e: (String, V)| e.0@)
}

/// Map from name to value made by inserting the entries in order.
pub open spec fn index_map<V>(entries: Seq<(String, V)>) -> Map<Seq<char>, V>
    decreases entries.len(),
{
    if entries.len() == 0 {
        Map::empty()
    } else {
        index_map(entries.drop_last()).insert(entries.last().0@, entries.last().1)
    }
}

/// With distinct names, each entry is in the map under its name, and the
/// map holds nothing else.
proof fn lemma_index_map<V>(entries: Seq<(String, V)>)
    requires
        index_names(entries).no_duplicates(),
    ensures
        forall|i: int|
            0 <= i < entries.len() ==> #[trigger] index_map(entries).contains_key(entries[i].0@) && index_map(
                entries,
            )[entries[i].0@] == entries[i].1,
        forall|n: Seq<char>| #[trigger]
            index_map(entries).contains_key(n) ==> exists|i: int| 0 <= i < entries.len() && entries[i].0@ == n,
    decreases entries.len(),
{
    if entries.len() > 0 {
        let rest = entries.drop_last();
        let last = entries.last();
        assert(index_names(rest) =~= index_names(entries).drop_last());
        lemma_index_map(rest);
        assert(index_map(entries) == index_map(rest).insert(last.0@, last.1));
        assert forall|i: int| 0 <= i < entries.len() implies #[trigger] index_map(entries).contains_key(
            entries[i].0@,
        ) && index_map(entries)[entries[i].0@] == entries[i].1 by {
            if i < rest.len() {
                assert(rest[i] == entries[i]);
                assert(index_names(entries)[i] == entries[i].0@);
                assert(index_names(entries)[entries.len() - 1] == last.0@);
                assert(index_names(entries)[i] != index_names(entries)[entries.len() - 1]);
                assert(index_map(rest).contains_key(rest[i].0@));
            }
        }
        assert forall|n: Seq<char>| #[trigger] index_map(entries).contains_key(n) implies exists|i: int|
            0 <= i < entries.len() && entries[i].0@ == n by {
            if n != last.0@ {
                assert(index_map(rest).contains_key(n));
                let i = choose|i: int| 0 <= i < rest.len() && rest[i].0@ == n;
                assert(entries[i] == rest[i]);
            } else {
                assert(entries[entries.len() - 1].0@ == n);
            }
        }
    }
}

/// Replacing the value of an entry, names being distinct, replaces it in the
/// map.
proof fn lemma_index_map_update<V>(entries: Seq<(String, V)>, k: int, e: (String, V))
    requires
        index_names(entries).no_duplicates(),
        0 <= k < entries.len(),
        e.0@ == entries[k].0@,
    ensures
        index_map(entries.update(k, e)) == index_map(entries).insert(e.0@, e.1),
    decreases entries.len(),
{
    let rest = entries.drop_last();
    assert(index_names(rest) =~= index_names(entries).drop_last());
    if k == entries.len() - 1 {
        assert(entries.update(k, e).drop_last() =~= rest);
        assert(index_map(entries.update(k, e)) =~= index_map(entries).insert(e.0@, e.1));
    } else {
        lemma_index_map_update(rest, k, e);
        assert(entries.update(k, e).drop_last() =~= rest.update(k, e));
        assert(index_names(entries)[k] != index_names(entries)[entries.len() - 1]);
        assert(index_map(entries.update(k, e)) =~= index_map(entries).insert(e.0@, e.1));
    }
}

/// An index from names to values: a map with string keys.
pub struct NameIndex<V> {
    entries: Vec<(String, V)>,
}

impl<V> View for NameIndex<V> {
    type V = Map<Seq<char>, V>;

    closed spec fn view(&self) -> Map<Seq<char>, V> {
        index_map(self.entries@)
    }
}

impl<V> NameIndex<V> {
    /// Names are distinct.
    #[verifier::type_invariant]
    closed spec fn wf(&self) -> bool {
        index_names(self.entries@).no_duplicates()
    }

    /// An empty index.
    pub fn new() -> (r: Self)
        ensures
            r@ == Map::<Seq<char>, V>::empty(),
    {
        let r = NameIndex { entries: Vec::new() };
        proof {
            assert(index_names(r.entries@) =~= Seq::<Seq<char>>::empty());
        }
        r
    }

    /// Position of the entry with the given name.
    fn position(&self, name: &str) -> (r: Option<usize>)
        ensures
            r matches Some(k) ==> k < self.entries@.len() && self.entries@[k as int].0@ == name@,
            r is None ==> forall|k: int| 0 <= k < self.entries@.len() ==> (#[trigger] self.entries@[k]).0@ != name@,
    {
        let mut k: usize = 0;
        while k < self.entries.len()
            invariant
                k <= self.entries@.len(),
                forall|j: int| 0 <= j < k ==> (#[trigger] self.entries@[j]).0@ != name@,
            decreases self.entries@.len() - k,
        {
            if crate::text::str_eq(self.entries[k].0.as_str(), name) {
                return Some(k);
            }
            k = k + 1;
        }
        None
    }

    /// Value under a name.
    pub fn get(&self, name: &str) -> (r: Option<&V>)
        ensures
            r is Some == self@.contains_key(name@),
            r matches Some(v) ==> *v == self@[name@],
    {
        proof {
            use_type_invariant(self);
            lemma_index_map(self.entries@);
        }
        match self.position(name) {
            Some(k) => {
                proof {
                    assert(index_map(self.entries@).contains_key(self.entries@[k as int].0@));
                }
                Some(&self.entries[k].1)
            },
            None => {
                proof {
                    if self@.contains_key(name@) {
                        let i = choose|i: int| 0 <= i < self.entries@.len() && self.entries@[i].0@ == name@;
                        assert(self.entries@[i].0@ != name@);
                    }
                }
                None
            },
        }
    }

    /// Put a value under a name, in place of the value it had.
    pub fn insert(&mut self, name: &str, value: V)
        ensures
            final(self)@ == old(self)@.insert(name@, value),
    {
        proof {
            use_type_invariant(&*self);
        }
        match self.position(name) {
            Some(k) => {
                let ghost before = self.entries@;
                let mut entries: Vec<(String, V)> = Vec::new();
                core::mem::swap(&mut entries, &mut self.entries);
                let (n, _) = entries.remove(k);
                let e = (n, value);
                entries.insert(k, e);
                proof {
                    assert(entries@ =~= before.update(k as int, e));
                    lemma_index_map_update(before, k as int, e);
                    assert(index_names(entries@) =~= index_names(before));
                }
                self.entries = entries;
            },
            None => {
                let ghost before = self.entries@;
                let e = (String::from_str(name), value);
                let mut entries: Vec<(String, V)> = Vec::new();
                core::mem::swap(&mut entries, &mut self.entries);
                entries.push(e);
                proof {
                    assert(index_names(entries@) =~= index_names(before).push(name@));
                    assert forall|a: int, b: int|
                        0 <= a < b < index_names(entries@).len() implies index_names(entries@)[a]
                        != index_names(entries@)[b] by {
                        assert(index_names(entries@)[a] == entries@[a].0@);
                        assert(index_names(entries@)[b] == entries@[b].0@);
                        if b == entries@.len() - 1 {
                            assert(entries@[a] == before[a]);
                        } else {
                            assert(index_names(before)[a] == before[a].0@);
                            assert(index_names(before)[b] == before[b].0@);
                        }
                    }
                }
                self.entries = entries;
                proof {
                    assert(self.entries@.drop_last() =~= before);
                    assert(index_names(self.entries@) =~= index_names(before).push(name@));
                    assert forall|a: int, b: int|
                        0 <= a < b < index_names(self.entries@).len() implies index_names(self.entries@)[a]
                        != index_names(self.entries@)[b] by {
                        assert(index_names(self.entries@)[a] == self.entries@[a].0@);
                        assert(index_names(self.entries@)[b] == self.entries@[b].0@);
                        if b == self.entries@.len() - 1 {
                            assert(self.entries@[a] == before[a]);
                        } else {
                            assert(index_names(before)[a] == before[a].0@);
                            assert(index_names(before)[b] == before[b].0@);
                        }
                    }
                }
            },
        }
    }

    /// Take the value under a name out of the index.
    pub fn take(&mut self, name: &str) -> (r: Option<V>)
        ensures
            r is Some == old(self)@.contains_key(name@),
            r matches Some(v) ==> v == old(self)@[name@],
            final(self)@ == old(self)@.remove(name@),
    {
        proof {
            use_type_invariant(&*self);
            lemma_index_map(self.entries@);
        }
        match self.position(name) {
            Some(k) => {
                let ghost before = self.entries@;
                let mut entries: Vec<(String, V)> = Vec::new();
                core::mem::swap(&mut entries, &mut self.entries);
                let (_, v) = entries.remove(k);
                proof {
                    assert(index_map(before).contains_key(before[k as int].0@));
                    assert(v == before[k as int].1);
                    assert(index_map(before)[name@] == v);
                    assert(index_names(entries@) =~= index_names(before).remove(k as int));
                    assert forall|a: int, b: int|
                        0 <= a < b < index_names(entries@).len() implies index_names(entries@)[a]
                        != index_names(entries@)[b] by {
                        let a0 = if a < k { a } else { a + 1 };
                        let b0 = if b < k { b } else { b + 1 };
                        assert(index_names(before)[a0] != index_names(before)[b0]);
                    }
                }
                proof {
                    lemma_index_map(entries@);
                    let m = index_map(entries@);
                    let o = index_map(before).remove(name@);
                    assert forall|n: Seq<char>| #![auto] m.contains_key(n) == o.contains_key(n) by {
                        if m.contains_key(n) {
                            let i = choose|i: int| 0 <= i < entries@.len() && entries@[i].0@ == n;
                            let i0 = if i < k { i } else { i + 1 };
                            assert(entries@[i] == before[i0]);
                            assert(index_names(before)[i0] == before[i0].0@);
                            assert(index_names(before)[k as int] == before[k as int].0@);
                            assert(index_names(before)[i0] != index_names(before)[k as int]);
                        }
                        if o.contains_key(n) {
                            let i = choose|i: int| 0 <= i < before.len() && before[i].0@ == n;
                            assert(i != k);
                            let i1 = if i < k { i } else { i - 1 };
                            assert(entries@[i1] == before[i]);
                        }
                    }
                    assert forall|n: Seq<char>| #![auto] m.contains_key(n) implies m[n] == o[n] by {
                        let i = choose|i: int| 0 <= i < entries@.len() && entries@[i].0@ == n;
                        let i0 = if i < k { i } else { i + 1 };
                        assert(entries@[i] == before[i0]);
                    }
                    assert(m =~= o);
                }
                self.entries = entries;
                Some(v)
            },
            None => {
                proof {
                    if old(self)@.contains_key(name@) {
                        let i = choose|i: int| 0 <= i < self.entries@.len() && self.entries@[i].0@ == name@;
                        assert(self.entries@[i].0@ != name@);
                    }
                    assert(old(self)@.remove(name@) =~= old(self)@);
                }
                None
            },
        }
    }
}

/// Values of the inserted paths that a query made of `needle_tail` followed
/// by `needle_head` reaches, in insertion order.
pub open spec fn matching_values<T>(inserted: Seq<EntryModel<T>>, needle_head: Seq<char>, needle_tail: Seq<Seq<char>>) -> Seq<T> {
    inserted.filter(|e: EntryModel<T>| entry_matches(e, needle_head, needle_tail)).map_values(|e: EntryModel<T>| e.2)
}

/// A query made after a series of insertions gives the values it gave
/// before, followed by the values of the inserted paths that it reaches
/// (whole trailing parts of the path, and its last part), in insertion
/// order. From a fresh index (see [`lemma_get_on_empty`]) a query gives
/// exactly the values of the inserted paths it reaches.
pub proof fn lemma_get_after_inserts<T>(
    before: Seq<EntryModel<T>>,
    inserted: Seq<EntryModel<T>>,
    delimiter: Seq<char>,
    needle: Seq<char>,
)
    ensures
        ({
            let parts = spec_split(needle, delimiter);
            spec_get(before + inserted, delimiter, needle) == if parts.len() > 0 {
                spec_get(before, delimiter, needle) + matching_values(inserted, parts.last(), parts.drop_last())
            } else {
                Seq::<T>::empty()
            }
        }),
    decreases inserted.len(),
{
    let parts = spec_split(needle, delimiter);
    if parts.len() > 0 {
        let h = parts.last();
        let t = parts.drop_last();
        if inserted.len() == 0 {
            assert(before + inserted =~= before);
            assert(matching_values(inserted, h, t) =~= Seq::<T>::empty()) by {
                reveal(Seq::filter);
            }
        } else {
            let init = inserted.drop_last();
            lemma_get_after_inserts(before, init, delimiter, needle);
            assert((before + inserted).drop_last() =~= before + init);
            assert((before + inserted).last() == inserted.last());
            let f = |e: EntryModel<T>| entry_matches(e, h, t);
            assert(inserted == init.push(inserted.last()));
            init.lemma_filter_push(inserted.last(), f);
            assert(inserted.filter(f) == if f(inserted.last()) {
                init.filter(f).push(inserted.last())
            } else {
                init.filter(f)
            });
            if f(inserted.last()) {
                assert(matching_values(inserted, h, t) =~= matching_values(init, h, t).push(inserted.last().2));
                assert(spec_get(before, delimiter, needle) + matching_values(inserted, h, t) =~= (spec_get(
                    before,
                    delimiter,
                    needle,
                ) + matching_values(init, h, t)).push(inserted.last().2));
            } else {
                assert(matching_values(inserted, h, t) =~= matching_values(init, h, t));
            }
        }
    }
}

/// Inserting a path gives the same index as inserting its last part as head
/// with the other parts as tail: every later query gives the same values. A
/// path without parts is not inserted (see [`PathSearchIndex::insert`]).
pub proof fn lemma_insert_agrees_with_head<T>(
    entries: Seq<EntryModel<T>>,
    path: Seq<&str>,
    value: T,
    delimiter: Seq<char>,
    needle: Seq<char>,
)
    requires
        path.len() > 0,
    ensures
        (strs_view(path).drop_last(), path.last()@, value) == (strs_view(path.drop_last()), path.last()@, value),
        spec_get(entries.push((strs_view(path).drop_last(), path.last()@, value)), delimiter, needle) == spec_get(
            entries.push((strs_view(path.drop_last()), path.last()@, value)),
            delimiter,
            needle,
        ),
{
    assert(strs_view(path).drop_last() =~= strs_view(path.drop_last()));
}

} // verus!
