//! Character-level text operations: splitting at a delimiter, at line ends and
//! at whitespace, trimming, and comparison.

use vstd::prelude::*;

verus! {

/// The pieces of `s[start..]` when the scan for `d` has reached position `i`:
/// each occurrence of `d` found from the left ends a piece and the scan resumes
/// behind it.
pub open spec fn split_scan(s: Seq<char>, d: Seq<char>, start: int, i: int) -> Seq<Seq<char>>
    decreases s.len() - i,
{
    if d.len() == 0 || i < 0 || i + d.len() > s.len() {
        seq![s.subrange(start, s.len() as int)]
    } else if s.subrange(i, i + d.len()) == d {
        seq![s.subrange(start, i)] + split_scan(s, d, i + d.len(), i + d.len())
    } else {
        split_scan(s, d, start, i + 1)
    }
}

/// The pieces of `s` separated by `d`, as `str::split` yields them. An empty
/// delimiter separates every character, with an empty piece at each end.
pub open spec fn spec_split(s: Seq<char>, d: Seq<char>) -> Seq<Seq<char>> {
    if d.len() == 0 {
        seq![Seq::<char>::empty()] + Seq::new(s.len(), |i: int| seq![s[i]]) + seq![Seq::<char>::empty()]
    } else {
        split_scan(s, d, 0, 0)
    }
}

/// Views of a vector of strings.
pub open spec fn strings_view(v: Seq<String>) -> Seq<Seq<char>> {
    v.map_values(|p: String| p@)
}

/// Views of a slice of string slices.
pub open spec fn strs_view(v: Seq<&str>) -> Seq<Seq<char>> {
    v.map_values(|p: &str| p@)
}

/// The characters of a string slice.
pub fn chars_of(s: &str) -> (r: Vec<char>)
    ensures
        r@ == s@,
{
    let n = s.unicode_len();
    let mut r: Vec<char> = Vec::new();
    let mut i: usize = 0;
    while i < n
        invariant
            n == s@.len(),
            i <= n,
            r@ == s@.subrange(0, i as int),
        decreases n - i,
    {
        let c = s.get_char(i);
        r.push(c);
        i = i + 1;
        assert(r@ =~= s@.subrange(0, i as int));
    }
    assert(r@ =~= s@);
    r
}

/// The string made of characters `from..to` of `s`.
pub fn substring(s: &str, from: usize, to: usize) -> (r: String)
    requires
        from <= to <= s@.len(),
    ensures
        r@ == s@.subrange(from as int, to as int),
{
    String::from_str(s.substring_char(from, to))
}

/// Whether `d` occurs in `s` at position `i`.
fn matches_at(s: &Vec<char>, d: &Vec<char>, i: usize) -> (r: bool)
    requires
        i + d@.len() <= s@.len(),
    ensures
        r == (s@.subrange(i as int, i + d@.len()) == d@),
{
    let m = d.len();
    let sl = s.len();
    let mut k: usize = 0;
    while k < m
        invariant
            m == d@.len(),
            sl == s@.len(),
            i + m <= s@.len(),
            k <= m,
            forall|j: int| 0 <= j < k ==> s@[i + j] == d@[j],
        decreases m - k,
    {
        if s[i + k] != d[k] {
            assert(s@.subrange(i as int, i + m)[k as int] != d@[k as int]);
            return false;
        }
        k = k + 1;
    }
    assert(s@.subrange(i as int, i + m) =~= d@);
    true
}

/// Whether `d` occurs in `s`.
pub open spec fn spec_contains(s: Seq<char>, d: Seq<char>) -> bool {
    exists|i: int| 0 <= i && i + d.len() <= s.len() && #[trigger] s.subrange(i, i + d.len()) == d
}

/// Whether `d` occurs in `s`, as `str::contains` reports it.
pub fn contains(s: &str, d: &str) -> (r: bool)
    ensures
        r == spec_contains(s@, d@),
{
    let sv = chars_of(s);
    let dv = chars_of(d);
    if dv.len() > sv.len() {
        return false;
    }
    let last = sv.len() - dv.len();
    let mut i: usize = 0;
    while i < last
        invariant
            sv@ == s@,
            dv@ == d@,
            last + dv@.len() == sv@.len(),
            i <= last,
            forall|j: int| 0 <= j < i ==> #[trigger] s@.subrange(j, j + d@.len()) != d@,
        decreases last - i,
    {
        if matches_at(&sv, &dv, i) {
            return true;
        }
        i = i + 1;
    }
    matches_at(&sv, &dv, last)
}

/// Split `s` at each occurrence of `d`, as `str::split` does.
pub fn split(s: &str, d: &str) -> (r: Vec<String>)
    ensures
        strings_view(r@) == spec_split(s@, d@),
{
    let sv = chars_of(s);
    let dv = chars_of(d);
    let n = sv.len();
    let m = dv.len();
    let mut parts: Vec<String> = Vec::new();
    if m == 0 {
        parts.push(String::new());
        let mut i: usize = 0;
        while i < n
            invariant
                n == s@.len(),
                i <= n,
                strings_view(parts@) == seq![Seq::<char>::empty()] + Seq::new(
                    i as nat,
                    |j: int| seq![s@[j]],
                ),
            decreases n - i,
        {
            let piece = substring(s, i, i + 1);
            let ghost before = parts@;
            parts.push(piece);
            proof {
                assert(s@.subrange(i as int, i + 1) =~= seq![s@[i as int]]);
                assert(parts@ == before.push(piece));
                assert(strings_view(parts@) =~= strings_view(before) + seq![piece@]);
                assert(strings_view(parts@) =~= seq![Seq::<char>::empty()] + Seq::new(
                    (i + 1) as nat,
                    |j: int| seq![s@[j]],
                ));
            }
            i = i + 1;
        }
        parts.push(String::new());
        proof {
            assert(strings_view(parts@) =~= spec_split(s@, d@));
        }
        return parts;
    }
    let mut start: usize = 0;
    let mut i: usize = 0;
    while m <= n - i
        invariant
            n == s@.len(),
            m == d@.len(),
            sv@ == s@,
            dv@ == d@,
            m > 0,
            start <= i <= n,
            spec_split(s@, d@) == strings_view(parts@) + split_scan(s@, d@, start as int, i as int),
        decreases n - i,
    {
        if matches_at(&sv, &dv, i) {
            let piece = substring(s, start, i);
            proof {
                assert(split_scan(s@, d@, start as int, i as int) == seq![s@.subrange(start as int, i as int)]
                    + split_scan(s@, d@, i + m, i + m));
                assert(strings_view(parts@.push(piece)) =~= strings_view(parts@) + seq![piece@]);
            }
            parts.push(piece);
            i = i + m;
            start = i;
            proof {
                assert(spec_split(s@, d@) =~= strings_view(parts@) + split_scan(
                    s@,
                    d@,
                    start as int,
                    i as int,
                ));
            }
        } else {
            i = i + 1;
        }
    }
    let piece = substring(s, start, n);
    proof {
        assert(strings_view(parts@.push(piece)) =~= strings_view(parts@) + seq![piece@]);
    }
    parts.push(piece);
    proof {
        assert(spec_split(s@, d@) =~= strings_view(parts@));
    }
    parts
}

/// Whether two string slices hold the same characters.
pub fn str_eq(a: &str, b: &str) -> (r: bool)
    ensures
        r == (a@ == b@),
{
    let av = chars_of(a);
    let bv = chars_of(b);
    if av.len() != bv.len() {
        return false;
    }
    let n = av.len();
    let mut i: usize = 0;
    while i < n
        invariant
            n == av@.len(),
            n == bv@.len(),
            av@ == a@,
            bv@ == b@,
            i <= n,
            forall|j: int| 0 <= j < i ==> av@[j] == bv@[j],
        decreases n - i,
    {
        if av[i] != bv[i] {
            return false;
        }
        i = i + 1;
    }
    assert(av@ =~= bv@);
    true
}

/// Whether two strings hold the same characters.
pub fn string_eq(a: &String, b: &String) -> (r: bool)
    ensures
        r == (a@ == b@),
{
    str_eq(a.as_str(), b.as_str())
}

/// A copy of a string.
pub fn copy_string(s: &String) -> (r: String)
    ensures
        r@ == s@,
{
    String::from_str(s.as_str())
}

/// Copies of a vector of strings.
pub fn copy_strings(v: &Vec<String>) -> (r: Vec<String>)
    ensures
        strings_view(r@) == strings_view(v@),
{
    let mut r: Vec<String> = Vec::new();
    let mut i: usize = 0;
    while i < v.len()
        invariant
            i <= v@.len(),
            strings_view(r@) == strings_view(v@.subrange(0, i as int)),
        decreases v@.len() - i,
    {
        let c = copy_string(&v[i]);
        let ghost before = r@;
        r.push(c);
        proof {
            assert(strings_view(r@) =~= strings_view(before) + seq![c@]);
            assert(strings_view(v@.subrange(0, i + 1)) =~= strings_view(v@.subrange(0, i as int)) + seq![c@]);
        }
        i = i + 1;
        assert(strings_view(r@) =~= strings_view(v@.subrange(0, i as int)));
    }
    assert(v@.subrange(0, v@.len() as int) =~= v@);
    r
}

/// The strings, borrowed as string slices.
pub fn as_strs(v: &Vec<String>) -> (r: Vec<&str>)
    ensures
        strs_view(r@) == strings_view(v@),
{
    let mut r: Vec<&str> = Vec::new();
    let mut i: usize = 0;
    while i < v.len()
        invariant
            i <= v@.len(),
            strs_view(r@) == strings_view(v@.subrange(0, i as int)),
        decreases v@.len() - i,
    {
        let ghost before = r@;
        r.push(v[i].as_str());
        proof {
            assert(strs_view(r@) =~= strs_view(before) + seq![v@[i as int]@]);
            assert(strings_view(v@.subrange(0, i + 1)) =~= strings_view(v@.subrange(0, i as int)) + seq![v@[i as int]@]);
        }
        i = i + 1;
    }
    assert(v@.subrange(0, v@.len() as int) =~= v@);
    r
}

/// Owned copies of string slices.
pub fn strs_to_strings(v: &[&str]) -> (r: Vec<String>)
    ensures
        strings_view(r@) == strs_view(v@),
{
    let mut r: Vec<String> = Vec::new();
    let mut i: usize = 0;
    while i < v.len()
        invariant
            i <= v@.len(),
            strings_view(r@) == strs_view(v@.subrange(0, i as int)),
        decreases v@.len() - i,
    {
        let c = String::from_str(v[i]);
        let ghost before = r@;
        r.push(c);
        proof {
            assert(strings_view(r@) =~= strings_view(before) + seq![c@]);
            assert(strs_view(v@.subrange(0, i + 1)) =~= strs_view(v@.subrange(0, i as int)) + seq![c@]);
        }
        i = i + 1;
        assert(strings_view(r@) =~= strs_view(v@.subrange(0, i as int)));
    }
    assert(v@.subrange(0, v@.len() as int) =~= v@);
    r
}


/// Characters with the Unicode `White_Space` property, as `char::is_whitespace` reports them.
pub open spec fn is_ws(c: char) -> bool {
    c == ' ' || ('\t' <= c <= '\r') || c == '\u{85}' || c == '\u{A0}' || c == '\u{1680}' || (
    '\u{2000}' <= c <= '\u{200A}') || c == '\u{2028}' || c == '\u{2029}' || c == '\u{202F}' || c
        == '\u{205F}' || c == '\u{3000}'
}

/// Whether a character is white space.
pub fn is_whitespace(c: char) -> (r: bool)
    ensures
        r == is_ws(c),
{
    c == ' ' || ('\t' <= c && c <= '\r') || c == '\u{85}' || c == '\u{A0}' || c == '\u{1680}' || (
    '\u{2000}' <= c && c <= '\u{200A}') || c == '\u{2028}' || c == '\u{2029}' || c == '\u{202F}'
        || c == '\u{205F}' || c == '\u{3000}'
}

/// Index of the first non-white-space character of `s` at or after `i`, or the length of `s`.
pub open spec fn skip_ws(s: Seq<char>, i: int) -> int
    decreases s.len() - i,
{
    if i < 0 || i >= s.len() {
        s.len() as int
    } else if !is_ws(s[i]) {
        i
    } else {
        skip_ws(s, i + 1)
    }
}

/// Index of the first white-space character of `s` at or after `i`, or the length of `s`.
pub open spec fn skip_non_ws(s: Seq<char>, i: int) -> int
    decreases s.len() - i,
{
    if i < 0 || i >= s.len() {
        s.len() as int
    } else if is_ws(s[i]) {
        i
    } else {
        skip_non_ws(s, i + 1)
    }
}

/// End of `s[..j]` once trailing white space is removed.
pub open spec fn trim_end_at(s: Seq<char>, j: int) -> int
    decreases j,
{
    if j <= 0 || j > s.len() {
        0
    } else if !is_ws(s[j - 1]) {
        j
    } else {
        trim_end_at(s, j - 1)
    }
}

/// `s` without leading and trailing white space, as `str::trim` gives it.
pub open spec fn spec_trim(s: Seq<char>) -> Seq<char> {
    let a = skip_ws(s, 0);
    let b = trim_end_at(s, s.len() as int);
    if a >= b {
        Seq::empty()
    } else {
        s.subrange(a, b)
    }
}

/// The first white-space separated word of `s`, as `split_whitespace().next()` gives it.
pub open spec fn spec_first_word(s: Seq<char>) -> Option<Seq<char>> {
    let a = skip_ws(s, 0);
    if a >= s.len() {
        None
    } else {
        Some(s.subrange(a, skip_non_ws(s, a)))
    }
}

/// The white-space separated words of `s` from position `i` on.
pub open spec fn words_from(s: Seq<char>, i: int) -> Seq<Seq<char>>
    decreases s.len() - i,
{
    let a = skip_ws(s, i);
    if i < 0 || a >= s.len() {
        Seq::empty()
    } else {
        let b = skip_non_ws(s, a);
        if b <= i || b > s.len() {
            Seq::empty()
        } else {
            seq![s.subrange(a, b)] + words_from(s, b)
        }
    }
}

/// The white-space separated words of `s`, as `split_whitespace` yields them.
pub open spec fn spec_words(s: Seq<char>) -> Seq<Seq<char>> {
    words_from(s, 0)
}

/// A line without its trailing carriage return, if it has one.
pub open spec fn strip_cr(l: Seq<char>) -> Seq<char> {
    if l.len() > 0 && l.last() == '\r' {
        l.drop_last()
    } else {
        l
    }
}

/// The lines of `s`, as `str::lines` yields them: pieces between line feeds,
/// without a final empty piece, each without a trailing carriage return.
pub open spec fn spec_lines(s: Seq<char>) -> Seq<Seq<char>> {
    let parts = spec_split(s, seq!['\n']);
    let parts = if parts.len() > 0 && parts.last().len() == 0 {
        parts.drop_last()
    } else {
        parts
    };
    parts.map_values(|l: Seq<char>| strip_cr(l))
}

/// `s` without leading and trailing white space.
pub fn trim(s: &str) -> (r: String)
    ensures
        r@ == spec_trim(s@),
{
    let cs = chars_of(s);
    let n = cs.len();
    let mut a: usize = 0;
    while a < n && is_whitespace(cs[a])
        invariant
            n == s@.len(),
            cs@ == s@,
            a <= n,
            skip_ws(s@, 0) == skip_ws(s@, a as int),
        decreases n - a,
    {
        a = a + 1;
    }
    let mut b: usize = n;
    while b > 0 && is_whitespace(cs[b - 1])
        invariant
            n == s@.len(),
            cs@ == s@,
            b <= n,
            trim_end_at(s@, n as int) == trim_end_at(s@, b as int),
        decreases b,
    {
        b = b - 1;
    }
    if a >= b {
        String::new()
    } else {
        substring(s, a, b)
    }
}

/// The first white-space separated word of `s`, if there is one.
pub fn first_word(s: &str) -> (r: Option<String>)
    ensures
        match spec_first_word(s@) {
            None => r.is_none(),
            Some(w) => r matches Some(x) && x@ == w,
        },
{
    let cs = chars_of(s);
    let n = cs.len();
    let mut a: usize = 0;
    while a < n && is_whitespace(cs[a])
        invariant
            n == s@.len(),
            cs@ == s@,
            a <= n,
            skip_ws(s@, 0) == skip_ws(s@, a as int),
        decreases n - a,
    {
        a = a + 1;
    }
    if a >= n {
        return None;
    }
    let mut b: usize = a;
    while b < n && !is_whitespace(cs[b])
        invariant
            n == s@.len(),
            cs@ == s@,
            a <= b <= n,
            skip_non_ws(s@, a as int) == skip_non_ws(s@, b as int),
        decreases n - b,
    {
        b = b + 1;
    }
    Some(substring(s, a, b))
}

proof fn lemma_skips(s: Seq<char>, i: int)
    requires
        0 <= i <= s.len(),
    ensures
        i <= skip_ws(s, i) <= s.len(),
        skip_ws(s, i) < s.len() ==> !is_ws(s[skip_ws(s, i)]),
        skip_ws(s, i) < s.len() ==> skip_ws(s, i) < skip_non_ws(s, skip_ws(s, i)) <= s.len(),
    decreases s.len() - i,
{
    if i < s.len() && is_ws(s[i]) {
        lemma_skips(s, i + 1);
    }
    let a = skip_ws(s, i);
    if a < s.len() {
        lemma_skip_non_ws(s, a + 1);
    }
}

proof fn lemma_skip_non_ws(s: Seq<char>, a: int)
    requires
        0 <= a <= s.len(),
    ensures
        a <= skip_non_ws(s, a) <= s.len(),
    decreases s.len() - a,
{
    if a < s.len() && !is_ws(s[a]) {
        lemma_skip_non_ws(s, a + 1);
    }
}

/// The white-space separated words of `s`.
pub fn words(s: &str) -> (r: Vec<String>)
    ensures
        strings_view(r@) == spec_words(s@),
{
    let cs = chars_of(s);
    let n = cs.len();
    let mut r: Vec<String> = Vec::new();
    let mut i: usize = 0;
    while i < n
        invariant
            n == s@.len(),
            cs@ == s@,
            i <= n,
            strings_view(r@) + words_from(s@, i as int) == spec_words(s@),
        decreases n - i,
    {
        proof {
            lemma_skips(s@, i as int);
        }
        let mut a: usize = i;
        while a < n && is_whitespace(cs[a])
            invariant
                n == s@.len(),
                cs@ == s@,
                i <= a <= n,
                skip_ws(s@, i as int) == skip_ws(s@, a as int),
            decreases n - a,
        {
            a = a + 1;
        }
        if a >= n {
            proof {
                assert(words_from(s@, i as int) =~= Seq::<Seq<char>>::empty());
                assert(strings_view(r@) + Seq::<Seq<char>>::empty() =~= strings_view(r@));
            }
            i = n;
        } else {
            let mut b: usize = a;
            while b < n && !is_whitespace(cs[b])
                invariant
                    n == s@.len(),
                    cs@ == s@,
                    a <= b <= n,
                    skip_non_ws(s@, a as int) == skip_non_ws(s@, b as int),
                decreases n - b,
            {
                b = b + 1;
            }
            let w = substring(s, a, b);
            let ghost before = r@;
            r.push(w);
            proof {
                assert(strings_view(r@) =~= strings_view(before).push(w@));
                assert(words_from(s@, i as int) == seq![s@.subrange(a as int, b as int)] + words_from(s@, b as int));
                assert(strings_view(r@) + words_from(s@, b as int) =~= strings_view(before) + words_from(s@, i as int));
            }
            i = b;
        }
    }
    proof {
        assert(words_from(s@, i as int) =~= Seq::<Seq<char>>::empty());
        assert(strings_view(r@) + Seq::<Seq<char>>::empty() =~= strings_view(r@));
    }
    r
}

/// The lines of `s`, without line endings.
pub fn lines(s: &str) -> (r: Vec<String>)
    ensures
        strings_view(r@) == spec_lines(s@),
{
    let nl = "\n";
    proof {
        reveal_strlit("\n");
    }
    let mut parts = split(s, nl);
    let ghost sp = spec_split(s@, seq!['\n']);
    assert(nl@ == seq!['\n']);
    assert(strings_view(parts@) == sp);
    let ghost kept = if sp.len() > 0 && sp.last().len() == 0 {
        sp.drop_last()
    } else {
        sp
    };
    let plen = parts.len();
    if plen > 0 && parts[plen - 1].as_str().unicode_len() == 0 {
        let ghost before = parts@;
        parts.pop();
        proof {
            assert(strings_view(parts@) =~= strings_view(before).drop_last());
        }
    } else {
        proof {
            if sp.len() > 0 {
                assert(sp.last() == parts@[plen - 1]@);
            }
        }
    }
    let ghost trimmed = strings_view(parts@);
    assert(trimmed == kept);
    let mut r: Vec<String> = Vec::new();
    let mut i: usize = 0;
    while i < parts.len()
        invariant
            i <= parts@.len(),
            trimmed == strings_view(parts@),
            strings_view(r@) == trimmed.subrange(0, i as int).map_values(|l: Seq<char>| strip_cr(l)),
        decreases parts@.len() - i,
    {
        let p = parts[i].as_str();
        let len = p.unicode_len();
        let line = if len > 0 && p.get_char(len - 1) == '\r' {
            substring(p, 0, len - 1)
        } else {
            String::from_str(p)
        };
        proof {
            assert(line@ == strip_cr(trimmed[i as int]));
        }
        let ghost before = r@;
        r.push(line);
        proof {
            assert(strings_view(r@) =~= strings_view(before) + seq![line@]);
            assert(trimmed.subrange(0, i + 1).map_values(|l: Seq<char>| strip_cr(l)) =~= trimmed.subrange(
                0,
                i as int,
            ).map_values(|l: Seq<char>| strip_cr(l)) + seq![line@]);
        }
        i = i + 1;
    }
    proof {
        assert(trimmed.subrange(0, i as int) =~= trimmed);
    }
    r
}


/// Parts joined with a separator between each two consecutive parts, as `[String]::join` builds it.
pub open spec fn spec_join(parts: Seq<Seq<char>>, sep: Seq<char>) -> Seq<char>
    decreases parts.len(),
{
    if parts.len() == 0 {
        Seq::empty()
    } else if parts.len() == 1 {
        parts[0]
    } else {
        spec_join(parts.drop_last(), sep) + sep + parts.last()
    }
}

/// Join parts with a separator.
pub fn join(parts: &Vec<String>, sep: &str) -> (r: String)
    ensures
        r@ == spec_join(strings_view(parts@), sep@),
{
    let mut r = String::new();
    let mut i: usize = 0;
    while i < parts.len()
        invariant
            i <= parts@.len(),
            r@ == spec_join(strings_view(parts@.subrange(0, i as int)), sep@),
        decreases parts@.len() - i,
    {
        proof {
            assert(strings_view(parts@.subrange(0, i + 1)).drop_last() =~= strings_view(
                parts@.subrange(0, i as int),
            ));
            assert(strings_view(parts@.subrange(0, i + 1)).last() == parts@[i as int]@);
        }
        if i > 0 {
            r.append(sep);
        } else {
            proof {
                assert(strings_view(parts@.subrange(0, i + 1)).len() == 1);
            }
        }
        r.append(parts[i].as_str());
        i = i + 1;
    }
    proof {
        assert(parts@.subrange(0, i as int) =~= parts@);
    }
    r
}

} // verus!
