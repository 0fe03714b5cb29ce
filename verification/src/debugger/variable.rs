//! Variables of the debugee as they are rendered: names, types and values as
//! text. Reading the values from the debugee is left to the caller.

use crate::debugger::debugee::dwarf::types::StructureMember;
use crate::text::{chars_of, copy_string, str_eq, substring};
use vstd::prelude::*;

verus! {

/// An ASCII decimal digit.
pub open spec fn is_digit(c: char) -> bool {
    '0' <= c <= '9'
}

/// Value of a string of decimal digits.
pub open spec fn digits_value(s: Seq<char>) -> int
    decreases s.len(),
{
    if s.len() == 0 {
        0
    } else {
        digits_value(s.drop_last()) * 10 + (s.last() as int - '0' as int)
    }
}

/// The digits of a number: the text without a leading `+`.
pub open spec fn unsigned_digits(s: Seq<char>) -> Seq<char> {
    if s.len() > 0 && s[0] == '+' {
        s.drop_first()
    } else {
        s
    }
}

/// At least one digit, all digits, and a value that fits in 32 bits.
pub open spec fn u32_digits_ok(d: Seq<char>) -> bool {
    &&& d.len() > 0
    &&& forall|i: int| 0 <= i < d.len() ==> is_digit(#[trigger] d[i])
    &&& digits_value(d) <= u32::MAX
}

/// Whether `s` reads as an unsigned 32 bit number, as `u32::from_str` accepts
/// it: an optional `+`, then at least one digit, and a value that fits.
pub open spec fn parses_as_u32(s: Seq<char>) -> bool {
    u32_digits_ok(unsigned_digits(s))
}

/// Index of the first character at or after `i` that is not an underscore.
pub open spec fn skip_underscores(s: Seq<char>, i: int) -> int
    decreases s.len() - i,
{
    if i < 0 || i >= s.len() {
        s.len() as int
    } else if s[i] != '_' {
        i
    } else {
        skip_underscores(s, i + 1)
    }
}

/// The name under which a variable is shown: a name that starts with two
/// underscores and is a number after them (a position in a tuple) is shown
/// as that number; any other name as it is.
pub open spec fn display_name(name: Seq<char>) -> Seq<char> {
    let rest = name.subrange(skip_underscores(name, 0), name.len() as int);
    if name.len() >= 2 && name[0] == '_' && name[1] == '_' && parses_as_u32(rest) {
        rest
    } else {
        name
    }
}

proof fn lemma_digits_prefix(d: Seq<char>, k: int)
    requires
        0 <= k <= d.len(),
        forall|i: int| 0 <= i < d.len() ==> is_digit(#[trigger] d[i]),
    ensures
        0 <= digits_value(d.take(k)) <= digits_value(d),
    decreases d.len(),
{
    if d.len() > 0 {
        let p = d.drop_last();
        assert forall|i: int| 0 <= i < p.len() implies is_digit(#[trigger] p[i]) by {
            assert(p[i] == d[i]);
        }
        assert(is_digit(d[d.len() - 1]));
        if k == d.len() {
            assert(d.take(k) =~= d);
            lemma_digits_prefix(p, p.len() as int);
            assert(p.take(p.len() as int) =~= p);
        } else {
            assert(p.take(k) =~= d.take(k));
            lemma_digits_prefix(p, k);
        }
    }
}

/// Whether `s` reads as an unsigned 32 bit number.
pub fn is_u32_literal(s: &str) -> (r: bool)
    ensures
        r == parses_as_u32(s@),
{
    let cs = chars_of(s);
    let start: usize = if cs.len() > 0 && cs[0] == '+' {
        1
    } else {
        0
    };
    let ghost d = unsigned_digits(s@);
    assert(d =~= s@.subrange(start as int, s@.len() as int));
    if start >= cs.len() {
        return false;
    }
    let mut val: u64 = 0;
    let mut i: usize = start;
    while i < cs.len()
        invariant
            cs@ == s@,
            start <= i <= cs@.len(),
            d == s@.subrange(start as int, s@.len() as int),
            d == unsigned_digits(s@),
            forall|j: int| 0 <= j < i - start ==> is_digit(#[trigger] d[j]),
            val == digits_value(d.take(i - start)),
            val <= u32::MAX,
        decreases cs@.len() - i,
    {
        let c = cs[i];
        if !('0' <= c && c <= '9') {
            assert(d[i - start] == cs@[i as int]);
            assert(!is_digit(d[i - start]));
            return false;
        }
        proof {
            assert(d.take(i - start + 1).drop_last() =~= d.take(i - start));
        }
        assert(d[i - start] == c);
        let digit = (c as u32 - '0' as u32) as u64;
        let next = val * 10 + digit;
        if next > 4294967295 {
            proof {
                if parses_as_u32(s@) {
                    lemma_digits_prefix(d, i - start + 1);
                }
            }
            return false;
        }
        val = next;
        i = i + 1;
    }
    proof {
        assert(d.take(i - start) =~= d);
    }
    true
}

/// The name under which a variable is shown (see [`display_name`]).
pub fn prettify_name(name: &str) -> (r: String)
    ensures
        r@ == display_name(name@),
{
    let cs = chars_of(name);
    let n = cs.len();
    if n >= 2 && cs[0] == '_' && cs[1] == '_' {
        let mut a: usize = 0;
        while a < n && cs[a] == '_'
            invariant
                cs@ == name@,
                n == name@.len(),
                a <= n,
                skip_underscores(name@, 0) == skip_underscores(name@, a as int),
            decreases n - a,
        {
            a = a + 1;
        }
        let rest = substring(name, a, n);
        if is_u32_literal(rest.as_str()) {
            return rest;
        }
    }
    String::from_str(name)
}

/// Integer that the bytes hold, least significant byte first.
pub open spec fn le_value(bytes: Seq<u8>) -> nat
    decreases bytes.len(),
{
    if bytes.len() == 0 {
        0
    } else {
        bytes[0] as nat + 256 * le_value(bytes.drop_first())
    }
}

/// 256 to the power `n`.
pub open spec fn pow256(n: nat) -> nat
    decreases n,
{
    if n == 0 {
        1
    } else {
        256 * pow256((n - 1) as nat)
    }
}

/// The integer that `n` bytes hold is below 256 to the power `n`.
proof fn lemma_le_value_bound(bytes: Seq<u8>)
    ensures
        le_value(bytes) < pow256(bytes.len()),
    decreases bytes.len(),
{
    if bytes.len() > 0 {
        lemma_le_value_bound(bytes.drop_first());
    }
}

/// Powers of 256 grow with the exponent.
proof fn lemma_pow256_monotone(a: nat, b: nat)
    requires
        a <= b,
    ensures
        pow256(a) <= pow256(b),
    decreases b,
{
    if a < b {
        lemma_pow256_monotone(a, (b - 1) as nat);
    }
}

/// Size in bytes of the unsigned integer type of a discriminator, by the
/// type's name.
pub open spec fn discr_size(scalar_name: Seq<char>) -> Option<nat> {
    if scalar_name == "u8"@ {
        Some(1)
    } else if scalar_name == "u16"@ {
        Some(2)
    } else if scalar_name == "u32"@ {
        Some(4)
    } else if scalar_name == "u64"@ {
        Some(8)
    } else {
        None
    }
}

/// Value of a discriminator (see [`as_discriminator`]).
pub open spec fn discriminator_of(scalar_name: Option<Seq<char>>, value: Option<Seq<u8>>) -> Option<i64> {
    match (scalar_name, value) {
        (Some(n), Some(v)) => match discr_size(n) {
            Some(size) => Some(le_value(v.subrange(0, size as int)) as u64 as i64),
            None => None,
        },
        _ => None,
    }
}

/// The unsigned integer that the first `size` bytes hold, least significant
/// byte first.
pub(crate) fn read_le(v: &[u8], size: usize) -> (r: u64)
    requires
        size <= 8,
        size <= v.len(),
    ensures
        r == le_value(v@.subrange(0, size as int)),
{
    let mut acc: u64 = 0;
    let mut i: usize = size;
    while i > 0
        invariant
            i <= size <= 8,
            size <= v.len(),
            acc == le_value(v@.subrange(i as int, size as int)),
            acc < pow256((size - i) as nat),
        decreases i,
    {
        proof {
            let s = v@.subrange(i - 1, size as int);
            assert(s.drop_first() =~= v@.subrange(i as int, size as int));
            lemma_pow256_monotone((size - i + 1) as nat, 8);
            reveal_with_fuel(pow256, 9);
            assert(pow256(8) == 0x1_0000_0000_0000_0000);
        }
        acc = acc * 256 + v[i - 1] as u64;
        i = i - 1;
    }
    acc
}

/// Value of a discriminator of an enumeration: when its type is the unsigned
/// integer type `u8`, `u16`, `u32` or `u64`, the integer that its first bytes
/// hold (least significant first), taken as an `i64`; none for any other
/// type, or without a value.
///
/// # Arguments
///
/// * `scalar_name`: name of the discriminator's scalar type (none when its
///   type is not a scalar)
/// * `value`: bytes of the discriminator, when they could be read
pub fn as_discriminator(scalar_name: Option<&str>, value: Option<&[u8]>) -> (r: Option<i64>)
    requires
        scalar_name matches Some(n) && value matches Some(v) && discr_size(n@) matches Some(size) ==> size <= v.len(),
    ensures
        r == discriminator_of(
            match scalar_name {
                Some(n) => Some(n@),
                None => None,
            },
            match value {
                Some(v) => Some(v@),
                None => None,
            },
        ),
{
    let name = match scalar_name {
        Some(n) => n,
        None => {
            return None;
        },
    };
    let size: usize = if str_eq(name, "u8") {
        1
    } else if str_eq(name, "u16") {
        2
    } else if str_eq(name, "u32") {
        4
    } else if str_eq(name, "u64") {
        8
    } else {
        return None;
    };
    match value {
        Some(v) => Some(read_le(v, size) as i64),
        None => None,
    }
}

/// The text of the first enumerator with key `discr`.
pub open spec fn enumerator_name(enumerators: Seq<(i64, String)>, discr: i64) -> Option<Seq<char>>
    decreases enumerators.len(),
{
    if enumerators.len() == 0 {
        None
    } else if enumerators[0].0 == discr {
        Some(enumerators[0].1@)
    } else {
        enumerator_name(enumerators.drop_first(), discr)
    }
}

/// Variable of a C-style enumeration: named after the variable (`unknown`
/// without one), typed after the enumeration (`unknown` without a name),
/// with the enumerator that the discriminator value selects, if any.
pub fn as_c_enum_ir(
    var_name: Option<&str>,
    enum_name: Option<&str>,
    discr: Option<i64>,
    enumerators: &Vec<(i64, String)>,
) -> (r: CEnumIR)
    ensures
        r.name_view() == match var_name {
            Some(n) => n@,
            None => "unknown"@,
        },
        r.type_view() == match enum_name {
            Some(n) => n@,
            None => "unknown"@,
        },
        r.value_view() == match discr {
            Some(d) => enumerator_name(enumerators@, d),
            None => None,
        },
{
    let name = match var_name {
        Some(n) => String::from_str(n),
        None => String::from_str("unknown"),
    };
    let typ = match enum_name {
        Some(n) => String::from_str(n),
        None => String::from_str("unknown"),
    };
    let value = match discr {
        None => None,
        Some(d) => {
            let mut found: Option<String> = None;
            let mut i: usize = 0;
            proof {
                assert(enumerators@.subrange(0, enumerators.len() as int) =~= enumerators@);
            }
            while i < enumerators.len()
                invariant
                    i <= enumerators.len(),
                    found is None ==> enumerator_name(enumerators@, d) == enumerator_name(
                        enumerators@.subrange(i as int, enumerators.len() as int),
                        d,
                    ),
                    found matches Some(f) ==> enumerator_name(enumerators@, d) == Some(f@),
                decreases enumerators.len() - i,
            {
                proof {
                    let s = enumerators@.subrange(i as int, enumerators.len() as int);
                    assert(s.drop_first() =~= enumerators@.subrange(i + 1, enumerators.len() as int));
                }
                if found.is_none() && enumerators[i].0 == d {
                    found = Some(copy_string(&enumerators[i].1));
                }
                i = i + 1;
            }
            proof {
                assert(enumerators@.subrange(i as int, enumerators.len() as int).len() == 0);
            }
            found
        },
    };
    CEnumIR::new(name, typ, value)
}

/// Position of the first key equal to `k`.
pub open spec fn first_key(keys: Seq<Option<i64>>, k: Option<i64>) -> Option<int>
    decreases keys.len(),
{
    if keys.len() == 0 {
        None
    } else if keys[0] == k {
        Some(0)
    } else {
        match first_key(keys.drop_first(), k) {
            Some(i) => Some(i + 1),
            None => None,
        }
    }
}

/// Position of the enumerator of a Rust enumeration that a discriminator
/// value selects: the first one keyed by that value, or else the first
/// default one (keyed by none); none without a value.
pub open spec fn rust_enumerator_of(keys: Seq<Option<i64>>, discr: Option<i64>) -> Option<int> {
    match discr {
        None => None,
        Some(d) => match first_key(keys, Some(d)) {
            Some(i) => Some(i),
            None => first_key(keys, None),
        },
    }
}

/// Keys of enumerators.
pub open spec fn enumerator_keys(enumerators: Seq<(Option<i64>, StructureMember)>) -> Seq<Option<i64>> {
    enumerators.map_values(|e: (Option<i64>, StructureMember)| e.0)
}

/// Position of the first enumerator keyed by `k`.
fn find_key(enumerators: &Vec<(Option<i64>, StructureMember)>, k: Option<i64>) -> (r: Option<usize>)
    ensures
        r matches Some(i) ==> first_key(enumerator_keys(enumerators@), k) == Some(i as int),
        r is None ==> first_key(enumerator_keys(enumerators@), k) is None,
{
    let ghost keys = enumerator_keys(enumerators@);
    let mut i: usize = 0;
    proof {
        assert(keys.subrange(0, keys.len() as int) =~= keys);
    }
    while i < enumerators.len()
        invariant
            i <= enumerators.len(),
            keys == enumerator_keys(enumerators@),
            first_key(keys, k) == match first_key(keys.subrange(i as int, keys.len() as int), k) {
                Some(j) => Some(j + i),
                None => None,
            },
        decreases enumerators.len() - i,
    {
        proof {
            let s = keys.subrange(i as int, keys.len() as int);
            assert(s.drop_first() =~= keys.subrange(i + 1, keys.len() as int));
            assert(s[0] == enumerators@[i as int].0);
        }
        if enumerators[i].0 == k {
            return Some(i);
        }
        i = i + 1;
    }
    proof {
        assert(keys.subrange(i as int, keys.len() as int).len() == 0);
    }
    None
}

/// Position of the enumerator of a Rust enumeration that the discriminator
/// value selects (see [`rust_enumerator_of`]).
pub fn select_rust_enumerator(enumerators: &Vec<(Option<i64>, StructureMember)>, discr: Option<i64>) -> (r: Option<
    usize,
>)
    ensures
        r matches Some(i) ==> rust_enumerator_of(enumerator_keys(enumerators@), discr) == Some(i as int),
        r is None ==> rust_enumerator_of(enumerator_keys(enumerators@), discr) is None,
{
    match discr {
        None => None,
        Some(d) => match find_key(enumerators, Some(d)) {
            Some(i) => Some(i),
            None => find_key(enumerators, None),
        },
    }
}

/// A C-style enumeration variable: its name, its type and its value (the name
/// of the enumerator), if the value could be read.
pub struct CEnumIR {
    name: String,
    typ: String,
    value: Option<String>,
}

impl CEnumIR {
    pub closed spec fn name_view(&self) -> Seq<char> {
        self.name@
    }

    pub closed spec fn type_view(&self) -> Seq<char> {
        self.typ@
    }

    pub closed spec fn value_view(&self) -> Option<Seq<char>> {
        match self.value {
            Some(v) => Some(v@),
            None => None,
        }
    }

    pub fn new(name: String, typ: String, value: Option<String>) -> (r: CEnumIR)
        ensures
            r.name_view() == name@,
            r.type_view() == typ@,
            r.value_view() == match value {
                Some(v) => Some(v@),
                None => None::<Seq<char>>,
            },
    {
        CEnumIR { name, typ, value }
    }

    /// Name of the variable as it is shown.
    pub fn name(&self) -> (r: String)
        ensures
            r@ == display_name(self.name_view()),
    {
        prettify_name(self.name.as_str())
    }

    /// Type of the variable.
    pub fn typ(&self) -> (r: &String)
        ensures
            r@ == self.type_view(),
    {
        &self.typ
    }

    /// The enumerator, if the value could be read.
    pub fn value(&self) -> (r: Option<&String>)
        ensures
            match r {
                Some(v) => self.value_view() == Some(v@),
                None => self.value_view() is None,
            },
    {
        match &self.value {
            Some(v) => Some(v),
            None => None,
        }
    }
}

} // verus!
