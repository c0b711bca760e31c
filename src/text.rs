use crate::decimal::{decimal_number_spec, parse_decimal_number};
use crate::error::{GasTextFailure, NearGasError};
use crate::gas::{NearGas, ONE_GIGA_GAS, ONE_PETA_GAS, ONE_TERA_GAS};
use vstd::prelude::*;

verus! {

/// A character of the Unicode White_Space property.
pub open spec fn is_whitespace(c: char) -> bool {
    ||| '\u{9}' <= c && c <= '\u{d}'
    ||| c == ' '
    ||| c == '\u{85}'
    ||| c == '\u{a0}'
    ||| c == '\u{1680}'
    ||| '\u{2000}' <= c && c <= '\u{200a}'
    ||| c == '\u{2028}'
    ||| c == '\u{2029}'
    ||| c == '\u{202f}'
    ||| c == '\u{205f}'
    ||| c == '\u{3000}'
}

pub open spec fn trim_start(s: Seq<char>) -> Seq<char>
    decreases s.len(),
{
    if s.len() > 0 && is_whitespace(s[0]) {
        trim_start(s.drop_first())
    } else {
        s
    }
}

pub open spec fn trim_end(s: Seq<char>) -> Seq<char>
    decreases s.len(),
{
    if s.len() > 0 && is_whitespace(s.last()) {
        trim_end(s.drop_last())
    } else {
        s
    }
}

/// `s` without leading and trailing whitespace.
pub open spec fn trim(s: Seq<char>) -> Seq<char> {
    trim_end(trim_start(s))
}

pub open spec fn is_ascii_letter(c: char) -> bool {
    ('a' <= c && c <= 'z') || ('A' <= c && c <= 'Z')
}

/// `i` is the position of the first ASCII letter in `s`.
pub open spec fn is_first_letter(s: Seq<char>, i: int) -> bool {
    &&& 0 <= i < s.len()
    &&& is_ascii_letter(s[i])
    &&& forall|k: int| 0 <= k < i ==> !is_ascii_letter(s[k])
}

pub open spec fn first_letter(s: Seq<char>) -> Option<int> {
    if exists|i: int| is_first_letter(s, i) {
        Some(choose|i: int| is_first_letter(s, i))
    } else {
        None
    }
}

/// `c` is the upper-case ASCII letter `u` in either case.
pub open spec fn same_letter(c: char, u: char) -> bool {
    c == u || c as u32 == u as u32 + 32
}

/// `s` spells the upper-case word `w`, ignoring ASCII case.
pub open spec fn spells(s: Seq<char>, w: Seq<char>) -> bool {
    s.len() == w.len() && forall|i: int| 0 <= i < s.len() ==> same_letter(#[trigger] s[i], w[i])
}

/// The gas per unit that a unit name stands for.
pub open spec fn unit_scale(u: Seq<char>) -> Option<u64> {
    if spells(u, "PGAS"@) || spells(u, "PETAGAS"@) {
        Some(ONE_PETA_GAS)
    } else if spells(u, "TGAS"@) || spells(u, "TERAGAS"@) {
        Some(ONE_TERA_GAS)
    } else if spells(u, "GGAS"@) || spells(u, "GIGAGAS"@) {
        Some(ONE_GIGA_GAS)
    } else {
        None
    }
}

/// The count of gas that `"<number> <unit>"` denotes, or why there is none.
/// The number ends before the first ASCII letter of the trimmed text; the
/// unit is the rest.
pub open spec fn gas_text_spec(s: Seq<char>) -> Result<u64, GasTextFailure> {
    let t = trim(s);
    match first_letter(t) {
        None => Err(GasTextFailure::IncorrectUnit(s)),
        Some(i) => match unit_scale(t.subrange(i, t.len() as int)) {
            None => Err(GasTextFailure::IncorrectUnit(s)),
            Some(scale) => match decimal_number_spec(trim(t.subrange(0, i)), scale) {
                Ok(v) => Ok(v),
                Err(e) => Err(GasTextFailure::IncorrectNumber(e)),
            },
        },
    }
}

pub open spec fn gas_result_view(r: Result<NearGas, NearGasError>) -> Result<u64, GasTextFailure> {
    match r {
        Ok(g) => Ok(g@),
        Err(e) => Err(e@),
    }
}

fn is_whitespace_char(c: char) -> (r: bool)
    ensures
        r == is_whitespace(c),
{
    ('\u{9}' <= c && c <= '\u{d}') || c == ' ' || c == '\u{85}' || c == '\u{a0}' || c
        == '\u{1680}' || ('\u{2000}' <= c && c <= '\u{200a}') || c == '\u{2028}' || c
        == '\u{2029}' || c == '\u{202f}' || c == '\u{205f}' || c == '\u{3000}'
}

/// Where the text is left once leading whitespace is skipped.
fn trimmed_start(s: &str) -> (a: usize)
    ensures
        a <= s@.len(),
        trim_start(s@) == s@.subrange(a as int, s@.len() as int),
{
    let n = s.unicode_len();
    let mut a: usize = 0;
    assert(s@.subrange(0, n as int) =~= s@);
    while a < n
        invariant
            n == s@.len(),
            a <= n,
            trim_start(s@) == trim_start(s@.subrange(a as int, n as int)),
        decreases n - a,
    {
        if !is_whitespace_char(s.get_char(a)) {
            return a;
        }
        assert(s@.subrange(a as int, n as int).drop_first() =~= s@.subrange(a + 1, n as int));
        a = a + 1;
    }
    a
}

/// Where the text from `a` ends once trailing whitespace is dropped.
fn trimmed_end(s: &str, a: usize) -> (b: usize)
    requires
        a <= s@.len(),
    ensures
        a <= b <= s@.len(),
        trim_end(s@.subrange(a as int, s@.len() as int)) == s@.subrange(a as int, b as int),
{
    let n = s.unicode_len();
    let mut b: usize = n;
    while b > a
        invariant
            n == s@.len(),
            a <= b <= n,
            trim_end(s@.subrange(a as int, n as int)) == trim_end(s@.subrange(a as int, b as int)),
        decreases b,
    {
        if !is_whitespace_char(s.get_char(b - 1)) {
            return b;
        }
        assert(s@.subrange(a as int, b as int).drop_last() =~= s@.subrange(a as int, b - 1));
        b = b - 1;
    }
    b
}

/// `s` without leading and trailing whitespace.
pub(crate) fn trim_str(s: &str) -> (r: &str)
    ensures
        r@ == trim(s@),
{
    let a = trimmed_start(s);
    let b = trimmed_end(s, a);
    s.substring_char(a, b)
}

pub proof fn lemma_first_letter(s: Seq<char>, i: int)
    requires
        is_first_letter(s, i),
    ensures
        first_letter(s) == Some(i),
{
    let j = choose|j: int| is_first_letter(s, j);
    if j < i {
        assert(!is_ascii_letter(s[j]));
    } else if i < j {
        assert(!is_ascii_letter(s[i]));
    }
}

pub proof fn lemma_no_letter(s: Seq<char>)
    requires
        forall|k: int| 0 <= k < s.len() ==> !is_ascii_letter(s[k]),
    ensures
        first_letter(s) == None::<int>,
{
    if exists|i: int| is_first_letter(s, i) {
        let i = choose|i: int| is_first_letter(s, i);
        assert(is_ascii_letter(s[i]));
    }
}

/// Finds the first ASCII letter in `s`.
fn find_letter(s: &str) -> (r: Option<usize>)
    ensures
        match r {
            Some(i) => is_first_letter(s@, i as int),
            None => forall|k: int| 0 <= k < s@.len() ==> !is_ascii_letter(s@[k]),
        },
{
    let n = s.unicode_len();
    let mut i: usize = 0;
    while i < n
        invariant
            n == s@.len(),
            i <= n,
            forall|k: int| 0 <= k < i ==> !is_ascii_letter(s@[k]),
        decreases n - i,
    {
        let c = s.get_char(i);
        if ('a' <= c && c <= 'z') || ('A' <= c && c <= 'Z') {
            return Some(i);
        }
        i = i + 1;
    }
    None
}

/// Whether `s` spells the upper-case word `w`, ignoring ASCII case.
fn spells_word(s: &str, w: &str) -> (r: bool)
    ensures
        r == spells(s@, w@),
{
    let n = s.unicode_len();
    if n != w.unicode_len() {
        return false;
    }
    let mut i: usize = 0;
    while i < n
        invariant
            n == s@.len(),
            n == w@.len(),
            i <= n,
            forall|k: int| 0 <= k < i ==> same_letter(#[trigger] s@[k], w@[k]),
        decreases n - i,
    {
        let c = s.get_char(i);
        let u = w.get_char(i);
        if !(c == u || c as u32 == u as u32 + 32) {
            return false;
        }
        i = i + 1;
    }
    true
}

/// The gas per unit that a unit name stands for.
fn unit_scale_of(u: &str) -> (r: Option<u64>)
    ensures
        r == unit_scale(u@),
{
    if spells_word(u, "PGAS") || spells_word(u, "PETAGAS") {
        Some(ONE_PETA_GAS)
    } else if spells_word(u, "TGAS") || spells_word(u, "TERAGAS") {
        Some(ONE_TERA_GAS)
    } else if spells_word(u, "GGAS") || spells_word(u, "GIGAGAS") {
        Some(ONE_GIGA_GAS)
    } else {
        None
    }
}

impl NearGas {
    /// Reads an amount written as `"<number> <unit>"`, such as `"1.5 Tgas"`.
    ///
    /// Whitespace around the text and between its parts is allowed; the unit
    /// is one of `GGAS`, `GIGAGAS`, `TGAS`, `TERAGAS`, `PGAS`, `PETAGAS`, in
    /// any ASCII case.
    pub fn parse(s: &str) -> (r: Result<NearGas, NearGasError>)
        ensures
            gas_result_view(r) == gas_text_spec(s@),
    {
        let t = trim_str(s);
        let i = match find_letter(t) {
            Some(i) => i,
            None => {
                proof {
                    lemma_no_letter(t@);
                }
                return Err(NearGasError::IncorrectUnit(s.to_owned()));
            },
        };
        proof {
            lemma_first_letter(t@, i as int);
        }
        let n = t.unicode_len();
        let unit = t.substring_char(i, n);
        let scale = match unit_scale_of(unit) {
            Some(scale) => scale,
            None => {
                return Err(NearGasError::IncorrectUnit(s.to_owned()));
            },
        };
        let number = trim_str(t.substring_char(0, i));
        match parse_decimal_number(number, scale) {
            Ok(v) => Ok(NearGas::from_gas(v)),
            Err(e) => Err(NearGasError::IncorrectNumber(e)),
        }
    }
}

impl std::str::FromStr for NearGas {
    type Err = NearGasError;

    fn from_str(s: &str) -> (r: Result<NearGas, NearGasError>)
        ensures
            gas_result_view(r) == gas_text_spec(s@),
    {
        NearGas::parse(s)
    }
}

} // verus!
