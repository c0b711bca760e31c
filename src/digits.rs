use vstd::arithmetic::power::pow;
use vstd::prelude::*;
use vstd::string::StringExecFns;

verus! {

/// An ASCII decimal digit.
pub open spec fn is_digit(c: char) -> bool {
    '0' <= c && c <= '9'
}

pub open spec fn all_digits(s: Seq<char>) -> bool {
    forall|i: int| 0 <= i < s.len() ==> #[trigger] is_digit(s[i])
}

pub open spec fn digit_value(c: char) -> nat {
    (c as u32 - '0' as u32) as nat
}

pub open spec fn digit_char(d: nat) -> char {
    seq!['0', '1', '2', '3', '4', '5', '6', '7', '8', '9'][d as int]
}

/// The number that a string of decimal digits denotes (leading zeros allowed).
pub open spec fn digits_value(s: Seq<char>) -> nat
    decreases s.len(),
{
    if s.len() == 0 {
        0
    } else {
        digits_value(s.drop_last()) * 10 + digit_value(s.last())
    }
}

/// A non-empty string of digits whose value fits in 64 bits.
pub open spec fn parses_as_u64(s: Seq<char>) -> bool {
    s.len() > 0 && all_digits(s) && digits_value(s) <= u64::MAX
}

/// The shortest decimal text of `n`.
pub open spec fn decimal_repr(n: nat) -> Seq<char>
    decreases n,
{
    if n < 10 {
        seq![digit_char(n)]
    } else {
        decimal_repr(n / 10).push(digit_char(n % 10))
    }
}

/// The last `k` decimal digits of `m`, with leading zeros.
pub open spec fn padded_repr(m: nat, k: nat) -> Seq<char>
    decreases k,
{
    if k == 0 {
        Seq::empty()
    } else {
        padded_repr(m / 10, (k - 1) as nat).push(digit_char(m % 10))
    }
}

pub proof fn lemma_digit_char(d: nat)
    requires
        d < 10,
    ensures
        is_digit(digit_char(d)),
        digit_value(digit_char(d)) == d,
        digit_char(d) != '.',
{
}

pub proof fn lemma_decimal_repr(n: nat)
    ensures
        decimal_repr(n).len() >= 1,
        all_digits(decimal_repr(n)),
        digits_value(decimal_repr(n)) == n,
    decreases n,
{
    if n < 10 {
        lemma_digit_char(n);
        let s = decimal_repr(n);
        assert(s.drop_last() =~= Seq::<char>::empty());
        assert(digits_value(s.drop_last()) == 0);
        assert(s.last() == digit_char(n));
    } else {
        lemma_decimal_repr(n / 10);
        lemma_digit_char(n % 10);
        let s = decimal_repr(n);
        assert(s.drop_last() =~= decimal_repr(n / 10));
        assert(s.last() == digit_char(n % 10));
        assert(digits_value(s) == (n / 10) * 10 + n % 10);
    }
}

pub proof fn lemma_padded_repr(m: nat, k: nat)
    ensures
        padded_repr(m, k).len() == k,
        all_digits(padded_repr(m, k)),
        digits_value(padded_repr(m, k)) == m % (pow(10, k) as nat),
    decreases k,
{
    reveal(pow);
    if k == 0 {
    } else {
        let k1 = (k - 1) as nat;
        lemma_padded_repr(m / 10, k1);
        lemma_digit_char(m % 10);
        let s = padded_repr(m, k);
        assert(s.drop_last() =~= padded_repr(m / 10, k1));
        let p = pow(10, k1);
        vstd::arithmetic::power::lemma_pow_positive(10, k1);
        assert(pow(10, k) == 10 * p);
        vstd::arithmetic::div_mod::lemma_breakdown(m as int, 10, p);
    }
}

/// A prefix of a string of digits denotes no more than the whole string.
pub proof fn lemma_digits_prefix_le(s: Seq<char>, i: int)
    requires
        0 <= i <= s.len(),
    ensures
        digits_value(s.subrange(0, i)) <= digits_value(s),
    decreases s.len() - i,
{
    if i < s.len() {
        lemma_digits_prefix_le(s, i + 1);
        assert(s.subrange(0, i + 1).drop_last() =~= s.subrange(0, i));
    } else {
        assert(s.subrange(0, i) =~= s);
    }
}

pub proof fn lemma_digits_bound(s: Seq<char>)
    requires
        all_digits(s),
    ensures
        digits_value(s) < pow(10, s.len()),
    decreases s.len(),
{
    reveal(pow);
    if s.len() > 0 {
        let p = s.drop_last();
        lemma_digits_bound(p);
        assert(is_digit(s[s.len() - 1]));
        assert(digits_value(s) <= digits_value(p) * 10 + 9);
        assert(pow(10, s.len()) == 10 * pow(10, p.len()));
    }
}

/// A non-empty string of ASCII digits.
pub open spec fn is_digit_group(s: Seq<char>) -> bool {
    s.len() > 0 && all_digits(s)
}

/// What a string read as a group of digits turned out to be.
pub enum DigitGroup {
    /// Empty, or holding a character that is not an ASCII digit.
    NotDigits,
    /// Digits whose value does not fit in 64 bits.
    TooLarge,
    /// Digits with this value.
    Value(u64),
}

/// Reads a non-empty string of ASCII digits, telling apart text that is not
/// such a string from digits whose value does not fit in 64 bits.
pub(crate) fn read_digits(s: &str) -> (r: DigitGroup)
    ensures
        r is NotDigits <==> !is_digit_group(s@),
        r is TooLarge <==> is_digit_group(s@) && digits_value(s@) > u64::MAX,
        r matches DigitGroup::Value(v) ==> is_digit_group(s@) && v == digits_value(s@),
{
    let n = s.unicode_len();
    if n == 0 {
        return DigitGroup::NotDigits;
    }
    let mut acc: u64 = 0;
    let mut too_large = false;
    let mut i: usize = 0;
    while i < n
        invariant
            n == s@.len(),
            i <= n,
            all_digits(s@.subrange(0, i as int)),
            !too_large ==> acc == digits_value(s@.subrange(0, i as int)),
            too_large ==> digits_value(s@.subrange(0, i as int)) > u64::MAX,
        decreases n - i,
    {
        let c = s.get_char(i);
        if !('0' <= c && c <= '9') {
            assert(!is_digit(s@[i as int]));
            return DigitGroup::NotDigits;
        }
        let d = (c as u32 - '0' as u32) as u64;
        assert(s@.subrange(0, i + 1).drop_last() =~= s@.subrange(0, i as int));
        if !too_large {
            match acc.checked_mul(10) {
                Some(t) => match t.checked_add(d) {
                    Some(v) => {
                        acc = v;
                    },
                    None => {
                        too_large = true;
                    },
                },
                None => {
                    too_large = true;
                },
            }
        }
        i = i + 1;
    }
    assert(s@.subrange(0, n as int) =~= s@);
    if too_large {
        DigitGroup::TooLarge
    } else {
        DigitGroup::Value(acc)
    }
}

/// Reads a non-empty string of ASCII digits as a 64-bit count.
pub(crate) fn parse_u64_digits(s: &str) -> (r: Option<u64>)
    ensures
        r == (if parses_as_u64(s@) {
            Some(digits_value(s@) as u64)
        } else {
            None::<u64>
        }),
{
    match read_digits(s) {
        DigitGroup::Value(v) => Some(v),
        _ => None,
    }
}

/// Leading zeros do not change the number that digits denote.
pub proof fn lemma_leading_zeros(s: Seq<char>, k: int)
    requires
        0 <= k <= s.len(),
        forall|i: int| 0 <= i < k ==> s[i] == '0',
    ensures
        digits_value(s.subrange(k, s.len() as int)) == digits_value(s),
    decreases s.len(),
{
    if s.len() == 0 {
        assert(s.subrange(k, 0) =~= s);
    } else if k == s.len() {
        let p = s.drop_last();
        lemma_leading_zeros(p, p.len() as int);
        assert(p.subrange(p.len() as int, p.len() as int) =~= Seq::<char>::empty());
        assert(s.subrange(k, s.len() as int) =~= Seq::<char>::empty());
        assert(s.last() == '0');
    } else {
        let p = s.drop_last();
        lemma_leading_zeros(p, k);
        assert(s.subrange(k, s.len() as int).drop_last() =~= p.subrange(k, p.len() as int));
    }
}

pub proof fn lemma_digit_round_trip(c: char)
    requires
        is_digit(c),
    ensures
        digit_char(digit_value(c)) == c,
{
    let d = digit_value(c);
    if d == 0 {
    } else if d == 1 {
    } else if d == 2 {
    } else if d == 3 {
    } else if d == 4 {
    } else if d == 5 {
    } else if d == 6 {
    } else if d == 7 {
    } else if d == 8 {
    } else {
    }
}

/// Digits without a leading zero (other than a lone `0`) are the shortest
/// decimal text of their value.
pub proof fn lemma_canonical_digits(s: Seq<char>)
    requires
        is_digit_group(s),
        s.len() == 1 || s[0] != '0',
    ensures
        decimal_repr(digits_value(s)) == s,
    decreases s.len(),
{
    let d = digit_value(s.last());
    assert(is_digit(s[s.len() - 1]));
    lemma_digit_round_trip(s.last());
    if s.len() == 1 {
        assert(s.drop_last() =~= Seq::<char>::empty());
        assert(digits_value(Seq::<char>::empty()) == 0);
        assert(digits_value(s) == d);
        assert(decimal_repr(d) =~= s);
    } else {
        let p = s.drop_last();
        assert(p[0] == s[0]);
        assert(is_digit(p[0]));
        lemma_canonical_digits(p);
        lemma_digits_prefix_le(p, 1);
        let first = p.subrange(0, 1);
        assert(first.drop_last() =~= Seq::<char>::empty());
        assert(digits_value(Seq::<char>::empty()) == 0);
        assert(first.last() == p[0]);
        assert(digits_value(first) == digit_value(p[0]));
        let v = digits_value(s);
        assert(v == digits_value(p) * 10 + d);
        assert(v / 10 == digits_value(p));
        assert(v % 10 == d);
        assert(decimal_repr(v) =~= s);
    }
}

/// The shortest decimal text of the number that digits denote.
pub(crate) fn canonical_digits(s: &str) -> (r: String)
    requires
        is_digit_group(s@),
    ensures
        r@ == decimal_repr(digits_value(s@)),
{
    let n = s.unicode_len();
    let mut k: usize = 0;
    while k + 1 < n && s.get_char(k) == '0'
        invariant
            n == s@.len(),
            n >= 1,
            k <= n - 1,
            forall|i: int| 0 <= i < k ==> s@[i] == '0',
        decreases n - k,
    {
        k = k + 1;
    }
    proof {
        lemma_leading_zeros(s@, k as int);
        let t = s@.subrange(k as int, n as int);
        assert forall|i: int| 0 <= i < t.len() implies #[trigger] is_digit(t[i]) by {
            assert(is_digit(s@[k + i]));
        }
        lemma_canonical_digits(t);
    }
    s.substring_char(k, n).to_owned()
}

/// The one-character text of a decimal digit.
fn digit_text(d: u64) -> (r: &'static str)
    requires
        d < 10,
    ensures
        r@ == seq![digit_char(d as nat)],
{
    if d == 0 {
        proof { reveal_strlit("0"); }
        "0"
    } else if d == 1 {
        proof { reveal_strlit("1"); }
        "1"
    } else if d == 2 {
        proof { reveal_strlit("2"); }
        "2"
    } else if d == 3 {
        proof { reveal_strlit("3"); }
        "3"
    } else if d == 4 {
        proof { reveal_strlit("4"); }
        "4"
    } else if d == 5 {
        proof { reveal_strlit("5"); }
        "5"
    } else if d == 6 {
        proof { reveal_strlit("6"); }
        "6"
    } else if d == 7 {
        proof { reveal_strlit("7"); }
        "7"
    } else if d == 8 {
        proof { reveal_strlit("8"); }
        "8"
    } else {
        proof { reveal_strlit("9"); }
        "9"
    }
}

/// Writes `n` in decimal, without leading zeros.
pub(crate) fn decimal_string(n: u64) -> (r: String)
    ensures
        r@ == decimal_repr(n as nat),
    decreases n,
{
    if n < 10 {
        digit_text(n).to_owned()
    } else {
        let mut s = decimal_string(n / 10);
        s.append(digit_text(n % 10));
        s
    }
}

/// Writes the last `k` decimal digits of `m`, with leading zeros.
pub(crate) fn padded_string(m: u64, k: u64) -> (r: String)
    ensures
        r@ == padded_repr(m as nat, k as nat),
    decreases k,
{
    if k == 0 {
        String::new()
    } else {
        let mut s = padded_string(m / 10, k - 1);
        s.append(digit_text(m % 10));
        s
    }
}

} // verus!
