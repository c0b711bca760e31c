use crate::digits::{
    decimal_repr, decimal_string, digits_value, is_digit, lemma_decimal_repr, parse_u64_digits,
    parses_as_u64,
};
use crate::gas::NearGas;
use vstd::arithmetic::power::{lemma_pow_increases, lemma_pow_positive, pow};
use vstd::prelude::*;

verus! {

/// The low `k` bytes of `n`, least significant first.
pub open spec fn le_bytes(n: nat, k: nat) -> Seq<u8>
    decreases k,
{
    if k == 0 {
        Seq::empty()
    } else {
        seq![(n % 256) as u8] + le_bytes(n / 256, (k - 1) as nat)
    }
}

/// The number that bytes denote, least significant first.
pub open spec fn le_value(b: Seq<u8>) -> nat
    decreases b.len(),
{
    if b.len() == 0 {
        0
    } else {
        b[0] as nat + 256 * le_value(b.drop_first())
    }
}

pub proof fn lemma_le_bytes(n: nat, k: nat)
    ensures
        le_bytes(n, k).len() == k,
        le_value(le_bytes(n, k)) == n % (pow(256, k) as nat),
    decreases k,
{
    reveal(pow);
    if k > 0 {
        let k1 = (k - 1) as nat;
        lemma_le_bytes(n / 256, k1);
        let s = le_bytes(n, k);
        assert(s.drop_first() =~= le_bytes(n / 256, k1));
        lemma_pow_positive(256, k1);
        assert(pow(256, k) == 256 * pow(256, k1));
        vstd::arithmetic::div_mod::lemma_breakdown(n as int, 256, pow(256, k1));
    }
}

pub proof fn lemma_le_value_bound(b: Seq<u8>)
    ensures
        le_value(b) < pow(256, b.len()),
    decreases b.len(),
{
    reveal(pow);
    if b.len() > 0 {
        let t = b.drop_first();
        lemma_le_value_bound(t);
        let p = pow(256, t.len());
        assert(pow(256, b.len()) == 256 * p);
        assert(le_value(b) < 256 * p) by (nonlinear_arith)
            requires
                le_value(b) == b[0] as nat + 256 * le_value(t),
                le_value(t) < p,
                b[0] < 256,
        ;
    }
}

/// The digits of an unsigned integer's text: all of it, or what follows a
/// leading `+`.
pub open spec fn unsigned_digits(s: Seq<char>) -> Seq<char> {
    if s.len() > 0 && s[0] == '+' {
        s.drop_first()
    } else {
        s
    }
}

impl NearGas {
    /// The binary form: the eight bytes of the count, least significant first.
    pub fn to_bytes(&self) -> (r: Vec<u8>)
        ensures
            r@ == le_bytes(self@ as nat, 8),
    {
        let c = self.as_gas();
        let mut out: Vec<u8> = Vec::new();
        let mut x: u64 = c;
        let mut i: usize = 0;
        while i < 8
            invariant
                i <= 8,
                out@ + le_bytes(x as nat, (8 - i) as nat) == le_bytes(c as nat, 8),
            decreases 8 - i,
        {
            let ghost before = out@;
            out.push((x % 256) as u8);
            proof {
                let rest = le_bytes((x / 256) as nat, (8 - i - 1) as nat);
                assert(le_bytes(x as nat, (8 - i) as nat) == seq![(x % 256) as u8] + rest);
                assert(out@ + rest =~= before + (seq![(x % 256) as u8] + rest));
            }
            x = x / 256;
            i = i + 1;
        }
        assert(le_bytes(x as nat, 0) =~= Seq::<u8>::empty());
        assert(out@ + Seq::<u8>::empty() =~= out@);
        out
    }

    /// Reads the binary form; `None` unless there are exactly eight bytes.
    pub fn try_from_slice(bytes: &[u8]) -> (r: Option<NearGas>)
        ensures
            r.is_none() <==> bytes@.len() != 8,
            r matches Some(g) ==> g@ == le_value(bytes@),
    {
        if bytes.len() != 8 {
            return None;
        }
        let mut acc: u64 = 0;
        let mut i: usize = 8;
        proof {
            reveal_with_fuel(pow, 9);
            assert(bytes@.subrange(8, 8) =~= Seq::<u8>::empty());
        }
        while i > 0
            invariant
                i <= 8,
                bytes@.len() == 8,
                acc == le_value(bytes@.subrange(i as int, 8)),
                pow(256, 8) == 0x1_0000_0000_0000_0000,
            decreases i,
        {
            let ghost tail = bytes@.subrange(i as int, 8);
            proof {
                lemma_le_value_bound(tail);
                lemma_pow_increases(256, tail.len() + 1, 8);
                reveal(pow);
                assert(pow(256, tail.len() + 1) == 256 * pow(256, tail.len()));
            }
            let b = bytes[i - 1];
            assert(acc * 256 + b < 0x1_0000_0000_0000_0000) by (nonlinear_arith)
                requires
                    acc < pow(256, tail.len()),
                    256 * pow(256, tail.len()) <= 0x1_0000_0000_0000_0000,
                    b < 256,
            ;
            acc = acc * 256 + b as u64;
            i = i - 1;
            assert(bytes@.subrange(i as int, 8).drop_first() =~= tail);
        }
        assert(bytes@.subrange(0, 8) =~= bytes@);
        Some(NearGas::from_gas(acc))
    }

    /// The count in decimal: the form in which the amount is serialized as
    /// a string.
    pub fn to_decimal_string(&self) -> (r: String)
        ensures
            r@ == decimal_repr(self@ as nat),
    {
        decimal_string(self.as_gas())
    }

    /// Reads the decimal string form, as an unsigned 64-bit integer is read:
    /// `None` unless it is an optional `+` and then a non-empty string of
    /// ASCII digits whose value fits in 64 bits.
    pub fn from_decimal_str(s: &str) -> (r: Option<NearGas>)
        ensures
            r.is_none() <==> !parses_as_u64(unsigned_digits(s@)),
            r matches Some(g) ==> g@ == digits_value(unsigned_digits(s@)),
    {
        let n = s.unicode_len();
        let digits = if n > 0 && s.get_char(0) == '+' {
            s.substring_char(1, n)
        } else {
            s
        };
        match parse_u64_digits(digits) {
            Some(v) => Some(NearGas::from_gas(v)),
            None => None,
        }
    }

    /// Takes the signed integer form; a negative count is refused.
    pub fn from_i64(v: i64) -> (r: Option<NearGas>)
        ensures
            r.is_none() <==> v < 0,
            r matches Some(g) ==> g@ == v,
    {
        if v < 0 {
            None
        } else {
            Some(NearGas::from_gas(v as u64))
        }
    }
}

/// Decoding the binary form gives back the amount, and the binary form is
/// the eight bytes of the count, least significant first.
pub proof fn lemma_binary_round_trip(v: NearGas)
    ensures
        le_bytes(v@ as nat, 8).len() == 8,
        le_value(le_bytes(v@ as nat, 8)) == v@,
        forall|i: int|
            0 <= i < 8 ==> #[trigger] le_bytes(v@ as nat, 8)[i] == (v@ as nat / (pow(256, i as nat) as nat))
                % 256,
{
    lemma_le_bytes(v@ as nat, 8);
    reveal_with_fuel(pow, 9);
    vstd::arithmetic::div_mod::lemma_small_mod(v@ as nat, 0x1_0000_0000_0000_0000);
    assert forall|i: int| 0 <= i < 8 implies #[trigger] le_bytes(v@ as nat, 8)[i] == (v@ as nat / (pow(
        256,
        i as nat,
    ) as nat)) % 256 by {
        lemma_le_bytes_at(v@ as nat, 8, i);
    }
}

/// Byte `i` of the binary form is digit `i` of the count in base 256.
proof fn lemma_le_bytes_at(n: nat, k: nat, i: int)
    requires
        0 <= i < k,
    ensures
        le_bytes(n, k)[i] == (n / (pow(256, i as nat) as nat)) % 256,
    decreases k,
{
    reveal(pow);
    lemma_le_bytes(n, k);
    let rest = le_bytes(n / 256, (k - 1) as nat);
    assert(le_bytes(n, k) == seq![(n % 256) as u8] + rest);
    if i == 0 {
        assert(pow(256, 0) == 1);
        assert(n / 1 == n);
        assert(le_bytes(n, k)[0] == (n % 256) as u8);
    } else {
        assert(le_bytes(n, k)[i] == rest[i - 1]);
        lemma_le_bytes_at(n / 256, (k - 1) as nat, i - 1);
        lemma_pow_positive(256, (i - 1) as nat);
        vstd::arithmetic::div_mod::lemma_div_denominator(n as int, 256, pow(256, (i - 1) as nat));
        assert(pow(256, i as nat) == 256 * pow(256, (i - 1) as nat));
        assert(n / (pow(256, i as nat) as nat) == (n / 256) / (pow(256, (i - 1) as nat) as nat));
    }
}

/// The string form and the integer form of the same count read back to the
/// same amount, which is that count.
pub proof fn lemma_string_and_integer_forms_agree(n: u64)
    ensures
        parses_as_u64(unsigned_digits(decimal_repr(n as nat))),
        digits_value(unsigned_digits(decimal_repr(n as nat))) == n,
{
    lemma_decimal_repr(n as nat);
    let s = decimal_repr(n as nat);
    assert(is_digit(s[0]));
}

} // verus!
