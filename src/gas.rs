use vstd::prelude::*;

verus! {

/// One gigagas, in gas.
pub const ONE_GIGA_GAS: u64 = 1_000_000_000;

/// One teragas, in gas.
pub const ONE_TERA_GAS: u64 = 1_000_000_000_000;

/// One petagas, in gas.
pub const ONE_PETA_GAS: u64 = 1_000_000_000_000_000;

/// An amount of gas, held as a count of the smallest unit.
#[derive(Debug, Clone, Copy, PartialEq, Eq, Structural, Ord, Hash)]
pub struct NearGas {
    inner: u64,
}

impl View for NearGas {
    type V = u64;

    closed spec fn view(&self) -> u64 {
        self.inner
    }
}

impl PartialOrd for NearGas {
    /// Amounts are ordered by their counts.
    fn partial_cmp(&self, other: &NearGas) -> (r: Option<std::cmp::Ordering>) {
        self.inner.partial_cmp(&other.inner)
    }
}

impl vstd::std_specs::cmp::PartialOrdSpecImpl for NearGas {
    open spec fn obeys_partial_cmp_spec() -> bool {
        true
    }

    open spec fn partial_cmp_spec(&self, other: &NearGas) -> Option<std::cmp::Ordering> {
        if self@ < other@ {
            Some(std::cmp::Ordering::Less)
        } else if self@ > other@ {
            Some(std::cmp::Ordering::Greater)
        } else {
            Some(std::cmp::Ordering::Equal)
        }
    }
}

impl Default for NearGas {
    /// No gas.
    fn default() -> (r: NearGas)
        ensures
            r@ == 0,
    {
        NearGas { inner: 0 }
    }
}

impl NearGas {
    /// Creates a value from a count of whole teragas; the product wraps
    /// around at 2^64.
    pub fn from_tgas(inner: u64) -> (r: NearGas)
        ensures
            r@ as int == (inner as int * ONE_TERA_GAS as int) % 0x1_0000_0000_0000_0000,
    {
        NearGas { inner: inner.wrapping_mul(ONE_TERA_GAS) }
    }

    /// Creates a value from a count of whole gigagas; the product wraps
    /// around at 2^64.
    pub fn from_ggas(inner: u64) -> (r: NearGas)
        ensures
            r@ as int == (inner as int * ONE_GIGA_GAS as int) % 0x1_0000_0000_0000_0000,
    {
        NearGas { inner: inner.wrapping_mul(ONE_GIGA_GAS) }
    }

    /// Creates a value from a count of gas.
    pub fn from_gas(inner: u64) -> (r: NearGas)
        ensures
            r@ == inner,
    {
        NearGas { inner }
    }

    /// Returns the count of gas.
    pub fn as_gas(self) -> (r: u64)
        ensures
            r == self@,
    {
        self.inner
    }

    /// Returns the whole gigagas in the amount, rounded down.
    pub fn as_ggas(self) -> (r: u64)
        ensures
            r == self@ / ONE_GIGA_GAS,
    {
        self.inner / ONE_GIGA_GAS
    }

    /// Returns the whole teragas in the amount, rounded down.
    pub fn as_tgas(self) -> (r: u64)
        ensures
            r == self@ / ONE_TERA_GAS,
    {
        self.inner / ONE_TERA_GAS
    }

    /// `self + rhs`, or `None` where the sum does not fit in 64 bits.
    pub fn checked_add(self, rhs: NearGas) -> (r: Option<NearGas>)
        ensures
            r.is_none() <==> self@ + rhs@ > u64::MAX,
            r matches Some(g) ==> g@ == self@ + rhs@,
    {
        if let Some(gas) = self.as_gas().checked_add(rhs.as_gas()) {
            Some(NearGas::from_gas(gas))
        } else {
            None
        }
    }

    /// `self - rhs`, or `None` where `rhs` is larger.
    pub fn checked_sub(self, rhs: NearGas) -> (r: Option<NearGas>)
        ensures
            r.is_none() <==> self@ < rhs@,
            r matches Some(g) ==> g@ == self@ - rhs@,
    {
        if let Some(gas) = self.as_gas().checked_sub(rhs.as_gas()) {
            Some(NearGas::from_gas(gas))
        } else {
            None
        }
    }

    /// `self * rhs`, or `None` where the product does not fit in 64 bits.
    pub fn checked_mul(self, rhs: u64) -> (r: Option<NearGas>)
        ensures
            r.is_none() <==> self@ * rhs > u64::MAX,
            r matches Some(g) ==> g@ == self@ * rhs,
    {
        if let Some(gas) = self.as_gas().checked_mul(rhs) {
            Some(NearGas::from_gas(gas))
        } else {
            None
        }
    }

    /// `self / rhs` rounded down, or `None` where `rhs` is zero.
    pub fn checked_div(self, rhs: u64) -> (r: Option<NearGas>)
        ensures
            r.is_none() <==> rhs == 0,
            r matches Some(g) ==> g@ == self@ / rhs,
    {
        if let Some(gas) = self.as_gas().checked_div(rhs) {
            Some(NearGas::from_gas(gas))
        } else {
            None
        }
    }

    /// `self + rhs`, held at the largest 64-bit count.
    pub fn saturating_add(self, rhs: NearGas) -> (r: NearGas)
        ensures
            r@ == (if self@ + rhs@ > u64::MAX {
                u64::MAX as int
            } else {
                self@ + rhs@
            }),
    {
        NearGas::from_gas(self.as_gas().saturating_add(rhs.as_gas()))
    }

    /// `self - rhs`, held at zero.
    pub fn saturating_sub(self, rhs: NearGas) -> (r: NearGas)
        ensures
            r@ == (if self@ < rhs@ {
                0
            } else {
                self@ - rhs@
            }),
    {
        NearGas::from_gas(self.as_gas().saturating_sub(rhs.as_gas()))
    }

    /// `self * rhs`, held at the largest 64-bit count.
    pub fn saturating_mul(self, rhs: u64) -> (r: NearGas)
        ensures
            r@ == (if self@ * rhs > u64::MAX {
                u64::MAX as int
            } else {
                self@ * rhs
            }),
    {
        match self.as_gas().checked_mul(rhs) {
            Some(gas) => NearGas::from_gas(gas),
            None => NearGas::from_gas(u64::MAX),
        }
    }

    /// `self / rhs` rounded down; zero where `rhs` is zero.
    pub fn saturating_div(self, rhs: u64) -> (r: NearGas)
        ensures
            r@ == (if rhs == 0 {
                0
            } else {
                self@ / rhs
            }),
    {
        if rhs == 0 {
            return NearGas::from_gas(0);
        }
        NearGas::from_gas(self.as_gas() / rhs)
    }
}

/// Two amounts are equal exactly when their counts are.
pub proof fn lemma_view_equal(a: NearGas, b: NearGas)
    ensures
        a@ == b@ <==> a == b,
{
}

/// Whole teragas come back unchanged through the count, wherever the count
/// fits in 64 bits.
pub proof fn lemma_tgas_round_trip(n: u64)
    requires
        n * ONE_TERA_GAS <= u64::MAX,
    ensures
        ((n as int * ONE_TERA_GAS as int) % 0x1_0000_0000_0000_0000) / (ONE_TERA_GAS as int) == n,
{
    vstd::arithmetic::div_mod::lemma_small_mod(
        (n * ONE_TERA_GAS) as nat,
        0x1_0000_0000_0000_0000,
    );
    vstd::arithmetic::div_mod::lemma_div_multiples_vanish(n as int, ONE_TERA_GAS as int);
}

/// Whole gigagas come back unchanged through the count, wherever the count
/// fits in 64 bits.
pub proof fn lemma_ggas_round_trip(n: u64)
    requires
        n * ONE_GIGA_GAS <= u64::MAX,
    ensures
        ((n as int * ONE_GIGA_GAS as int) % 0x1_0000_0000_0000_0000) / (ONE_GIGA_GAS as int) == n,
{
    vstd::arithmetic::div_mod::lemma_small_mod(
        (n * ONE_GIGA_GAS) as nat,
        0x1_0000_0000_0000_0000,
    );
    vstd::arithmetic::div_mod::lemma_div_multiples_vanish(n as int, ONE_GIGA_GAS as int);
}

} // verus!
