//! A sixteen-bit flag register with bit tests and truncation.
use vstd::prelude::*;

verus! {

/// Sixteen flag bits held in one word.
#[derive(Copy, Clone, Debug)]
pub struct Flags16(pub u16);

/// The bit at `index` of `v`, as 0 or 1.
pub open spec fn bit_of(v: u16, index: u16) -> u16 {
    (v & (1u16 << index)) >> index
}

/// The bits that `truncate_bits(quantity)` clears, for `1 <= quantity <= 16`:
/// the `quantity - 1` bits that stand just below the top bit.
pub open spec fn truncation_mask(quantity: int) -> u16 {
    ((((1u16 << ((quantity - 1) as u16)) - 1) as u16) << ((16 - quantity) as u16)) as u16
}

/// What `truncate_bits(quantity)` leaves of `v`.
pub open spec fn truncated(v: u16, quantity: int) -> u16 {
    if quantity > 16 {
        0
    } else {
        v & !truncation_mask(quantity)
    }
}

impl Flags16 {
    pub fn from_u16(num: u16) -> (r: Flags16)
        ensures
            r.0 == num,
    {
        Flags16(num)
    }

    pub fn into_u16(&self) -> (r: u16)
        ensures
            r == self.0,
    {
        self.0
    }

    /// `Some(true)` when the bit at `index` is clear, `Some(false)` when it is
    /// set, and `None` for an index past the last bit.
    pub fn check_flag(&self, index: usize) -> (r: Option<bool>)
        ensures
            index > 15 ==> r is None,
            index <= 15 ==> r == Some(bit_of(self.0, index as u16) == 0),
    {
        if index > 15 {
            return None;
        }
        let b = self.getbit(index);
        if b == 0u16 {
            Some(true)
        } else {
            Some(false)
        }
    }

    /// The bit at `index`, as 0 or 1.
    pub fn getbit(&self, index: usize) -> (r: u16)
        requires
            index < 16,
        ensures
            r == bit_of(self.0, index as u16),
            r <= 1,
    {
        let i = index as u16;
        let v = self.0;
        let r = (v & (1u16 << i)) >> i;
        assert(((v & (1u16 << i)) >> i) <= 1) by (bit_vector)
            requires
                i < 16,
        ;
        r
    }

    /// Clears the `quantity - 1` bits just below the top bit; a quantity
    /// above 16 clears everything.
    pub fn truncate_bits(&self, quantity: isize) -> (r: Flags16)
        requires
            quantity >= 1,
        ensures
            r.0 == truncated(self.0, quantity as int),
    {
        if quantity - 1 > 15 {
            return Self::from_u16(0);
        }
        let k = (quantity - 1) as u16;
        assert((1u16 << k) >= 1) by (bit_vector)
            requires
                k < 16,
        ;
        let low: u16 = (1u16 << k) - 1;
        let mask: u16 = low << (15 - k);
        Self::from_u16(self.0 & !mask)
    }
}

impl PartialEq for Flags16 {
    fn eq(&self, other: &Flags16) -> (r: bool) {
        self.0 == other.0
    }
}

impl vstd::std_specs::cmp::PartialEqSpecImpl for Flags16 {
    open spec fn obeys_eq_spec() -> bool {
        true
    }

    open spec fn eq_spec(&self, other: &Flags16) -> bool {
        self.0 == other.0
    }
}

} // verus!
