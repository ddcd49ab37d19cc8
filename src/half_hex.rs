use vstd::prelude::*;

verus! {

/// The packed colour descriptor of one half-hex: the inside colour in bits 0-2,
/// the outline colour in bits 4-6; bits 3 and 7 are unused.
#[derive(Clone, Copy, Debug, PartialEq, Eq, Structural)]
pub struct HalfHexSpec {
    pub bits: u8,
}

/// Inside colour index held in `bits`.
pub open spec fn inside_of(bits: u8) -> int {
    bits as int % 8
}

/// Outline colour index held in `bits`.
pub open spec fn outline_of(bits: u8) -> int {
    (bits as int / 16) % 8
}

/// Two descriptors match when both colour fields agree; unused bits are ignored.
pub open spec fn colours_match(a: HalfHexSpec, b: HalfHexSpec) -> bool {
    inside_of(a.bits) == inside_of(b.bits) && outline_of(a.bits) == outline_of(b.bits)
}

impl HalfHexSpec {
    pub fn new(bits: u8) -> (r: HalfHexSpec)
        ensures
            r.bits == bits,
    {
        HalfHexSpec { bits }
    }

    /// Palette index of the inside colour.
    pub fn inside_colour(&self) -> (r: u8)
        ensures
            r as int == inside_of(self.bits),
            r < 8,
    {
        let b = self.bits;
        assert(b & 0b111 == b % 8) by (bit_vector);
        b & 0b111
    }

    /// Palette index of the outline colour.
    pub fn outline_colour(&self) -> (r: u8)
        ensures
            r as int == outline_of(self.bits),
            r < 8,
    {
        let b = self.bits;
        assert((b & 0b0111_0111) >> 4u8 == (b / 16) % 8) by (bit_vector);
        (b & 0b0111_0111) >> 4
    }

    /// Palette indices of the inside and outline colours, reserved bits masked.
    pub fn colour_indices(&self) -> (r: (u8, u8))
        ensures
            r.0 as int == inside_of(self.bits),
            r.1 as int == outline_of(self.bits),
    {
        (self.inside_colour(), self.outline_colour())
    }

    /// Whether both colour fields of `self` and `other` agree.
    pub fn matches(&self, other: &HalfHexSpec) -> (r: bool)
        ensures
            r == colours_match(*self, *other),
    {
        self.inside_colour() == other.inside_colour() && self.outline_colour()
            == other.outline_colour()
    }
}

/// Descriptors whose values differ by a multiple of 256 have the same colours;
/// in particular a descriptor has the colours of its value taken modulo 256.
pub proof fn lemma_colours_repeat(a: HalfHexSpec, i: nat)
    requires
        a.bits as nat == i % 256,
    ensures
        inside_of(a.bits) == i % 8,
        outline_of(a.bits) == (i / 16) % 8,
{
    assert((i % 256) % 8 == i % 8 && ((i % 256) / 16) % 8 == (i / 16) % 8) by (nonlinear_arith)
        requires
            i >= 0,
    {
        assert(i == 256 * (i / 256) + i % 256);
        let q = i / 256;
        let r = i % 256;
        assert(0 <= r < 256);
        assert((256 * q + r) % 8 == r % 8);
        assert((256 * q + r) / 16 == 16 * q + r / 16);
        assert((16 * q + r / 16) % 8 == (r / 16) % 8);
    }
}

} // verus!
