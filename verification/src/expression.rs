//! LED face bitmaps: a 7-row by 15-column grid of on/off pixels, one `u16`
//! per row (bit 15 reserved), and the selector for the device's display modes.

use vstd::prelude::*;

verus! {

/// Selector among the device's display modes.
#[derive(Clone, Copy, Debug, PartialEq, Eq, Structural)]
pub enum ExpressionIndex {
    Default,
    Blink,
    Friend,
    FriendBlink,
}

/// A 7x15 LED face bitmap, one bit per pixel. Equality is exact bit
/// comparison.
#[derive(Clone, Copy, Debug)]
pub struct Expression {
    pub pixels: [u16; 7],
}

impl PartialEq for Expression {
    fn eq(&self, other: &Expression) -> (r: bool) {
        let mut i: usize = 0;
        while i < 7
            invariant
                i <= 7,
                forall|k: int| 0 <= k < i ==> self.pixels[k] == other.pixels[k],
            decreases 7 - i,
        {
            if self.pixels[i] != other.pixels[i] {
                return false;
            }
            i = i + 1;
        }
        proof {
            assert(self.pixels@ =~= other.pixels@);
        }
        true
    }
}

impl Eq for Expression {
}

impl vstd::std_specs::cmp::PartialEqSpecImpl for Expression {
    open spec fn obeys_eq_spec() -> bool {
        true
    }

    open spec fn eq_spec(&self, other: &Expression) -> bool {
        self.pixels@ == other.pixels@
    }
}

proof fn lemma_or_bit(p: u16, x: u32, i: u32)
    by (bit_vector)
    requires
        x < 15,
        i < 15,
    ensures
        i == x ==> ((p | (1u16 << x)) >> i) & 1 == 1u16,
        i != x ==> ((p | (1u16 << x)) >> i) & 1 == (p >> i) & 1,
{
}

proof fn lemma_and_not_bit(p: u16, x: u32, i: u32)
    by (bit_vector)
    requires
        x < 15,
        i < 15,
    ensures
        i == x ==> ((p & !(1u16 << x)) >> i) & 1 == 0u16,
        i != x ==> ((p & !(1u16 << x)) >> i) & 1 == (p >> i) & 1,
{
}

proof fn lemma_test_bit(p: u16, x: u32)
    by (bit_vector)
    requires
        x < 15,
    ensures
        ((p & (1u16 << x)) != 0) == (((p >> x) & 1) == 1),
{
}

impl Expression {
    /// Whether the pixel at column `x`, row `y` is lit; pixels outside the
    /// grid read as unlit.
    pub open spec fn spec_pixel(self, x: u32, y: u32) -> bool {
        x < 15 && y < 7 && (self.pixels[y as int] >> x) & 1 == 1
    }

    /// The all-dark bitmap.
    pub fn new() -> (r: Self)
        ensures
            r.pixels@ =~= seq![0u16, 0u16, 0u16, 0u16, 0u16, 0u16, 0u16],
    {
        Expression { pixels: [0u16; 7] }
    }

    /// Turns the pixel at column `x`, row `y` on or off; coordinates outside
    /// the grid leave the bitmap unchanged.
    pub fn set_pixel(&mut self, x: u32, y: u32, state: bool)
        ensures
            forall|i: u32, j: u32|
                final(self).spec_pixel(i, j) == if i == x && j == y {
                    state && x < 15 && y < 7
                } else {
                    old(self).spec_pixel(i, j)
                },
    {
        if x < 15 && y < 7 {
            if state {
                self.pixels[y as usize] = self.pixels[y as usize] | (1u16 << x);
            } else {
                self.pixels[y as usize] = self.pixels[y as usize] & !(1u16 << x);
            }
            proof {
                assert forall|i: u32, j: u32|
                    self.spec_pixel(i, j) == if i == x && j == y {
                        state && x < 15 && y < 7
                    } else {
                        old(self).spec_pixel(i, j)
                    } by {
                    if j == y && i < 15 {
                        if state {
                            lemma_or_bit(old(self).pixels[y as int], x, i);
                        } else {
                            lemma_and_not_bit(old(self).pixels[y as int], x, i);
                        }
                    }
                }
            }
        }
    }

    /// Reads the pixel at column `x`, row `y`; coordinates outside the grid
    /// read as unlit.
    pub fn get_pixel(&self, x: u32, y: u32) -> (r: bool)
        ensures
            r == self.spec_pixel(x, y),
    {
        if x < 15 && y < 7 {
            proof {
                lemma_test_bit(self.pixels[y as int], x);
            }
            (self.pixels[y as usize] & (1u16 << x)) != 0
        } else {
            false
        }
    }
}

/// A request to replace the bitmap of one display mode.
#[derive(Clone, Copy, Debug)]
pub struct SetExpression {
    pub index: ExpressionIndex,
    pub expression: Expression,
}

} // verus!
