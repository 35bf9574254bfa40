//! Framebuffer for the eight-armed petal LED matrix behind an AS1115
//! driver: one byte per arm, bits 0 through 6 one pixel each along the arm,
//! and bit 7 of the first three arms feeding the red, green and blue
//! status channels. The electrical write of the bytes is a bus transaction
//! outside this core.

use vstd::prelude::*;

verus! {

/// Whether bit `i` of `b` is set.
pub open spec fn spec_bit(b: u8, i: u8) -> bool {
    (b >> i) & 1 == 1
}

proof fn lemma_or_bit_u8(b: u8, x: u8, i: u8)
    by (bit_vector)
    requires
        x < 8,
        i < 8,
    ensures
        i == x ==> ((b | (1u8 << x)) >> i) & 1 == 1u8,
        i != x ==> ((b | (1u8 << x)) >> i) & 1 == (b >> i) & 1,
{
}

proof fn lemma_and_not_bit_u8(b: u8, x: u8, i: u8)
    by (bit_vector)
    requires
        x < 8,
        i < 8,
    ensures
        i == x ==> ((b & !(1u8 << x)) >> i) & 1 == 0u8,
        i != x ==> ((b & !(1u8 << x)) >> i) & 1 == (b >> i) & 1,
{
}

/// The pixel along an arm that the spinner shows: the wheel position's top
/// three bits when the wheel is touched, the animation's own cycle
/// position otherwise.
pub fn petal_pixel(wheel_val: u8, cycle: u8) -> (r: u8)
    ensures
        r == if wheel_val > 0 {
            wheel_val >> 5
        } else {
            cycle
        },
        cycle <= 6 ==> r <= 7,
{
    proof {
        assert(wheel_val >> 5 <= 7) by (bit_vector);
    }
    if wheel_val > 0 {
        wheel_val >> 5
    } else {
        cycle
    }
}

/// The framebuffer: eight arm bytes, synced to the chip in one bus
/// transaction elsewhere.
pub struct As1115 {
    data: [u8; 8],
}

impl View for As1115 {
    type V = Seq<u8>;

    closed spec fn view(&self) -> Seq<u8> {
        self.data@
    }
}

impl As1115 {
    /// An all-dark framebuffer.
    pub fn new() -> (r: Self)
        ensures
            r@ =~= seq![0u8, 0u8, 0u8, 0u8, 0u8, 0u8, 0u8, 0u8],
    {
        As1115 { data: [0u8; 8] }
    }

    /// The eight arm bytes, in register order, for the bus transaction
    /// that syncs the chip.
    pub fn bytes(&self) -> (r: Vec<u8>)
        ensures
            r@ == self@,
    {
        let mut out: Vec<u8> = Vec::new();
        let mut i: usize = 0;
        while i < 8
            invariant
                i <= 8,
                self@.len() == 8,
                out@ =~= self@.take(i as int),
            decreases 8 - i,
        {
            out.push(self.data[i]);
            proof {
                assert(out@ =~= self@.take(i + 1 as int));
            }
            i = i + 1;
        }
        proof {
            assert(self@.take(8int) =~= self@);
        }
        out
    }

    /// Darkens every pixel and status channel.
    pub fn clear(&mut self)
        ensures
            final(self)@ =~= seq![0u8, 0u8, 0u8, 0u8, 0u8, 0u8, 0u8, 0u8],
    {
        let mut i: usize = 0;
        while i < 8
            invariant
                i <= 8,
                self@.len() == 8,
                forall|k: int| 0 <= k < i ==> self@[k] == 0,
            decreases 8 - i,
        {
            self.data[i] = 0;
            i = i + 1;
        }
    }

    /// Turns one pixel of one arm on or off; an arm or pixel outside the
    /// matrix leaves the framebuffer unchanged.
    pub fn set_arm(&mut self, arm: usize, pixel: u8, value: bool)
        ensures
            final(self)@.len() == 8,
            arm > 7 || pixel > 6 ==> final(self)@ == old(self)@,
            forall|k: int| 0 <= k < 8 && k != arm ==> final(self)@[k] == old(self)@[k],
            arm <= 7 && pixel <= 6 ==> forall|p: u8|
                p < 8 ==> #[trigger] spec_bit(final(self)@[arm as int], p) == if p == pixel {
                    value
                } else {
                    spec_bit(old(self)@[arm as int], p)
                },
    {
        if arm > 7 {
            return;
        }
        if pixel > 6 {
            return;
        }
        if value {
            self.data[arm] = self.data[arm] | (1u8 << pixel);
        } else {
            self.data[arm] = self.data[arm] & !(1u8 << pixel);
        }
        proof {
            assert forall|p: u8| p < 8 implies #[trigger] spec_bit(self@[arm as int], p) == if p
                == pixel {
                value
            } else {
                spec_bit(old(self)@[arm as int], p)
            } by {
                if value {
                    lemma_or_bit_u8(old(self)@[arm as int], pixel, p);
                } else {
                    lemma_and_not_bit_u8(old(self)@[arm as int], pixel, p);
                }
            }
        }
    }

    /// Drives the red, green and blue status channels, which live in bit 7
    /// of the first three arm bytes; every pixel bit stays as it was.
    pub fn set_rgb(&mut self, red: bool, green: bool, blue: bool)
        ensures
            final(self)@.len() == 8,
            forall|k: int| 3 <= k < 8 ==> final(self)@[k] == old(self)@[k],
            spec_bit(final(self)@[0], 7) == red,
            spec_bit(final(self)@[1], 7) == green,
            spec_bit(final(self)@[2], 7) == blue,
            forall|k: int, p: u8|
                0 <= k < 3 && p < 7 ==> #[trigger] spec_bit(final(self)@[k], p) == spec_bit(
                    old(self)@[k],
                    p,
                ),
    {
        let channels: [bool; 3] = [red, green, blue];
        let mut i: usize = 0;
        while i < 3
            invariant
                i <= 3,
                self@.len() == 8,
                channels@ =~= seq![red, green, blue],
                forall|k: int| i <= k < 8 ==> self@[k] == old(self)@[k],
                forall|k: int| 0 <= k < i ==> #[trigger] spec_bit(self@[k], 7) == channels@[k],
                forall|k: int, p: u8|
                    0 <= k < i && p < 7 ==> #[trigger] spec_bit(self@[k], p) == spec_bit(
                        old(self)@[k],
                        p,
                    ),
            decreases 3 - i,
        {
            if channels[i] {
                self.data[i] = self.data[i] | (1u8 << 7);
            } else {
                self.data[i] = self.data[i] & !(1u8 << 7);
            }
            proof {
                assert forall|p: u8| p < 8 implies #[trigger] spec_bit(self@[i as int], p) == if p
                    == 7 {
                    channels@[i as int]
                } else {
                    spec_bit(old(self)@[i as int], p)
                } by {
                    if channels@[i as int] {
                        lemma_or_bit_u8(old(self)@[i as int], 7, p);
                    } else {
                        lemma_and_not_bit_u8(old(self)@[i as int], 7, p);
                    }
                }
            }
            i = i + 1;
        }
    }
}

} // verus!
