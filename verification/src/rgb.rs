//! The colour of one pixel.

use vstd::prelude::*;

verus! {

/// One of the three channels of a colour.
pub enum Channel {
    Red,
    Green,
    Blue,
}

/// A colour as three 8-bit channels. Two colours are equal when their channels are.
#[derive(Clone, Copy, Debug, PartialEq, Eq, Structural)]
pub struct RGB {
    pub r: u8,
    pub g: u8,
    pub b: u8,
}

impl RGB {
    /// The value of one channel, as a mathematical integer.
    pub open spec fn channel(self, ch: Channel) -> int {
        match ch {
            Channel::Red => self.r as int,
            Channel::Green => self.g as int,
            Channel::Blue => self.b as int,
        }
    }

    /// The colour with the given channels.
    pub fn new(r: u8, g: u8, b: u8) -> (c: Self)
        ensures
            c.r == r,
            c.g == g,
            c.b == b,
    {
        Self { r, g, b }
    }

    /// The grey whose three channels all hold `val`.
    pub fn splat(val: u8) -> (c: Self)
        ensures
            c.r == val,
            c.g == val,
            c.b == val,
    {
        Self::new(val, val, val)
    }
}

impl Default for RGB {
    /// Black: every channel is zero.
    fn default() -> (c: Self)
        ensures
            c.r == 0,
            c.g == 0,
            c.b == 0,
    {
        RGB { r: 0, g: 0, b: 0 }
    }
}

} // verus!
