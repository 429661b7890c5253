use vstd::prelude::*;

verus! {

/// The quantities that the six-sector HSV to RGB decomposition chooses among,
/// for a colour of value `v`, saturation `s` and hue fraction `f` in its sector.
#[derive(Debug, Clone, Copy, PartialEq, Eq, Structural)]
pub enum Channel {
    /// `v`
    Value,
    /// `p = v * (1 - s)`
    Floor,
    /// `q = v * (1 - f * s)`, which falls across the sector
    Falling,
    /// `t = v * (1 - (1 - f) * s)`, which rises across the sector
    Rising,
    /// Nothing: the channel is dark.
    Zero,
}

/// The sector of a scaled hue `i6 = floor(6 * h)`, as the remainder of `i6`
/// by 6 rounded toward zero; a negative remainder has no sector.
pub open spec fn sector_of(i6: int) -> Option<int> {
    if i6 >= 0 {
        Some(i6 % 6)
    } else if (-i6) % 6 == 0 {
        Some(0)
    } else {
        None
    }
}

/// Which quantity feeds red, green and blue in each sector.
pub open spec fn sector_table(sector: Option<int>) -> (Channel, Channel, Channel) {
    if sector == Some(0int) {
        (Channel::Value, Channel::Rising, Channel::Floor)
    } else if sector == Some(1int) {
        (Channel::Falling, Channel::Value, Channel::Floor)
    } else if sector == Some(2int) {
        (Channel::Floor, Channel::Value, Channel::Rising)
    } else if sector == Some(3int) {
        (Channel::Floor, Channel::Falling, Channel::Value)
    } else if sector == Some(4int) {
        (Channel::Rising, Channel::Floor, Channel::Value)
    } else if sector == Some(5int) {
        (Channel::Value, Channel::Floor, Channel::Falling)
    } else {
        (Channel::Zero, Channel::Zero, Channel::Zero)
    }
}

/// Chooses, for the scaled hue `i6`, the quantity that each of red, green
/// and blue takes.
pub fn sector_channels(i6: i32) -> (r: (Channel, Channel, Channel))
    ensures
        r == sector_table(sector_of(i6 as int)),
{
    let magnitude: u32 = if i6 < 0 {
        (-(i6 as i64)) as u32
    } else {
        i6 as u32
    };
    let rem = magnitude % 6;
    if i6 < 0 && rem != 0 {
        return (Channel::Zero, Channel::Zero, Channel::Zero);
    }
    match rem {
        0 => (Channel::Value, Channel::Rising, Channel::Floor),
        1 => (Channel::Falling, Channel::Value, Channel::Floor),
        2 => (Channel::Floor, Channel::Value, Channel::Rising),
        3 => (Channel::Floor, Channel::Falling, Channel::Value),
        4 => (Channel::Rising, Channel::Floor, Channel::Value),
        _ => (Channel::Value, Channel::Floor, Channel::Falling),
    }
}

/// The integer part of converting an RGB pixel to HSV: its brightest and
/// darkest channel, and the hue as `60 * (base + numerator / (max - min))`
/// degrees.
#[derive(Debug, Clone, Copy, PartialEq, Eq, Structural)]
pub struct Chroma {
    pub max: u8,
    pub min: u8,
    pub base: i16,
    pub numerator: i16,
}

pub open spec fn max3(r: int, g: int, b: int) -> int {
    if r >= g && r >= b {
        r
    } else if g >= b {
        g
    } else {
        b
    }
}

pub open spec fn min3(r: int, g: int, b: int) -> int {
    if r <= g && r <= b {
        r
    } else if g <= b {
        g
    } else {
        b
    }
}

/// Finds the extremes of a pixel and the hue sector of its brightest channel:
/// red counts from 0, green from 2 and blue from 4; where two channels tie
/// for brightest, red wins over green and green over blue.
pub fn chroma(r: u8, g: u8, b: u8) -> (c: Chroma)
    ensures
        c.max == max3(r as int, g as int, b as int),
        c.min == min3(r as int, g as int, b as int),
        c.max > r && c.max > g ==> c.base == 4 && c.numerator == r - g,
        c.max > r && c.max <= g ==> c.base == 2 && c.numerator == b - r,
        c.max <= r ==> c.base == 0 && c.numerator == g - b,
{
    let mut min = if r < g {
        r
    } else {
        g
    };
    min = if min < b {
        min
    } else {
        b
    };
    let mut max = if r > g {
        r
    } else {
        g
    };
    max = if max > b {
        max
    } else {
        b
    };
    let (base, numerator) = if max > r {
        if max > g {
            (4i16, r as i16 - g as i16)
        } else {
            (2i16, b as i16 - r as i16)
        }
    } else {
        (0i16, g as i16 - b as i16)
    };
    Chroma { max, min, base, numerator }
}

} // verus!
