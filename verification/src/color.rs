//! Colors of four 8-bit channels packed into 32 bits.

use vstd::prelude::*;
use vstd::string::StringExecFns;

verus! {

/// A red, green, blue, and alpha color value stored in 32-bits, red in the
/// highest byte and alpha in the lowest.
#[derive(Clone, Copy, Eq, PartialEq, Hash, Structural)]
pub struct Color(pub u32);

/// The red channel of the packed color `v`.
pub open spec fn channel_red(v: u32) -> u8 {
    (v >> 24u32) as u8
}

/// The green channel of the packed color `v`.
pub open spec fn channel_green(v: u32) -> u8 {
    (v >> 16u32) as u8
}

/// The blue channel of the packed color `v`.
pub open spec fn channel_blue(v: u32) -> u8 {
    (v >> 8u32) as u8
}

/// The alpha channel of the packed color `v`.
pub open spec fn channel_alpha(v: u32) -> u8 {
    v as u8
}

/// The lowercase hexadecimal digit for `n`, which is below 16.
pub open spec fn hex_char(n: u32) -> char {
    if n < 10 {
        ('0' as u32 + n) as char
    } else {
        ('a' as u32 + (n - 10)) as char
    }
}

/// The packed color `v` written as `#` and eight lowercase hexadecimal
/// digits, most significant first.
pub open spec fn hex_text(v: u32) -> Seq<char> {
    seq!['#'] + Seq::new(8, |i: int| hex_char((v >> ((28 - 4 * i) as u32)) & 0xfu32))
}

/// The one-character text of the hexadecimal digit `n`.
fn hex_digit(n: u32) -> (r: &'static str)
    requires
        n < 16,
    ensures
        r@ == seq![hex_char(n)],
{
    proof {
        reveal_strlit("0");
        reveal_strlit("1");
        reveal_strlit("2");
        reveal_strlit("3");
        reveal_strlit("4");
        reveal_strlit("5");
        reveal_strlit("6");
        reveal_strlit("7");
        reveal_strlit("8");
        reveal_strlit("9");
        reveal_strlit("a");
        reveal_strlit("b");
        reveal_strlit("c");
        reveal_strlit("d");
        reveal_strlit("e");
        reveal_strlit("f");
    }
    let r = match n {
        0 => "0",
        1 => "1",
        2 => "2",
        3 => "3",
        4 => "4",
        5 => "5",
        6 => "6",
        7 => "7",
        8 => "8",
        9 => "9",
        10 => "a",
        11 => "b",
        12 => "c",
        13 => "d",
        14 => "e",
        _ => "f",
    };
    assert(r@ =~= seq![hex_char(n)]);
    r
}

impl Color {
    /// Returns a new color with the provided components.
    pub fn new(red: u8, green: u8, blue: u8, alpha: u8) -> (r: Self)
        ensures
            r.0 == ((red as u32) << 24u32) | ((green as u32) << 16u32) | ((blue as u32) << 8u32) | (alpha as u32),
            channel_red(r.0) == red,
            channel_green(r.0) == green,
            channel_blue(r.0) == blue,
            channel_alpha(r.0) == alpha,
    {
        let v = ((red as u32) << 24u32) | ((green as u32) << 16u32) | ((blue as u32) << 8u32) | (alpha as u32);
        assert(channel_red(v) == red && channel_green(v) == green && channel_blue(v) == blue
            && channel_alpha(v) == alpha) by (bit_vector)
            requires
                v == ((red as u32) << 24u32) | ((green as u32) << 16u32) | ((blue as u32) << 8u32) | (
                alpha as u32),
        ;
        Color(v)
    }

    /// The red component of this color, range 0-255.
    pub fn red(self) -> (r: u8)
        ensures
            r == channel_red(self.0),
    {
        (self.0 >> 24u32) as u8
    }

    /// The green component of this color, range 0-255.
    pub fn green(self) -> (r: u8)
        ensures
            r == channel_green(self.0),
    {
        (self.0 >> 16u32) as u8
    }

    /// The blue component of this color, range 0-255.
    pub fn blue(self) -> (r: u8)
        ensures
            r == channel_blue(self.0),
    {
        (self.0 >> 8u32) as u8
    }

    /// The alpha component of this color, range 0-255. A value of 255 is
    /// completely opaque.
    pub fn alpha(self) -> (r: u8)
        ensures
            r == channel_alpha(self.0),
    {
        self.0 as u8
    }

    /// Returns a new color replacing this color's red channel with `red`.
    pub fn with_red(self, red: u8) -> (r: Self)
        ensures
            channel_red(r.0) == red,
            channel_green(r.0) == channel_green(self.0),
            channel_blue(r.0) == channel_blue(self.0),
            channel_alpha(r.0) == channel_alpha(self.0),
    {
        let v = self.0 & 0x00FF_FFFFu32 | ((red as u32) << 24u32);
        let old = self.0;
        assert(channel_red(v) == red && channel_green(v) == channel_green(old) && channel_blue(v)
            == channel_blue(old) && channel_alpha(v) == channel_alpha(old)) by (bit_vector)
            requires
                v == old & 0x00FF_FFFFu32 | ((red as u32) << 24u32),
        ;
        Color(v)
    }

    /// Returns a new color replacing this color's green channel with `green`.
    pub fn with_green(self, green: u8) -> (r: Self)
        ensures
            channel_red(r.0) == channel_red(self.0),
            channel_green(r.0) == green,
            channel_blue(r.0) == channel_blue(self.0),
            channel_alpha(r.0) == channel_alpha(self.0),
    {
        let v = self.0 & 0xFF00_FFFFu32 | ((green as u32) << 16u32);
        let old = self.0;
        assert(channel_red(v) == channel_red(old) && channel_green(v) == green && channel_blue(v)
            == channel_blue(old) && channel_alpha(v) == channel_alpha(old)) by (bit_vector)
            requires
                v == old & 0xFF00_FFFFu32 | ((green as u32) << 16u32),
        ;
        Color(v)
    }

    /// Returns a new color replacing this color's blue channel with `blue`.
    pub fn with_blue(self, blue: u8) -> (r: Self)
        ensures
            channel_red(r.0) == channel_red(self.0),
            channel_green(r.0) == channel_green(self.0),
            channel_blue(r.0) == blue,
            channel_alpha(r.0) == channel_alpha(self.0),
    {
        let v = self.0 & 0xFFFF_00FFu32 | ((blue as u32) << 8u32);
        let old = self.0;
        assert(channel_red(v) == channel_red(old) && channel_green(v) == channel_green(old)
            && channel_blue(v) == blue && channel_alpha(v) == channel_alpha(old)) by (bit_vector)
            requires
                v == old & 0xFFFF_00FFu32 | ((blue as u32) << 8u32),
        ;
        Color(v)
    }

    /// Returns a new color replacing this color's alpha channel with `alpha`.
    pub fn with_alpha(self, alpha: u8) -> (r: Self)
        ensures
            channel_red(r.0) == channel_red(self.0),
            channel_green(r.0) == channel_green(self.0),
            channel_blue(r.0) == channel_blue(self.0),
            channel_alpha(r.0) == alpha,
    {
        let v = self.0 & 0xFFFF_FF00u32 | (alpha as u32);
        let old = self.0;
        assert(channel_red(v) == channel_red(old) && channel_green(v) == channel_green(old)
            && channel_blue(v) == channel_blue(old) && channel_alpha(v) == alpha) by (bit_vector)
            requires
                v == old & 0xFFFF_FF00u32 | (alpha as u32),
        ;
        Color(v)
    }

    /// The color written as `#` and its eight lowercase hexadecimal digits,
    /// red first: the form in which colors are printed for debugging.
    pub fn debug_string(&self) -> (r: String)
        ensures
            r@ == hex_text(self.0),
    {
        proof {
            reveal_strlit("#");
        }
        let mut text = String::from_str("#");
        let mut i: u32 = 0;
        while i < 8
            invariant
                i <= 8,
                text@ == seq!['#'] + Seq::new(i as nat, |k: int| hex_char((self.0 >> ((28 - 4 * k) as u32)) & 0xfu32)),
            decreases 8 - i,
        {
            let shift = 28 - 4 * i;
            let packed = self.0;
            let nibble = (packed >> shift) & 0xfu32;
            assert(nibble < 16) by (bit_vector)
                requires
                    nibble == (packed >> shift) & 0xfu32,
            ;
            let digit = hex_digit(nibble);
            let ghost before = text@;
            text.append(digit);
            assert(text@ =~= seq!['#'] + Seq::new((i + 1) as nat, |k: int| hex_char((self.0 >> ((28 - 4 * k) as u32)) & 0xfu32)));
            i = i + 1;
        }
        assert(text@ =~= hex_text(self.0));
        text
    }
}

} // verus!
