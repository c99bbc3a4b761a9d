//! Node colors: an ordered palette, indexed by depth and clamped to its last
//! entry, written as `#rrggbb`.
use vstd::prelude::*;

verus! {

/// A color as three bytes.
#[derive(Clone, Copy, Debug, PartialEq, Eq)]
pub struct Rgb {
    pub red: u8,
    pub green: u8,
    pub blue: u8,
}

/// The palette entry for depth `level`: the entry at that depth, or the last
/// one for any deeper level.
pub open spec fn color_index_spec(level: int, palette_len: int) -> int {
    if level < palette_len - 1 {
        level
    } else {
        palette_len - 1
    }
}

/// The palette index of depth `level` in a palette of `palette_len` colors.
pub fn color_index(level: usize, palette_len: usize) -> (r: usize)
    requires
        palette_len >= 1,
    ensures
        r == color_index_spec(level as int, palette_len as int),
        r < palette_len,
{
    if level < palette_len - 1 {
        level
    } else {
        palette_len - 1
    }
}

/// The hexadecimal digit of `d`, lower case.
pub open spec fn hex_digit(d: int) -> char {
    "0123456789abcdef"@[d]
}

/// `#rrggbb`.
pub open spec fn hex_color(c: Rgb) -> Seq<char> {
    seq!['#', hex_digit(c.red as int / 16), hex_digit(c.red as int % 16), hex_digit(c.green as int / 16), hex_digit(c.green as int % 16),
        hex_digit(c.blue as int / 16), hex_digit(c.blue as int % 16)]
}

fn push_hex_digit(out: &mut String, d: u8)
    requires
        d < 16,
    ensures
        final(out)@ == old(out)@.push(hex_digit(d as int)),
{
    let digits = "0123456789abcdef";
    proof {
        reveal_strlit("0123456789abcdef");
    }
    let one = digits.substring_char(d as usize, d as usize + 1);
    out.append(one);
    proof {
        assert(one@ =~= seq![hex_digit(d as int)]);
    }
}

/// Appends `#rrggbb` for `c` to `out`.
pub fn push_hex_color(out: &mut String, c: Rgb)
    ensures
        final(out)@ == old(out)@ + hex_color(c),
{
    let ghost start = out@;
    out.append("#");
    proof {
        reveal_strlit("#");
    }
    push_hex_digit(out, c.red / 16);
    push_hex_digit(out, c.red % 16);
    push_hex_digit(out, c.green / 16);
    push_hex_digit(out, c.green % 16);
    push_hex_digit(out, c.blue / 16);
    push_hex_digit(out, c.blue % 16);
    assert(out@ =~= start + hex_color(c));
}

} // verus!
