use vstd::prelude::*;
use vstd::string::StringExecFns;
use vstd::arithmetic::div_mod::lemma_fundamental_div_mod;
use crate::occurrences::percent_free;

verus! {

/// An RGBA color with four 8-bit channels. Its text form is `#aarrggbb`:
/// a `#` followed by the alpha, red, green and blue channels, each as two
/// lowercase hexadecimal digits.
#[derive(PartialEq, Eq, Structural, Clone, Copy)]
pub struct Color(u8, u8, u8, u8);

/// The lowercase hexadecimal digit for a value between 0 and 15.
pub open spec fn hex_digit(n: int) -> char {
    if n == 0 {
        '0'
    } else if n == 1 {
        '1'
    } else if n == 2 {
        '2'
    } else if n == 3 {
        '3'
    } else if n == 4 {
        '4'
    } else if n == 5 {
        '5'
    } else if n == 6 {
        '6'
    } else if n == 7 {
        '7'
    } else if n == 8 {
        '8'
    } else if n == 9 {
        '9'
    } else if n == 10 {
        'a'
    } else if n == 11 {
        'b'
    } else if n == 12 {
        'c'
    } else if n == 13 {
        'd'
    } else if n == 14 {
        'e'
    } else {
        'f'
    }
}

/// Whether a character is a lowercase hexadecimal digit.
pub open spec fn is_hex_digit(c: char) -> bool {
    ('0' <= c && c <= '9') || ('a' <= c && c <= 'f')
}

/// The numeric value of a lowercase hexadecimal digit.
pub open spec fn hex_val(c: char) -> int {
    if c == '0' {
        0
    } else if c == '1' {
        1
    } else if c == '2' {
        2
    } else if c == '3' {
        3
    } else if c == '4' {
        4
    } else if c == '5' {
        5
    } else if c == '6' {
        6
    } else if c == '7' {
        7
    } else if c == '8' {
        8
    } else if c == '9' {
        9
    } else if c == 'a' {
        10
    } else if c == 'b' {
        11
    } else if c == 'c' {
        12
    } else if c == 'd' {
        13
    } else if c == 'e' {
        14
    } else {
        15
    }
}

/// One byte as two lowercase hexadecimal digits, zero-padded.
pub open spec fn hex_byte_text(b: u8) -> Seq<char> {
    seq![hex_digit(b as int / 16), hex_digit(b as int % 16)]
}

/// The text form of a color: `#` then alpha, red, green, blue, two hex
/// digits each.
pub open spec fn color_text(c: Color) -> Seq<char> {
    seq!['#'] + hex_byte_text(c.alpha()) + hex_byte_text(c.red()) + hex_byte_text(c.green())
        + hex_byte_text(c.blue())
}

impl Color {
    /// The red channel.
    pub closed spec fn red(self) -> u8 {
        self.0
    }

    /// The green channel.
    pub closed spec fn green(self) -> u8 {
        self.1
    }

    /// The blue channel.
    pub closed spec fn blue(self) -> u8 {
        self.2
    }

    /// The alpha channel; 255 is fully opaque.
    pub closed spec fn alpha(self) -> u8 {
        self.3
    }

    /// Create a color with RGB and alpha channels specified.
    pub fn rgba(red: u8, green: u8, blue: u8, alpha: u8) -> (c: Color)
        ensures
            c.red() == red,
            c.green() == green,
            c.blue() == blue,
            c.alpha() == alpha,
    {
        Color(red, green, blue, alpha)
    }

    /// Create a 100% opaque color with RGB channels only.
    pub fn rgb(red: u8, green: u8, blue: u8) -> (c: Color)
        ensures
            c.red() == red,
            c.green() == green,
            c.blue() == blue,
            c.alpha() == 255,
    {
        Color::rgba(red, green, blue, 255)
    }

    /// Serialize the color to its `#aarrggbb` escape-token value.
    pub fn to_text(&self) -> (r: String)
        ensures
            r@ == color_text(*self),
    {
        let mut s = String::new();
        s.append("#");
        proof {
            reveal_strlit("#");
            assert(s@ =~= seq!['#']);
        }
        append_hex_byte(&mut s, self.3);
        append_hex_byte(&mut s, self.0);
        append_hex_byte(&mut s, self.1);
        append_hex_byte(&mut s, self.2);
        proof {
            assert(s@ =~= color_text(*self));
        }
        s
    }
}

/// The lowercase hexadecimal digit for a value below 16, as text.
fn hex_digit_str(n: u8) -> (r: &'static str)
    requires
        n < 16,
    ensures
        r@ == seq![hex_digit(n as int)],
{
    proof {
        reveal_strlit("0");
        reveal_strlit("1");
        reveal_strlit("2");
        reveal_strlit("3");
        reveal_strlit("4");
        reveal_strlit("5");
        reveal_strlit("6");
        reveal_strlit("7");
        reveal_strlit("8");
        reveal_strlit("9");
        reveal_strlit("a");
        reveal_strlit("b");
        reveal_strlit("c");
        reveal_strlit("d");
        reveal_strlit("e");
        reveal_strlit("f");
    }
    let r: &'static str = if n == 0 {
        "0"
    } else if n == 1 {
        "1"
    } else if n == 2 {
        "2"
    } else if n == 3 {
        "3"
    } else if n == 4 {
        "4"
    } else if n == 5 {
        "5"
    } else if n == 6 {
        "6"
    } else if n == 7 {
        "7"
    } else if n == 8 {
        "8"
    } else if n == 9 {
        "9"
    } else if n == 10 {
        "a"
    } else if n == 11 {
        "b"
    } else if n == 12 {
        "c"
    } else if n == 13 {
        "d"
    } else if n == 14 {
        "e"
    } else {
        "f"
    };
    proof {
        assert(r@ =~= seq![hex_digit(n as int)]);
    }
    r
}

/// Append one byte to the buffer as two lowercase hex digits.
fn append_hex_byte(s: &mut String, b: u8)
    ensures
        final(s)@ == old(s)@ + hex_byte_text(b),
{
    let hi: u8 = b / 16;
    let lo: u8 = b % 16;
    s.append(hex_digit_str(hi));
    s.append(hex_digit_str(lo));
    proof {
        assert(s@ =~= old(s)@ + hex_byte_text(b));
    }
}

/// Law: a fully opaque color (alpha 255) always renders its alpha channel
/// as `ff`; in particular every color built by `rgb` begins `#ff`.
pub proof fn lemma_opaque_alpha_channel(c: Color)
    requires
        c.alpha() == 255,
    ensures
        color_text(c).subrange(1, 3) == seq!['f', 'f'],
{
    assert(hex_byte_text(255u8) =~= seq!['f', 'f']);
    assert(color_text(c).subrange(1, 3) =~= seq!['f', 'f']);
}

/// The two hex digits of one byte decode back to that byte.
proof fn lemma_hex_byte_decodes(b: u8)
    ensures
        hex_byte_text(b).len() == 2,
        is_hex_digit(hex_byte_text(b)[0]),
        is_hex_digit(hex_byte_text(b)[1]),
        hex_val(hex_byte_text(b)[0]) * 16 + hex_val(hex_byte_text(b)[1]) == b as int,
{
    lemma_fundamental_div_mod(b as int, 16);
}

/// Law: a color's text is `#` followed by eight lowercase hexadecimal
/// digits, and those digits decode back to the alpha, red, green and blue
/// channels, in that order.
pub proof fn lemma_color_text_decodes(c: Color)
    ensures
        color_text(c).len() == 9,
        color_text(c)[0] == '#',
        forall|i: int| 1 <= i < 9 ==> is_hex_digit(#[trigger] color_text(c)[i]),
        hex_val(color_text(c)[1]) * 16 + hex_val(color_text(c)[2]) == c.alpha() as int,
        hex_val(color_text(c)[3]) * 16 + hex_val(color_text(c)[4]) == c.red() as int,
        hex_val(color_text(c)[5]) * 16 + hex_val(color_text(c)[6]) == c.green() as int,
        hex_val(color_text(c)[7]) * 16 + hex_val(color_text(c)[8]) == c.blue() as int,
{
    lemma_hex_byte_decodes(c.alpha());
    lemma_hex_byte_decodes(c.red());
    lemma_hex_byte_decodes(c.green());
    lemma_hex_byte_decodes(c.blue());
    assert(color_text(c)[1] == hex_byte_text(c.alpha())[0]);
    assert(color_text(c)[2] == hex_byte_text(c.alpha())[1]);
    assert(color_text(c)[3] == hex_byte_text(c.red())[0]);
    assert(color_text(c)[4] == hex_byte_text(c.red())[1]);
    assert(color_text(c)[5] == hex_byte_text(c.green())[0]);
    assert(color_text(c)[6] == hex_byte_text(c.green())[1]);
    assert(color_text(c)[7] == hex_byte_text(c.blue())[0]);
    assert(color_text(c)[8] == hex_byte_text(c.blue())[1]);
}

/// A color's text never holds the escape character `%`: it is `#` and hex
/// digits throughout.
pub proof fn lemma_color_text_percent_free(c: Color)
    ensures
        percent_free(color_text(c)),
{
    assert(forall|n: int| hex_digit(n) != '%');
    assert forall|i: int| 0 <= i < color_text(c).len() implies color_text(c)[i] != '%' by {
        lemma_color_text_decodes(c);
        if 1 <= i < 9 {
            assert(is_hex_digit(color_text(c)[i]));
        }
    }
}

} // verus!
