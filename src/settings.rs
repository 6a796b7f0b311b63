use vstd::prelude::*;

verus! {

/// The 8-bit red, green, blue and alpha of the color a CSS color string
/// names, or none when the string names no color.
pub uninterp spec fn css_color_rgba(s: Seq<char>) -> Option<(u8, u8, u8, u8)>;

/// Relies on `csscolorparser::parse`, which reads any CSS color syntax, and
/// on `Color::to_rgba8`, which scales its channels to bytes.
#[verifier::external_body]
fn parse_css_color(s: &str) -> (r: Option<(u8, u8, u8, u8)>)
    ensures
        r == css_color_rgba(s@),
{
    match csscolorparser::parse(s) {
        Ok(c) => {
            let v = c.to_rgba8();
            Some((v[0], v[1], v[2], v[3]))
        },
        Err(_) => None,
    }
}

/// The lowercase hexadecimal digit of `d`, for `d < 16`.
pub open spec fn hex_digit(d: u8) -> char {
    if d < 10 {
        ('0' as u8 + d) as char
    } else {
        ('a' as u8 + d - 10) as char
    }
}

/// The color `#rrggbb` in lowercase hexadecimal.
pub open spec fn hex_color(r: u8, g: u8, b: u8) -> Seq<char> {
    seq![
        '#',
        hex_digit(r / 16),
        hex_digit(r % 16),
        hex_digit(g / 16),
        hex_digit(g % 16),
        hex_digit(b / 16),
        hex_digit(b % 16),
    ]
}

/// The two hexadecimal digits of `b`.
fn push_hex_byte(s: &mut String, b: u8)
    ensures
        final(s)@ == old(s)@ + seq![hex_digit(b / 16), hex_digit(b % 16)],
{
    let digits = "0123456789abcdef";
    proof {
        reveal_strlit("0123456789abcdef");
    }
    let hi = (b / 16) as usize;
    let lo = (b % 16) as usize;
    let h = digits.substring_char(hi, hi + 1);
    let l = digits.substring_char(lo, lo + 1);
    assert(h@ =~= seq![hex_digit(b / 16)]) by {
        assert(digits@[hi as int] == hex_digit(b / 16));
    }
    assert(l@ =~= seq![hex_digit(b % 16)]) by {
        assert(digits@[lo as int] == hex_digit(b % 16));
    }
    s.append(h);
    s.append(l);
    assert(s@ =~= old(s)@ + seq![hex_digit(b / 16), hex_digit(b % 16)]);
}

/// Settings of the bar that persist between runs.
pub struct SettingsConfig {
    /// Background color as a CSS color string.
    pub background_color: Option<String>,
}

impl Default for SettingsConfig {
    fn default() -> (r: Self)
        ensures
            r.background_color is None,
    {
        SettingsConfig { background_color: None }
    }
}

impl SettingsConfig {
    /// The background color, when one is set and names a color.
    pub fn background(&self) -> (r: Option<(u8, u8, u8, u8)>)
        ensures
            r == match self.background_color {
                Some(s) => css_color_rgba(s@),
                None => None,
            },
    {
        match &self.background_color {
            Some(s) => parse_css_color(s.as_str()),
            None => None,
        }
    }

    /// Sets the background to the color with channels `r`, `g`, `b`.
    pub fn set_background(&mut self, r: u8, g: u8, b: u8)
        ensures
            final(self).background_color is Some,
            final(self).background_color->0@ == hex_color(r, g, b),
    {
        let mut s = String::from_str("#");
        proof {
            reveal_strlit("#");
        }
        push_hex_byte(&mut s, r);
        push_hex_byte(&mut s, g);
        push_hex_byte(&mut s, b);
        assert(s@ =~= hex_color(r, g, b));
        self.background_color = Some(s);
    }

    /// Back to the defaults: no background color.
    pub fn reset(&mut self)
        ensures
            final(self).background_color is None,
    {
        self.background_color = None;
    }
}

} // verus!
