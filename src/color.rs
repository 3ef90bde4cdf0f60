//! Colors as byte triples, the twelve hue anchors, and colors tagged with
//! the anchor they were matched against.
use vstd::prelude::*;

verus! {

/// An sRGB color with one byte per channel.
#[derive(Clone, Copy, Debug, PartialEq, Eq, Structural)]
pub struct Rgb {
    pub red: u8,
    pub green: u8,
    pub blue: u8,
}

/// Squared Euclidean distance between two colors in RGB space.
pub open spec fn sq_distance(a: Rgb, b: Rgb) -> int {
    (a.red - b.red) * (a.red - b.red) + (a.green - b.green) * (a.green - b.green) + (a.blue
        - b.blue) * (a.blue - b.blue)
}

/// The per-channel 255-complement of a color.
pub open spec fn complement(c: Rgb) -> Rgb {
    Rgb { red: (255 - c.red) as u8, green: (255 - c.green) as u8, blue: (255 - c.blue) as u8 }
}

impl Rgb {
    pub fn new(red: u8, green: u8, blue: u8) -> (r: Rgb)
        ensures
            r == (Rgb { red, green, blue }),
    {
        Rgb { red, green, blue }
    }
}

/// Square of a channel difference; at most 255 * 255.
fn channel_sq(a: u8, b: u8) -> (r: u32)
    ensures
        r == (a - b) * (a - b),
        r <= 65025,
{
    let d: u32 = if a >= b {
        (a - b) as u32
    } else {
        (b - a) as u32
    };
    assert(d * d <= 65025 && d * d == (a - b) * (a - b)) by (nonlinear_arith)
        requires
            d <= 255,
            d == a - b || d == b - a,
    ;
    d * d
}

/// The hexadecimal digit of a value below 16, upper case.
pub open spec fn hex_char(n: int) -> char {
    if n < 10 {
        (48 + n) as char
    } else {
        (55 + n) as char
    }
}

/// Two upper-case hex digits of a byte, most significant first.
pub open spec fn hex_byte(b: u8) -> Seq<char> {
    seq![hex_char(b as int / 16), hex_char(b as int % 16)]
}

/// Six upper-case hex digits of a color, in the order red, green, blue.
pub open spec fn hex_of(c: Rgb) -> Seq<char> {
    hex_byte(c.red) + hex_byte(c.green) + hex_byte(c.blue)
}

fn hex_digit(n: u8) -> (c: char)
    requires
        n < 16,
    ensures
        c == hex_char(n as int),
{
    if n < 10 {
        (48 + n) as char
    } else {
        (55 + n) as char
    }
}

/// Relies on `String::push`: appends one character.
pub assume_specification[ String::push ](s: &mut String, ch: char)
    ensures
        final(s)@ == old(s)@.push(ch),
;

pub(crate) fn push_hex_byte(s: &mut String, b: u8)
    ensures
        final(s)@ == old(s)@ + hex_byte(b),
{
    s.push(hex_digit(b / 16));
    s.push(hex_digit(b % 16));
    assert(final(s)@ =~= old(s)@ + hex_byte(b));
}

/// Six upper-case hex digits of a color, without a leading `#`.
pub fn rgb_to_hex(c: Rgb) -> (r: String)
    ensures
        r@ == hex_of(c),
{
    let mut s = String::new();
    push_hex_byte(&mut s, c.red);
    push_hex_byte(&mut s, c.green);
    push_hex_byte(&mut s, c.blue);
    assert(s@ =~= hex_of(c));
    s
}

/// The twelve hue anchors that scanned colors are matched against.
#[derive(Clone, Copy, Debug, PartialEq, Eq, Structural)]
pub enum PureColor {
    Red,
    Yellow,
    Orange,
    Green,
    Cyan,
    Blue,
    Purple,
    Brown,
    Magenta,
    Azure,
    SpringGreen,
    LightCyan,
}

impl PureColor {
    /// The canonical color of the anchor.
    pub open spec fn canonical(self) -> Rgb {
        match self {
            PureColor::Red => Rgb { red: 255, green: 0, blue: 0 },
            PureColor::Yellow => Rgb { red: 255, green: 255, blue: 0 },
            PureColor::Orange => Rgb { red: 255, green: 165, blue: 0 },
            PureColor::Green => Rgb { red: 0, green: 255, blue: 0 },
            PureColor::Cyan => Rgb { red: 0, green: 255, blue: 255 },
            PureColor::Blue => Rgb { red: 0, green: 0, blue: 255 },
            PureColor::Purple => Rgb { red: 128, green: 0, blue: 128 },
            PureColor::Magenta => Rgb { red: 255, green: 0, blue: 255 },
            PureColor::Brown => Rgb { red: 165, green: 42, blue: 42 },
            PureColor::Azure => Rgb { red: 0, green: 90, blue: 255 },
            PureColor::SpringGreen => Rgb { red: 127, green: 255, blue: 127 },
            PureColor::LightCyan => Rgb { red: 90, green: 213, blue: 213 },
        }
    }

    /// The anchor paired with this one as its complement.
    pub open spec fn inverse(self) -> PureColor {
        match self {
            PureColor::Red => PureColor::Cyan,
            PureColor::Yellow => PureColor::Blue,
            PureColor::Orange => PureColor::Azure,
            PureColor::Green => PureColor::Magenta,
            PureColor::Cyan => PureColor::Red,
            PureColor::Blue => PureColor::Yellow,
            PureColor::Purple => PureColor::SpringGreen,
            PureColor::Magenta => PureColor::Green,
            PureColor::Brown => PureColor::LightCyan,
            PureColor::Azure => PureColor::Orange,
            PureColor::SpringGreen => PureColor::Purple,
            PureColor::LightCyan => PureColor::Brown,
        }
    }

    /// The lower-case name of the anchor.
    pub open spec fn name(self) -> Seq<char> {
        match self {
            PureColor::Red => "red"@,
            PureColor::Yellow => "yellow"@,
            PureColor::Orange => "orange"@,
            PureColor::Green => "green"@,
            PureColor::Cyan => "cyan"@,
            PureColor::Blue => "blue"@,
            PureColor::Purple => "purple"@,
            PureColor::Magenta => "magenta"@,
            PureColor::Brown => "brown"@,
            PureColor::Azure => "azure"@,
            PureColor::SpringGreen => "spring_green"@,
            PureColor::LightCyan => "light_cyan"@,
        }
    }

    pub fn get_rgb(&self) -> (r: Rgb)
        ensures
            r == self.canonical(),
    {
        match self {
            PureColor::Red => Rgb::new(255, 0, 0),
            PureColor::Yellow => Rgb::new(255, 255, 0),
            PureColor::Orange => Rgb::new(255, 165, 0),
            PureColor::Green => Rgb::new(0, 255, 0),
            PureColor::Cyan => Rgb::new(0, 255, 255),
            PureColor::Blue => Rgb::new(0, 0, 255),
            PureColor::Purple => Rgb::new(128, 0, 128),
            PureColor::Magenta => Rgb::new(255, 0, 255),
            PureColor::Brown => Rgb::new(165, 42, 42),
            PureColor::Azure => Rgb::new(0, 90, 255),
            PureColor::SpringGreen => Rgb::new(127, 255, 127),
            PureColor::LightCyan => Rgb::new(90, 213, 213),
        }
    }

    pub fn as_str(&self) -> (r: &'static str)
        ensures
            r@ == self.name(),
    {
        match self {
            PureColor::Red => "red",
            PureColor::Yellow => "yellow",
            PureColor::Orange => "orange",
            PureColor::Green => "green",
            PureColor::Cyan => "cyan",
            PureColor::Blue => "blue",
            PureColor::Purple => "purple",
            PureColor::Magenta => "magenta",
            PureColor::Brown => "brown",
            PureColor::Azure => "azure",
            PureColor::SpringGreen => "spring_green",
            PureColor::LightCyan => "light_cyan",
        }
    }

    pub fn get_inverse(&self) -> (r: PureColor)
        ensures
            r == self.inverse(),
    {
        match self {
            PureColor::Red => PureColor::Cyan,
            PureColor::Yellow => PureColor::Blue,
            PureColor::Orange => PureColor::Azure,
            PureColor::Green => PureColor::Magenta,
            PureColor::Cyan => PureColor::Red,
            PureColor::Blue => PureColor::Yellow,
            PureColor::Purple => PureColor::SpringGreen,
            PureColor::Magenta => PureColor::Green,
            PureColor::Brown => PureColor::LightCyan,
            PureColor::Azure => PureColor::Orange,
            PureColor::SpringGreen => PureColor::Purple,
            PureColor::LightCyan => PureColor::Brown,
        }
    }
}

/// A color together with the anchor it is matched against and its squared
/// distance from that anchor's canonical color.
#[derive(Clone, Copy, Debug, PartialEq, Eq, Structural)]
pub struct Color {
    pub associated_pure_color: PureColor,
    pub value: Rgb,
    pub distance: u32,
}

/// The color `value` tagged with `hue`, its distance computed against the
/// anchor's canonical color.
pub open spec fn tagged(hue: PureColor, value: Rgb) -> Color {
    Color {
        associated_pure_color: hue,
        value,
        distance: sq_distance(hue.canonical(), value) as u32,
    }
}

/// The complement of a color, tagged with the complementary anchor.
pub open spec fn inverted(c: Color) -> Color {
    tagged(c.associated_pure_color.inverse(), complement(c.value))
}

impl Color {
    /// The stored distance is the squared distance from the anchor.
    pub open spec fn is_consistent(self) -> bool {
        self.distance == sq_distance(self.associated_pure_color.canonical(), self.value)
    }

    pub fn new(pure_color: PureColor, value: Rgb) -> (c: Color)
        ensures
            c == tagged(pure_color, value),
            c.is_consistent(),
    {
        let distance = Color::get_distance(&pure_color.get_rgb(), &value);
        Color { associated_pure_color: pure_color, value, distance }
    }

    /// The anchor's own canonical color, at distance zero.
    pub fn from(pure_color: PureColor) -> (c: Color)
        ensures
            c == tagged(pure_color, pure_color.canonical()),
            c.value == pure_color.canonical(),
            c.distance == 0,
            c.is_consistent(),
    {
        Color { associated_pure_color: pure_color, value: pure_color.get_rgb(), distance: 0 }
    }

    pub fn get_inverse(&self) -> (c: Color)
        ensures
            c == inverted(*self),
            c.is_consistent(),
    {
        let inverse = Rgb::new(255 - self.value.red, 255 - self.value.green, 255 - self.value.blue);
        Color::new(self.associated_pure_color.get_inverse(), inverse)
    }

    /// Squared Euclidean distance; the order of the arguments does not matter.
    pub fn get_distance(c1: &Rgb, c2: &Rgb) -> (d: u32)
        ensures
            d == sq_distance(*c1, *c2),
            d <= 195075,
    {
        channel_sq(c1.red, c2.red) + channel_sq(c1.green, c2.green) + channel_sq(c1.blue, c2.blue)
    }

    /// Six upper-case hex digits of the color's value.
    pub fn to_hex(self) -> (r: String)
        ensures
            r@ == hex_of(self.value),
    {
        rgb_to_hex(self.value)
    }
}

proof fn lemma_square_difference(x: int, y: int)
    ensures
        (x - y) * (x - y) == (y - x) * (y - x),
        (x - y) * (x - y) >= 0,
        (x - y) * (x - y) == 0 <==> x == y,
{
    assert((x - y) * (x - y) == (y - x) * (y - x)) by (nonlinear_arith);
    assert((x - y) * (x - y) >= 0) by (nonlinear_arith);
    if x != y {
        assert((x - y) * (x - y) > 0) by (nonlinear_arith)
            requires
                x != y,
        ;
    } else {
        assert((x - y) * (x - y) == 0) by (nonlinear_arith)
            requires
                x == y,
        ;
    }
}

proof fn lemma_channel_bound(x: u8, y: u8)
    ensures
        0 <= (x - y) * (x - y) <= 65025,
{
    let (a, b) = (x as int, y as int);
    assert(0 <= (a - b) * (a - b) <= 65025) by (nonlinear_arith)
        requires
            0 <= a <= 255,
            0 <= b <= 255,
    ;
}

/// A squared distance fits comfortably in a `u32`.
pub proof fn lemma_distance_bounds(a: Rgb, b: Rgb)
    ensures
        0 <= sq_distance(a, b) <= 195075,
{
    lemma_channel_bound(a.red, b.red);
    lemma_channel_bound(a.green, b.green);
    lemma_channel_bound(a.blue, b.blue);
}

/// Distance is symmetric, and zero exactly between equal colors.
pub proof fn lemma_distance_symmetric(a: Rgb, b: Rgb)
    ensures
        sq_distance(a, b) == sq_distance(b, a),
        sq_distance(a, a) == 0,
        sq_distance(a, b) >= 0,
        sq_distance(a, b) == 0 <==> a == b,
{
    lemma_square_difference(a.red as int, b.red as int);
    lemma_square_difference(a.green as int, b.green as int);
    lemma_square_difference(a.blue as int, b.blue as int);
}

/// Taking the complementary anchor twice gives back the anchor.
pub proof fn lemma_inverse_involutive(p: PureColor)
    ensures
        p.inverse().inverse() == p,
{
}

/// Inverting a consistent color twice gives back the same color.
pub proof fn lemma_color_inverse_involutive(c: Color)
    requires
        c.is_consistent(),
    ensures
        inverted(inverted(c)) == c,
{
    lemma_inverse_involutive(c.associated_pure_color);
    assert(complement(complement(c.value)) == c.value);
}

} // verus!
