use vstd::prelude::*;

verus! {

/// A colour by its red, green and blue components.
#[derive(Debug, Clone, Copy, PartialEq, Eq)]
pub struct Rgb {
    pub r: u8,
    pub g: u8,
    pub b: u8,
}

pub open spec fn rgb(r: u8, g: u8, b: u8) -> Rgb {
    Rgb { r, g, b }
}

#[derive(Debug, Clone, Copy, PartialEq, Eq)]
pub struct ANSIColours {
    pub black: Rgb,
    pub red: Rgb,
    pub green: Rgb,
    pub yellow: Rgb,
    pub blue: Rgb,
    pub magenta: Rgb,
    pub cyan: Rgb,
    pub white: Rgb,
}

#[derive(Debug, Clone, Copy, PartialEq, Eq)]
pub struct Colourscheme {
    pub background: Rgb,
    pub foreground: Rgb,
    pub cursor_bg: Rgb,
    pub cursor_fg: Rgb,
    pub selection_bg: Rgb,
    pub selection_fg: Rgb,
    pub regular: ANSIColours,
    pub bright: ANSIColours,
}

/// The scheme that `from_toml` gives: black on white cursors and selections, the
/// eight primary ANSI colours, and grey as bright black.
pub open spec fn default_scheme() -> Colourscheme {
    Colourscheme {
        background: rgb(0, 0, 0),
        foreground: rgb(255, 255, 255),
        cursor_bg: rgb(255, 255, 255),
        cursor_fg: rgb(0, 0, 0),
        selection_bg: rgb(255, 255, 255),
        selection_fg: rgb(0, 0, 0),
        regular: ANSIColours {
            black: rgb(0, 0, 0),
            red: rgb(255, 0, 0),
            green: rgb(0, 255, 0),
            yellow: rgb(255, 255, 0),
            blue: rgb(0, 0, 255),
            magenta: rgb(255, 0, 255),
            cyan: rgb(0, 255, 255),
            white: rgb(255, 255, 255),
        },
        bright: ANSIColours {
            black: rgb(128, 128, 128),
            red: rgb(255, 0, 0),
            green: rgb(0, 255, 0),
            yellow: rgb(255, 255, 0),
            blue: rgb(0, 0, 255),
            magenta: rgb(255, 0, 255),
            cyan: rgb(0, 255, 255),
            white: rgb(255, 255, 255),
        },
    }
}

fn from_rgb(r: u8, g: u8, b: u8) -> (c: Rgb)
    ensures
        c == rgb(r, g, b),
{
    Rgb { r, g, b }
}

impl Colourscheme {
    /// The scheme does not depend on the text yet: it is always `default_scheme`.
    pub fn from_toml(toml: &str) -> (scheme: Colourscheme)
        ensures
            scheme == default_scheme(),
    {
        Colourscheme {
            background: from_rgb(0, 0, 0),
            foreground: from_rgb(255, 255, 255),
            cursor_bg: from_rgb(255, 255, 255),
            cursor_fg: from_rgb(0, 0, 0),
            selection_bg: from_rgb(255, 255, 255),
            selection_fg: from_rgb(0, 0, 0),
            regular: ANSIColours {
                black: from_rgb(0, 0, 0),
                red: from_rgb(255, 0, 0),
                green: from_rgb(0, 255, 0),
                yellow: from_rgb(255, 255, 0),
                blue: from_rgb(0, 0, 255),
                magenta: from_rgb(255, 0, 255),
                cyan: from_rgb(0, 255, 255),
                white: from_rgb(255, 255, 255),
            },
            bright: ANSIColours {
                black: from_rgb(128, 128, 128),
                red: from_rgb(255, 0, 0),
                green: from_rgb(0, 255, 0),
                yellow: from_rgb(255, 255, 0),
                blue: from_rgb(0, 0, 255),
                magenta: from_rgb(255, 0, 255),
                cyan: from_rgb(0, 255, 255),
                white: from_rgb(255, 255, 255),
            },
        }
    }
}

/// The eight colours of an ANSI palette, in order: black, red, green, yellow, blue,
/// magenta, cyan, white.
pub open spec fn palette(a: ANSIColours) -> Seq<Rgb> {
    seq![a.black, a.red, a.green, a.yellow, a.blue, a.magenta, a.cyan, a.white]
}

/// Full or no intensity of a channel.
pub open spec fn channel(on: bool) -> u8 {
    if on {
        255
    } else {
        0
    }
}

/// ANSI colour number `i` (0 to 7) at full intensity: bit 0 is red, bit 1 green,
/// bit 2 blue.
pub open spec fn primary(i: int) -> Rgb {
    Rgb { r: channel(i % 2 == 1), g: channel((i / 2) % 2 == 1), b: channel((i / 4) % 2 == 1) }
}

/// The built-in scheme's regular colours are the eight primaries: colour `i` has
/// full red when bit 0 of `i` is set, full green for bit 1 and full blue for bit 2,
/// and none otherwise, so black is rgb(0, 0, 0) and white rgb(255, 255, 255); no
/// two of them are alike, and bright black is grey rgb(128, 128, 128), unlike
/// regular black. The text given to `from_toml` changes none of it.
pub proof fn law_regular_colours_are_the_primaries()
    ensures
        forall|i: int| 0 <= i < 8 ==> #[trigger] palette(default_scheme().regular)[i] == primary(i),
        forall|i: int, j: int|
            0 <= i < j < 8 ==> palette(default_scheme().regular)[i] != palette(
                default_scheme().regular,
            )[j],
        default_scheme().regular.black == (Rgb { r: 0, g: 0, b: 0 }),
        default_scheme().bright.black == (Rgb { r: 128, g: 128, b: 128 }),
        default_scheme().regular.black != default_scheme().bright.black,
{
    let p = palette(default_scheme().regular);
    assert forall|i: int, j: int| 0 <= i < j < 8 implies p[i] != p[j] by {
        assert(p[0] == Rgb { r: 0, g: 0, b: 0 });
        assert(p[1] == Rgb { r: 255, g: 0, b: 0 });
        assert(p[2] == Rgb { r: 0, g: 255, b: 0 });
        assert(p[3] == Rgb { r: 255, g: 255, b: 0 });
        assert(p[4] == Rgb { r: 0, g: 0, b: 255 });
        assert(p[5] == Rgb { r: 255, g: 0, b: 255 });
        assert(p[6] == Rgb { r: 0, g: 255, b: 255 });
        assert(p[7] == Rgb { r: 255, g: 255, b: 255 });
    }
}

} // verus!
