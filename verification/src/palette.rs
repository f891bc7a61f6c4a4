use vstd::prelude::*;

use crate::pixel::Rgb;

use vstd::string::StringSliceAdditionalSpecFns;

verus! {

/// The non-color tools a palette slot can hold.
#[derive(Clone, Copy, PartialEq, Eq, Structural, Debug)]
pub enum Tool {
    Lighter,
    Darker,
    Blur,
}

/// One selectable palette slot: either a color to paint with or a tool.
#[derive(Clone, Copy, PartialEq, Eq, Structural, Debug)]
pub enum PaletteEntry {
    Color(Rgb),
    Tool(Tool),
}

impl PaletteEntry {
    pub open spec fn is_color(self) -> bool {
        self is Color
    }
}

/// Is this byte an ASCII hexadecimal digit?
pub open spec fn is_hex_digit(b: u8) -> bool {
    (48 <= b <= 57) || (97 <= b <= 102) || (65 <= b <= 70)
}

/// The value of an ASCII hexadecimal digit.
pub open spec fn hex_val(b: u8) -> int {
    if 48 <= b <= 57 {
        b - 48
    } else if 97 <= b <= 102 {
        b - 87
    } else {
        b - 55
    }
}

/// Are all six bytes hexadecimal digits?
pub open spec fn all_hex_digits(s: Seq<u8>) -> bool {
    forall|i: int| 0 <= i < 6 ==> is_hex_digit(#[trigger] s[i])
}

/// What a hex color string denotes: after an optional leading `#`, exactly
/// six hexadecimal digits, two per channel; anything else denotes nothing.
pub open spec fn hex_color_spec(bytes: Seq<u8>) -> Option<Rgb> {
    let s = if bytes.len() > 0 && bytes[0] == 35 {
        bytes.skip(1)
    } else {
        bytes
    };
    if s.len() != 6 {
        None
    } else if !all_hex_digits(s) {
        None
    } else {
        Some(
            Rgb {
                r: (16 * hex_val(s[0]) + hex_val(s[1])) as u8,
                g: (16 * hex_val(s[2]) + hex_val(s[3])) as u8,
                b: (16 * hex_val(s[4]) + hex_val(s[5])) as u8,
            },
        )
    }
}

fn hex_digit_val(b: u8) -> (r: Option<u8>)
    ensures
        r is Some <==> is_hex_digit(b),
        r is Some ==> r->Some_0 as int == hex_val(b),
{
    if 48 <= b && b <= 57 {
        Some(b - 48)
    } else if 97 <= b && b <= 102 {
        Some(b - 87)
    } else if 65 <= b && b <= 70 {
        Some(b - 55)
    } else {
        None
    }
}

/// Parse a `#RRGGBB` or `RRGGBB` hex color string.
pub fn parse_hex_color(s: &str) -> (r: Option<Rgb>)
    ensures
        r == hex_color_spec(s.spec_bytes()),
{
    let bytes = s.as_bytes();
    let off: usize = if bytes.len() > 0 && bytes[0] == 35 {
        1
    } else {
        0
    };
    proof {
        if off == 1 {
            assert(s.spec_bytes().skip(1) =~= bytes@.subrange(1, bytes@.len() as int));
        }
    }
    if bytes.len() - off != 6 {
        return None;
    }
    let ghost digits = if off == 1 {
        s.spec_bytes().skip(1)
    } else {
        s.spec_bytes()
    };
    let mut vals: [u8; 6] = [0, 0, 0, 0, 0, 0];
    let mut i: usize = 0;
    while i < 6
        invariant
            off <= 1,
            bytes@ == s.spec_bytes(),
            bytes@.len() - off == 6,
            off == 1 ==> digits == bytes@.skip(1),
            off == 0 ==> digits == bytes@,
            (off == 1) == (bytes@.len() > 0 && bytes@[0] == 35),
            digits.len() == 6,
            i <= 6,
            forall|j: int|
                0 <= j < i ==> is_hex_digit(#[trigger] digits[j]) && vals@[j] as int == hex_val(
                    digits[j],
                ),
        decreases 6 - i,
    {
        proof {
            assert(digits[i as int] == bytes@[off + i]);
        }
        match hex_digit_val(bytes[off + i]) {
            Some(v) => {
                vals[i] = v;
            },
            None => {
                proof {
                    let sb = s.spec_bytes();
                    let ss = if sb.len() > 0 && sb[0] == 35 {
                        sb.skip(1)
                    } else {
                        sb
                    };
                    assert(ss == digits);
                    assert(!is_hex_digit(ss[i as int]));
                    assert(!all_hex_digits(ss));
                    assert(hex_color_spec(s.spec_bytes()) is None);
                }
                return None;
            },
        }
        i += 1;
    }
    proof {
        assert(all_hex_digits(digits));
        assert(forall|j: int| 0 <= j < 6 ==> hex_val(#[trigger] digits[j]) <= 15);
    }
    Some(
        Rgb {
            r: 16 * vals[0] + vals[1],
            g: 16 * vals[2] + vals[3],
            b: 16 * vals[4] + vals[5],
        },
    )
}

/// The three tone tools, in their fixed order.
pub fn get_default_tool_palette() -> (r: Vec<PaletteEntry>)
    ensures
        r@ == seq![
            PaletteEntry::Tool(Tool::Lighter),
            PaletteEntry::Tool(Tool::Darker),
            PaletteEntry::Tool(Tool::Blur),
        ],
{
    let r = vec![
        PaletteEntry::Tool(Tool::Lighter),
        PaletteEntry::Tool(Tool::Darker),
        PaletteEntry::Tool(Tool::Blur),
    ];
    proof {
        assert(r@ =~= seq![
            PaletteEntry::Tool(Tool::Lighter),
            PaletteEntry::Tool(Tool::Darker),
            PaletteEntry::Tool(Tool::Blur),
        ]);
    }
    r
}

fn color_entry(r: u8, g: u8, b: u8) -> (e: PaletteEntry)
    ensures
        e == PaletteEntry::Color(Rgb { r, g, b }),
{
    PaletteEntry::Color(Rgb { r, g, b })
}

/// The default color palette: a hand-picked spread of grays, pinks, reds,
/// oranges, yellows, greens, cyans, blues, purples and browns.
pub fn get_default_color_palette() -> (r: Vec<PaletteEntry>)
    ensures
        r@.len() == 107,
        forall|i: int| 0 <= i < r@.len() ==> (#[trigger] r@[i]).is_color(),
        r@[0] == PaletteEntry::Color(Rgb { r: 255, g: 255, b: 255 }),
{
    let mut v: Vec<PaletteEntry> = Vec::new();
    let tints: [(u8, u8, u8); 107] = [
        (255, 255, 255),
        (245, 245, 245),
        (220, 220, 220),
        (192, 192, 192),
        (169, 169, 169),
        (128, 128, 128),
        (64, 64, 64),
        (64, 64, 64),
        (40, 40, 40),
        (20, 20, 20),
        (0, 0, 0),
        (255, 240, 245),
        (255, 192, 203),
        (255, 182, 193),
        (255, 105, 180),
        (255, 20, 147),
        (219, 112, 147),
        (199, 21, 133),
        (255, 228, 225),
        (255, 218, 185),
        (255, 160, 122),
        (255, 128, 128),
        (255, 99, 71),
        (255, 0, 0),
        (220, 20, 60),
        (178, 34, 34),
        (139, 0, 0),
        (128, 0, 0),
        (255, 250, 205),
        (255, 239, 213),
        (255, 228, 181),
        (255, 218, 185),
        (255, 165, 0),
        (255, 140, 0),
        (255, 127, 80),
        (210, 105, 30),
        (184, 134, 11),
        (160, 82, 45),
        (139, 69, 19),
        (255, 255, 224),
        (255, 255, 128),
        (255, 250, 205),
        (255, 255, 0),
        (255, 215, 0),
        (218, 165, 32),
        (189, 183, 107),
        (154, 205, 50),
        (128, 128, 0),
        (245, 255, 250),
        (240, 255, 240),
        (144, 238, 144),
        (152, 251, 152),
        (128, 255, 128),
        (124, 252, 0),
        (0, 255, 127),
        (0, 250, 154),
        (50, 205, 50),
        (34, 139, 34),
        (0, 255, 0),
        (0, 128, 0),
        (0, 100, 0),
        (85, 107, 47),
        (107, 142, 35),
        (240, 255, 255),
        (224, 255, 255),
        (175, 238, 238),
        (127, 255, 212),
        (64, 224, 208),
        (128, 255, 255),
        (72, 209, 204),
        (0, 255, 255),
        (0, 206, 209),
        (0, 139, 139),
        (0, 128, 128),
        (240, 248, 255),
        (230, 230, 250),
        (176, 224, 230),
        (128, 128, 255),
        (135, 206, 250),
        (135, 206, 235),
        (0, 191, 255),
        (30, 144, 255),
        (0, 0, 255),
        (0, 0, 205),
        (0, 0, 139),
        (25, 25, 112),
        (0, 0, 128),
        (230, 230, 250),
        (221, 160, 221),
        (238, 130, 238),
        (255, 128, 255),
        (218, 112, 214),
        (186, 85, 211),
        (255, 0, 255),
        (147, 112, 219),
        (138, 43, 226),
        (148, 0, 211),
        (128, 0, 128),
        (75, 0, 130),
        (106, 90, 205),
        (72, 61, 139),
        (245, 222, 179),
        (222, 184, 135),
        (210, 180, 140),
        (188, 143, 143),
        (244, 164, 96),
        (205, 133, 63),
    ];
    let mut i: usize = 0;
    while i < 107
        invariant
            v@.len() == i,
            i <= 107,
            forall|j: int| 0 <= j < v@.len() ==> (#[trigger] v@[j]).is_color(),
            i > 0 ==> v@[0] == PaletteEntry::Color(Rgb { r: 255, g: 255, b: 255 }),
            tints@[0] == (255u8, 255u8, 255u8),
        decreases 107 - i,
    {
        let (r, g, b) = tints[i];
        v.push(color_entry(r, g, b));
        i += 1;
    }
    v
}

/// The sixteen basic terminal colors.
pub fn get_ansi_color_palette() -> (r: Vec<PaletteEntry>)
    ensures
        r@.len() == 16,
        forall|i: int| 0 <= i < r@.len() ==> (#[trigger] r@[i]).is_color(),
{
    let mut v: Vec<PaletteEntry> = Vec::new();
    let tints: [(u8, u8, u8); 16] = [
        (0, 0, 0),
        (64, 64, 64),
        (255, 0, 0),
        (255, 128, 128),
        (0, 255, 0),
        (128, 255, 128),
        (255, 255, 0),
        (255, 255, 128),
        (0, 0, 255),
        (128, 128, 255),
        (255, 0, 255),
        (255, 128, 255),
        (0, 255, 255),
        (128, 255, 255),
        (128, 128, 128),
        (255, 255, 255),
    ];
    let mut i: usize = 0;
    while i < 16
        invariant
            v@.len() == i,
            i <= 16,
            forall|j: int| 0 <= j < v@.len() ==> (#[trigger] v@[j]).is_color(),
        decreases 16 - i,
    {
        let (r, g, b) = tints[i];
        v.push(color_entry(r, g, b));
        i += 1;
    }
    v
}

/// The Atari-style palette: fifteen hue groups of eight brightness steps.
pub fn get_atari_color_palette() -> (r: Vec<PaletteEntry>)
    ensures
        r@.len() == 120,
        forall|i: int| 0 <= i < r@.len() ==> (#[trigger] r@[i]).is_color(),
{
    let mut v: Vec<PaletteEntry> = Vec::new();
    let tints: [(u8, u8, u8); 120] = [
        (0, 0, 0),
        (64, 64, 64),
        (112, 112, 112),
        (152, 152, 152),
        (184, 184, 184),
        (208, 208, 208),
        (228, 228, 228),
        (252, 252, 252),
        (68, 40, 0),
        (120, 74, 0),
        (164, 104, 0),
        (204, 132, 0),
        (232, 154, 0),
        (252, 174, 36),
        (252, 194, 88),
        (252, 218, 140),
        (112, 20, 0),
        (168, 52, 0),
        (208, 78, 0),
        (244, 106, 0),
        (252, 128, 0),
        (252, 150, 48),
        (252, 172, 92),
        (252, 196, 140),
        (132, 0, 0),
        (192, 30, 0),
        (232, 64, 0),
        (252, 92, 20),
        (252, 114, 68),
        (252, 138, 108),
        (252, 162, 148),
        (252, 188, 188),
        (140, 0, 0),
        (204, 26, 26),
        (232, 66, 66),
        (252, 94, 94),
        (252, 120, 120),
        (252, 144, 144),
        (252, 170, 170),
        (252, 196, 196),
        (124, 0, 64),
        (184, 18, 108),
        (216, 54, 144),
        (244, 84, 172),
        (252, 110, 196),
        (252, 134, 212),
        (252, 160, 228),
        (252, 188, 244),
        (84, 0, 116),
        (136, 20, 168),
        (172, 58, 208),
        (204, 88, 236),
        (224, 114, 252),
        (236, 138, 252),
        (248, 164, 252),
        (252, 192, 252),
        (36, 0, 140),
        (80, 28, 192),
        (116, 66, 224),
        (148, 96, 248),
        (172, 120, 252),
        (192, 142, 252),
        (212, 166, 252),
        (232, 192, 252),
        (0, 0, 148),
        (26, 42, 200),
        (62, 78, 228),
        (92, 110, 252),
        (118, 134, 252),
        (140, 158, 252),
        (166, 182, 252),
        (192, 206, 252),
        (0, 48, 132),
        (16, 84, 184),
        (50, 118, 216),
        (80, 146, 244),
        (106, 168, 252),
        (130, 188, 252),
        (156, 208, 252),
        (184, 228, 252),
        (0, 88, 88),
        (0, 132, 132),
        (38, 164, 164),
        (68, 192, 192),
        (94, 212, 212),
        (118, 228, 228),
        (146, 242, 242),
        (176, 252, 252),
        (0, 104, 52),
        (0, 152, 84),
        (22, 184, 116),
        (56, 208, 144),
        (84, 228, 164),
        (110, 244, 184),
        (138, 252, 204),
        (170, 252, 224),
        (0, 116, 0),
        (20, 164, 20),
        (58, 198, 58),
        (88, 224, 88),
        (114, 240, 114),
        (138, 252, 138),
        (164, 252, 164),
        (192, 252, 192),
        (52, 108, 0),
        (92, 152, 0),
        (128, 184, 16),
        (160, 212, 48),
        (184, 232, 74),
        (204, 244, 102),
        (224, 252, 132),
        (240, 252, 164),
        (96, 88, 0),
        (148, 126, 0),
        (188, 160, 0),
        (224, 188, 20),
        (244, 208, 60),
        (252, 224, 94),
        (252, 238, 134),
        (252, 252, 172),
    ];
    let mut i: usize = 0;
    while i < 120
        invariant
            v@.len() == i,
            i <= 120,
            forall|j: int| 0 <= j < v@.len() ==> (#[trigger] v@[j]).is_color(),
        decreases 120 - i,
    {
        let (r, g, b) = tints[i];
        v.push(color_entry(r, g, b));
        i += 1;
    }
    v
}

fn cube_level(i: usize) -> (l: u8)
    requires
        i < 6,
{
    if i == 0 {
        0
    } else if i == 1 {
        95
    } else if i == 2 {
        135
    } else if i == 3 {
        175
    } else if i == 4 {
        215
    } else {
        255
    }
}

/// The 256-color terminal palette: the 16 basic colors, a 6x6x6 color cube,
/// and 24 grays.
pub fn get_xterm256_color_palette() -> (r: Vec<PaletteEntry>)
    ensures
        r@.len() == 256,
        forall|i: int| 0 <= i < r@.len() ==> (#[trigger] r@[i]).is_color(),
{
    let mut v = get_ansi_color_palette();
    let mut r: usize = 0;
    while r < 6
        invariant
            v@.len() == 16 + 36 * r,
            r <= 6,
            forall|i: int| 0 <= i < v@.len() ==> (#[trigger] v@[i]).is_color(),
        decreases 6 - r,
    {
        let mut g: usize = 0;
        while g < 6
            invariant
                r < 6,
                v@.len() == 16 + 36 * r + 6 * g,
                g <= 6,
                forall|i: int| 0 <= i < v@.len() ==> (#[trigger] v@[i]).is_color(),
            decreases 6 - g,
        {
            let mut b: usize = 0;
            while b < 6
                invariant
                    r < 6,
                    g < 6,
                    v@.len() == 16 + 36 * r + 6 * g + b,
                    b <= 6,
                    forall|i: int| 0 <= i < v@.len() ==> (#[trigger] v@[i]).is_color(),
                decreases 6 - b,
            {
                v.push(color_entry(cube_level(r), cube_level(g), cube_level(b)));
                b += 1;
            }
            g += 1;
        }
        r += 1;
    }
    let mut i: usize = 0;
    while i < 24
        invariant
            v@.len() == 232 + i,
            i <= 24,
            forall|j: int| 0 <= j < v@.len() ==> (#[trigger] v@[j]).is_color(),
        decreases 24 - i,
    {
        let l: u8 = (8 + i * 10) as u8;
        v.push(color_entry(l, l, l));
        i += 1;
    }
    v
}

fn websafe_level(i: usize) -> (l: u8)
    requires
        i < 6,
{
    if i == 0 {
        0
    } else if i == 1 {
        51
    } else if i == 2 {
        102
    } else if i == 3 {
        153
    } else if i == 4 {
        204
    } else {
        255
    }
}

/// The 216 web-safe colors: every combination of six channel levels.
pub fn get_websafe_color_palette() -> (r: Vec<PaletteEntry>)
    ensures
        r@.len() == 216,
        forall|i: int| 0 <= i < r@.len() ==> (#[trigger] r@[i]).is_color(),
{
    let mut v: Vec<PaletteEntry> = Vec::new();
    let mut r: usize = 0;
    while r < 6
        invariant
            v@.len() == 36 * r,
            r <= 6,
            forall|i: int| 0 <= i < v@.len() ==> (#[trigger] v@[i]).is_color(),
        decreases 6 - r,
    {
        let mut g: usize = 0;
        while g < 6
            invariant
                r < 6,
                v@.len() == 36 * r + 6 * g,
                g <= 6,
                forall|i: int| 0 <= i < v@.len() ==> (#[trigger] v@[i]).is_color(),
            decreases 6 - g,
        {
            let mut b: usize = 0;
            while b < 6
                invariant
                    r < 6,
                    g < 6,
                    v@.len() == 36 * r + 6 * g + b,
                    b <= 6,
                    forall|i: int| 0 <= i < v@.len() ==> (#[trigger] v@[i]).is_color(),
                decreases 6 - b,
            {
                v.push(color_entry(websafe_level(r), websafe_level(g), websafe_level(b)));
                b += 1;
            }
            g += 1;
        }
        r += 1;
    }
    v
}

fn websafe_extended_level(i: usize) -> (l: u8)
    requires
        i < 11,
{
    if i == 0 {
        0
    } else if i == 1 {
        25
    } else if i == 2 {
        51
    } else if i == 3 {
        76
    } else if i == 4 {
        102
    } else if i == 5 {
        127
    } else if i == 6 {
        153
    } else if i == 7 {
        178
    } else if i == 8 {
        204
    } else if i == 9 {
        229
    } else {
        255
    }
}

/// The extended web palette: every combination of eleven channel levels.
pub fn get_websafe_extended_color_palette() -> (r: Vec<PaletteEntry>)
    ensures
        r@.len() == 1331,
        forall|i: int| 0 <= i < r@.len() ==> (#[trigger] r@[i]).is_color(),
{
    let mut v: Vec<PaletteEntry> = Vec::new();
    let mut r: usize = 0;
    while r < 11
        invariant
            v@.len() == 121 * r,
            r <= 11,
            forall|i: int| 0 <= i < v@.len() ==> (#[trigger] v@[i]).is_color(),
        decreases 11 - r,
    {
        let mut g: usize = 0;
        while g < 11
            invariant
                r < 11,
                v@.len() == 121 * r + 11 * g,
                g <= 11,
                forall|i: int| 0 <= i < v@.len() ==> (#[trigger] v@[i]).is_color(),
            decreases 11 - g,
        {
            let mut b: usize = 0;
            while b < 11
                invariant
                    r < 11,
                    g < 11,
                    v@.len() == 121 * r + 11 * g + b,
                    b <= 11,
                    forall|i: int| 0 <= i < v@.len() ==> (#[trigger] v@[i]).is_color(),
                decreases 11 - b,
            {
                v.push(color_entry(
                    websafe_extended_level(r),
                    websafe_extended_level(g),
                    websafe_extended_level(b),
                ));
                b += 1;
            }
            g += 1;
        }
        r += 1;
    }
    v
}

} // verus!
