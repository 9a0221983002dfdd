//! Terminal themes: the built-in palettes by name, and how a terminal color
//! (default, indexed or true color) resolves against a palette.

use vstd::prelude::*;
use crate::text::chars_of;

verus! {

/// A color as red, green and blue channels.
#[derive(Clone, Copy, Debug, PartialEq, Eq, Structural)]
pub struct Rgb {
    pub r: u8,
    pub g: u8,
    pub b: u8,
}

/// A terminal cell color as the emulator reports it.
#[derive(Clone, Copy, Debug, PartialEq, Eq, Structural)]
pub enum VtColor {
    Default,
    Idx(u8),
    Rgb(u8, u8, u8),
}

/// A chrome font weight, mapped to one of the bundled Inter faces.
#[derive(Clone, Copy, Debug, PartialEq, Eq, Structural)]
pub enum Weight {
    Regular,
    Medium,
    SemiBold,
    Bold,
}

impl Weight {
    /// The font family that holds this weight.
    pub fn family_name(self) -> (r: &'static str)
        ensures
            r@ == match self {
                Weight::Regular => "inter-400"@,
                Weight::Medium => "inter-500"@,
                Weight::SemiBold => "inter-600"@,
                Weight::Bold => "inter-700"@,
            },
    {
        match self {
            Weight::Regular => "inter-400",
            Weight::Medium => "inter-500",
            Weight::SemiBold => "inter-600",
            Weight::Bold => "inter-700",
        }
    }
}

/// Number of built-in themes.
pub const THEME_COUNT: usize = 3;

/// The name of built-in theme `i`, in picker order.
pub open spec fn theme_name_spec(i: int) -> Seq<char> {
    if i == 0 {
        "Lavender"@
    } else if i == 1 {
        "Amber Phosphor"@
    } else {
        "Green Phosphor"@
    }
}

/// The name of built-in theme `index`.
pub fn theme_name(index: usize) -> (r: &'static str)
    requires
        index < THEME_COUNT,
    ensures
        r@ == theme_name_spec(index as int),
{
    if index == 0 {
        "Lavender"
    } else if index == 1 {
        "Amber Phosphor"
    } else {
        "Green Phosphor"
    }
}

/// Whether built-in theme `index` is dark.
pub fn theme_is_dark(index: usize) -> (r: bool)
    requires
        index < THEME_COUNT,
    ensures
        r == (index != 0),
{
    index != 0
}

/// ASCII upper-case letters mapped to lower case; other characters kept.
pub open spec fn ascii_lower(c: char) -> char {
    if 'A' <= c <= 'Z' {
        ((c as u32) + 32) as char
    } else {
        c
    }
}

/// `str::eq_ignore_ascii_case`: equal once ASCII letters are folded.
pub open spec fn eq_ignore_ascii_case(a: Seq<char>, b: Seq<char>) -> bool {
    a.len() == b.len() && forall|i: int| 0 <= i < a.len() ==> ascii_lower(a[i]) == ascii_lower(b[i])
}

fn ascii_lower_char(c: char) -> (r: char)
    ensures
        r == ascii_lower(c),
{
    if 'A' <= c && c <= 'Z' {
        ((c as u8) + 32) as char
    } else {
        c
    }
}

fn eq_ascii_fold(a: &Vec<char>, b: &Vec<char>) -> (r: bool)
    ensures
        r == eq_ignore_ascii_case(a@, b@),
{
    if a.len() != b.len() {
        return false;
    }
    let mut i: usize = 0;
    while i < a.len()
        invariant
            i <= a.len() == b.len(),
            forall|j: int| 0 <= j < i ==> ascii_lower(a@[j]) == ascii_lower(b@[j]),
        decreases a.len() - i,
    {
        if ascii_lower_char(a[i]) != ascii_lower_char(b[i]) {
            return false;
        }
        i += 1;
    }
    true
}

/// Resolve a persisted theme name (case-insensitive) to an index.
pub fn index_by_name(name: &str) -> (r: Option<usize>)
    ensures
        match r {
            Some(i) => i < THEME_COUNT && eq_ignore_ascii_case(theme_name_spec(i as int), name@)
                && forall|j: int| 0 <= j < i ==> !eq_ignore_ascii_case(theme_name_spec(j), name@),
            None => forall|j: int|
                0 <= j < THEME_COUNT ==> !eq_ignore_ascii_case(theme_name_spec(j), name@),
        },
{
    let n = chars_of(name);
    let mut i: usize = 0;
    while i < THEME_COUNT
        invariant
            i <= THEME_COUNT,
            n@ == name@,
            forall|j: int| 0 <= j < i ==> !eq_ignore_ascii_case(theme_name_spec(j), name@),
        decreases THEME_COUNT - i,
    {
        let t = chars_of(theme_name(i));
        if eq_ascii_fold(&t, &n) {
            return Some(i);
        }
        i += 1;
    }
    None
}

/// Which built-in theme is selected: the first (Lavender) until one is
/// chosen; a choice past the last theme selects the last.
pub struct ThemeSelection {
    pub stored: usize,
}

impl ThemeSelection {
    /// No theme chosen yet: the first is in use.
    pub fn new() -> (t: Self)
        ensures
            t.stored == 0,
            theme_name_spec(t.stored as int) == "Lavender"@,
    {
        ThemeSelection { stored: 0 }
    }

    /// Choose theme `index`, clamped to the built-in themes.
    pub fn set_current(&mut self, index: usize)
        ensures
            final(self).stored == if index < THEME_COUNT {
                index
            } else {
                (THEME_COUNT - 1) as usize
            },
    {
        self.stored = if index < THEME_COUNT {
            index
        } else {
            THEME_COUNT - 1
        };
    }

    /// The theme in use, always one of the built-in themes.
    pub fn current_index(&self) -> (r: usize)
        ensures
            r < THEME_COUNT,
            r == if self.stored < THEME_COUNT {
                self.stored
            } else {
                (THEME_COUNT - 1) as usize
            },
    {
        current_index(self.stored)
    }
}

/// The theme index in use when `stored` was selected: out-of-range values
/// select the last theme.
pub fn current_index(stored: usize) -> (r: usize)
    ensures
        r == if stored < THEME_COUNT {
            stored
        } else {
            (THEME_COUNT - 1) as usize
        },
{
    if stored < THEME_COUNT {
        stored
    } else {
        THEME_COUNT - 1
    }
}

/// The ANSI 16-color palette of built-in theme `t`, as `(r, g, b)`.
pub open spec fn ansi_table(t: int) -> Seq<(u8, u8, u8)> {
    if t == 0 {
        seq![
            (0x1e, 0x29, 0x3b), (0xdc, 0x26, 0x26), (0x15, 0x80, 0x3d), (0xb4, 0x53, 0x09),
            (0x25, 0x63, 0xeb), (0x7c, 0x3a, 0xed), (0x08, 0x91, 0xb2), (0x64, 0x74, 0x8b),
            (0x47, 0x55, 0x69), (0xef, 0x44, 0x44), (0x22, 0xc5, 0x5e), (0xf5, 0x9e, 0x0b),
            (0x3b, 0x82, 0xf6), (0xa7, 0x8b, 0xfa), (0x06, 0xb6, 0xd4), (0x0f, 0x17, 0x2a),
        ]
    } else if t == 1 {
        seq![
            (0x21, 0x1c, 0x16), (0xe3, 0x59, 0x4f), (0x9b, 0xb9, 0x53), (0xe5, 0xb5, 0x66),
            (0x6e, 0x9c, 0xc6), (0xc5, 0x85, 0xc2), (0x6c, 0xb5, 0xa8), (0xd8, 0xcf, 0xc0),
            (0x6e, 0x65, 0x57), (0xf2, 0x77, 0x6d), (0xb2, 0xcc, 0x6e), (0xf5, 0xcc, 0x80),
            (0x8c, 0xb5, 0xd9), (0xd9, 0xa0, 0xd4), (0x87, 0xcc, 0xbf), (0xf2, 0xea, 0xd9),
        ]
    } else {
        seq![
            (0x16, 0x1f, 0x17), (0xe3, 0x59, 0x4f), (0x5f, 0xc7, 0x5f), (0xd6, 0xc9, 0x5e),
            (0x66, 0x9c, 0xce), (0xc0, 0x84, 0xc4), (0x5e, 0xc1, 0xae), (0xc8, 0xd6, 0xc8),
            (0x5c, 0x6e, 0x5d), (0xf2, 0x77, 0x6d), (0x86, 0xe8, 0x86), (0xe8, 0xdd, 0x82),
            (0x8a, 0xb8, 0xe0), (0xd8, 0xa4, 0xda), (0x84, 0xd8, 0xc8), (0xe4, 0xf0, 0xe4),
        ]
    }
}

/// The channels of a color.
pub open spec fn channels(c: Rgb) -> (u8, u8, u8) {
    (c.r, c.g, c.b)
}

fn rgb(r: u8, g: u8, b: u8) -> (c: Rgb)
    ensures
        c == (Rgb { r, g, b }),
{
    Rgb { r, g, b }
}

/// The ANSI 16-color palette of built-in theme `index`.
pub fn ansi_palette(index: usize) -> (p: [Rgb; 16])
    requires
        index < THEME_COUNT,
    ensures
        p@.map_values(|c: Rgb| channels(c)) == ansi_table(index as int),
{
    let p = if index == 0 {
        [
            rgb(0x1e, 0x29, 0x3b), rgb(0xdc, 0x26, 0x26), rgb(0x15, 0x80, 0x3d), rgb(0xb4, 0x53, 0x09),
            rgb(0x25, 0x63, 0xeb), rgb(0x7c, 0x3a, 0xed), rgb(0x08, 0x91, 0xb2), rgb(0x64, 0x74, 0x8b),
            rgb(0x47, 0x55, 0x69), rgb(0xef, 0x44, 0x44), rgb(0x22, 0xc5, 0x5e), rgb(0xf5, 0x9e, 0x0b),
            rgb(0x3b, 0x82, 0xf6), rgb(0xa7, 0x8b, 0xfa), rgb(0x06, 0xb6, 0xd4), rgb(0x0f, 0x17, 0x2a),
        ]
    } else if index == 1 {
        [
            rgb(0x21, 0x1c, 0x16), rgb(0xe3, 0x59, 0x4f), rgb(0x9b, 0xb9, 0x53), rgb(0xe5, 0xb5, 0x66),
            rgb(0x6e, 0x9c, 0xc6), rgb(0xc5, 0x85, 0xc2), rgb(0x6c, 0xb5, 0xa8), rgb(0xd8, 0xcf, 0xc0),
            rgb(0x6e, 0x65, 0x57), rgb(0xf2, 0x77, 0x6d), rgb(0xb2, 0xcc, 0x6e), rgb(0xf5, 0xcc, 0x80),
            rgb(0x8c, 0xb5, 0xd9), rgb(0xd9, 0xa0, 0xd4), rgb(0x87, 0xcc, 0xbf), rgb(0xf2, 0xea, 0xd9),
        ]
    } else {
        [
            rgb(0x16, 0x1f, 0x17), rgb(0xe3, 0x59, 0x4f), rgb(0x5f, 0xc7, 0x5f), rgb(0xd6, 0xc9, 0x5e),
            rgb(0x66, 0x9c, 0xce), rgb(0xc0, 0x84, 0xc4), rgb(0x5e, 0xc1, 0xae), rgb(0xc8, 0xd6, 0xc8),
            rgb(0x5c, 0x6e, 0x5d), rgb(0xf2, 0x77, 0x6d), rgb(0x86, 0xe8, 0x86), rgb(0xe8, 0xdd, 0x82),
            rgb(0x8a, 0xb8, 0xe0), rgb(0xd8, 0xa4, 0xda), rgb(0x84, 0xd8, 0xc8), rgb(0xe4, 0xf0, 0xe4),
        ]
    };
    assert(p@.map_values(|c: Rgb| channels(c)) =~= ansi_table(index as int));
    p
}

/// Red, green and blue stay distinguishable in every built-in palette:
/// slot 1 (red) differs from slot 2 (green), which differs from slot 4
/// (blue).
pub proof fn lemma_ansi_hues_distinct(t: int)
    requires
        0 <= t < THEME_COUNT,
    ensures
        ansi_table(t)[1] != ansi_table(t)[2],
        ansi_table(t)[2] != ansi_table(t)[4],
{
}

/// One axis step of the xterm 6x6x6 color cube.
pub open spec fn cube_step(n: int) -> int {
    if n == 0 {
        0
    } else {
        55 + 40 * n
    }
}

/// The xterm 256-color palette: the 16 theme colors, the 6x6x6 cube, then
/// the grayscale ramp.
pub open spec fn idx256_spec(i: u8, ansi: Seq<Rgb>) -> Rgb {
    if i < 16 {
        ansi[i as int]
    } else if i >= 232 {
        let v = (8 + 10 * (i - 232)) as u8;
        Rgb { r: v, g: v, b: v }
    } else {
        let j = i - 16;
        Rgb {
            r: cube_step(j / 36) as u8,
            g: cube_step((j / 6) % 6) as u8,
            b: cube_step(j % 6) as u8,
        }
    }
}

fn cube_step_of(n: u8) -> (r: u8)
    requires
        n < 6,
    ensures
        r as int == cube_step(n as int),
{
    if n == 0 {
        0
    } else {
        55 + 40 * n
    }
}

/// xterm 256-color cube and grayscale ramp.
pub fn idx256(i: u8, ansi: &[Rgb; 16]) -> (c: Rgb)
    ensures
        c == idx256_spec(i, ansi@),
{
    if i < 16 {
        return ansi[i as usize];
    }
    if i >= 232 {
        let v = 8 + 10 * (i - 232);
        return Rgb { r: v, g: v, b: v };
    }
    let j = i - 16;
    Rgb { r: cube_step_of(j / 36), g: cube_step_of((j / 6) % 6), b: cube_step_of(j % 6) }
}

/// How a terminal color resolves: the default color, a palette entry, or
/// the true color itself.
pub open spec fn vt_color_spec(c: VtColor, default: Rgb, ansi: Seq<Rgb>) -> Rgb {
    match c {
        VtColor::Default => default,
        VtColor::Idx(i) => idx256_spec(i, ansi),
        VtColor::Rgb(r, g, b) => Rgb { r, g, b },
    }
}

/// Map a terminal color to a display color using `ansi` as the palette.
pub fn vt_color(c: VtColor, default: Rgb, ansi: &[Rgb; 16]) -> (r: Rgb)
    ensures
        r == vt_color_spec(c, default, ansi@),
{
    match c {
        VtColor::Default => default,
        VtColor::Idx(i) => {
            if (i as usize) < 16 {
                ansi[i as usize]
            } else {
                idx256(i, ansi)
            }
        },
        VtColor::Rgb(r, g, b) => Rgb { r, g, b },
    }
}

/// Every built-in theme is found again by its own name, in any ASCII case:
/// no two built-in names are equal ignoring case, so the name of theme `i`
/// resolves to `i`.
pub proof fn lemma_theme_names_resolve(i: int, j: int)
    requires
        0 <= i < THEME_COUNT,
        0 <= j < THEME_COUNT,
    ensures
        eq_ignore_ascii_case(theme_name_spec(i), theme_name_spec(j)) <==> i == j,
{
    reveal_strlit("Lavender");
    reveal_strlit("Amber Phosphor");
    reveal_strlit("Green Phosphor");
    if i != j {
        let a = theme_name_spec(i);
        let b = theme_name_spec(j);
        if a.len() == b.len() {
            assert(ascii_lower(a[0]) != ascii_lower(b[0]));
        }
    }
}

} // verus!
