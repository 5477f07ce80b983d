//! Color themes: a `Theme` is a set of fully specified UI styles, and the built-in
//! ones are picked by name.
use vstd::prelude::*;
use vstd::string::StrSliceExecFns;

verus! {

/// An RGB color.
#[derive(Clone, Copy, PartialEq, Eq, Debug, Structural)]
pub struct Color {
    pub r: u8,
    pub g: u8,
    pub b: u8,
}

impl Color {
    #[verifier::allow_in_spec]
    pub fn rgb(r: u8, g: u8, b: u8) -> Self
        returns
            (Color { r, g, b }),
    {
        Self { r, g, b }
    }
}

/// Text modifiers, one bit each (bold is bit 0, italic bit 1); they add up.
#[derive(Clone, Copy, Debug, PartialEq, Eq, Structural)]
pub struct Modifier {
    pub bits: u8,
}

impl Modifier {
    /// No modifier.
    #[verifier::allow_in_spec]
    pub fn empty() -> Self
        returns
            (Modifier { bits: 0 }),
    {
        Modifier { bits: 0 }
    }

    #[verifier::allow_in_spec]
    pub fn bold() -> Self
        returns
            (Modifier { bits: 1 }),
    {
        Modifier { bits: 1 }
    }

    #[verifier::allow_in_spec]
    pub fn italic() -> Self
        returns
            (Modifier { bits: 2 }),
    {
        Modifier { bits: 2 }
    }

    /// Both sets of modifiers.
    pub fn union(self, other: Self) -> (m: Self)
        ensures
            m.bits == self.bits | other.bits,
    {
        Modifier { bits: self.bits | other.bits }
    }

    /// Whether every modifier of `other` is set here.
    pub fn contains(self, other: Self) -> (c: bool)
        ensures
            c == (self.bits & other.bits == other.bits),
    {
        self.bits & other.bits == other.bits
    }
}

impl Default for Modifier {
    fn default() -> (m: Self)
        ensures
            m == Modifier::empty(),
    {
        Modifier::empty()
    }
}

/// A styled attribute: an unset color (`None`) leaves the layer below untouched.
#[derive(Clone, Copy, PartialEq, Eq, Debug, Structural)]
pub struct Style {
    pub fg: Option<Color>,
    pub bg: Option<Color>,
    pub modifiers: Modifier,
}

impl Style {
    /// No colors and no modifiers.
    #[verifier::allow_in_spec]
    pub fn new() -> Self
        returns
            (Style { fg: None, bg: None, modifiers: Modifier::empty() }),
    {
        Self { fg: None, bg: None, modifiers: Modifier::empty() }
    }

    /// The same style on background `c`.
    #[verifier::allow_in_spec]
    pub fn bg(self, c: Color) -> Self
        returns
            (Style { bg: Some(c), ..self }),
    {
        let mut s = self;
        s.bg = Some(c);
        s
    }

    /// The same style in foreground `c`.
    #[verifier::allow_in_spec]
    pub fn fg(self, c: Color) -> Self
        returns
            (Style { fg: Some(c), ..self }),
    {
        let mut s = self;
        s.fg = Some(c);
        s
    }
}

impl Default for Style {
    fn default() -> (s: Self)
        ensures
            s == Style::new(),
    {
        Style::new()
    }
}

/// The UI colors the render pass reads. `cursor` is the block caret: its `bg` fills
/// the caret and its `fg` recolors the glyph under it.
#[derive(Clone, Debug)]
pub struct Theme {
    pub background: Style,
    pub text: Style,
    pub cursor: Style,
    pub selection: Style,
}

/// The built-in theme called `name`: `one-dark` (or `onedark`), `gruvbox`,
/// `catppuccin-mocha` (or `catppuccin_mocha`); no other name.
pub open spec fn theme_named(name: Seq<char>) -> Option<Theme> {
    if name == "one-dark"@ || name == "onedark"@ {
        Some(Theme::one_dark())
    } else if name == "gruvbox"@ {
        Some(Theme::gruvbox())
    } else if name == "catppuccin-mocha"@ || name == "catppuccin_mocha"@ {
        Some(Theme::catppuccin_mocha())
    } else {
        None
    }
}

/// Whether two strings hold the same chars.
pub(crate) fn same_text(a: &str, b: &str) -> (r: bool)
    ensures
        r == (a@ == b@),
{
    let n = a.unicode_len();
    if n != b.unicode_len() {
        return false;
    }
    let mut i: usize = 0;
    while i < n
        invariant
            n == a@.len() == b@.len(),
            i <= n,
            forall|k: int| 0 <= k < i ==> a@[k] == b@[k],
        decreases n - i,
    {
        if a.get_char(i) != b.get_char(i) {
            return false;
        }
        i = i + 1;
    }
    assert(a@ =~= b@);
    true
}

impl Theme {
    /// The built-in theme called `name`, or `None` for an unknown name (the caller
    /// falls back to the default).
    pub fn from_name(name: &str) -> (t: Option<Theme>)
        ensures
            t == theme_named(name@),
    {
        if same_text(name, "one-dark") || same_text(name, "onedark") {
            Some(Self::one_dark())
        } else if same_text(name, "gruvbox") {
            Some(Self::gruvbox())
        } else if same_text(name, "catppuccin-mocha") || same_text(name, "catppuccin_mocha") {
            Some(Self::catppuccin_mocha())
        } else {
            None
        }
    }

    /// One Dark.
    #[verifier::allow_in_spec]
    pub fn one_dark() -> Theme
        returns
            (Theme {
                background: Style::new().bg(Color::rgb(0x28, 0x2C, 0x34)),
                text: Style::new().fg(Color::rgb(0xAB, 0xB2, 0xBF)),
                cursor: Style::new().bg(Color::rgb(0xAB, 0xB2, 0xBF)).fg(Color::rgb(0x28, 0x2C, 0x34)),
                selection: Style::new().bg(Color::rgb(0x5C, 0x63, 0x70)),
            }),
    {
        Theme {
            background: Style::new().bg(Color::rgb(0x28, 0x2C, 0x34)),
            text: Style::new().fg(Color::rgb(0xAB, 0xB2, 0xBF)),
            cursor: Style::new().bg(Color::rgb(0xAB, 0xB2, 0xBF)).fg(Color::rgb(0x28, 0x2C, 0x34)),
            selection: Style::new().bg(Color::rgb(0x5C, 0x63, 0x70)),
        }
    }

    /// Gruvbox (dark, standard contrast).
    #[verifier::allow_in_spec]
    pub fn gruvbox() -> Theme
        returns
            (Theme {
                background: Style::new().bg(Color::rgb(0x28, 0x28, 0x28)),
                text: Style::new().fg(Color::rgb(0xEB, 0xDB, 0xB2)),
                cursor: Style::new().bg(Color::rgb(0xBD, 0xAE, 0x93)).fg(Color::rgb(0x3C, 0x38, 0x36)),
                selection: Style::new().bg(Color::rgb(0x66, 0x5C, 0x54)),
            }),
    {
        Theme {
            background: Style::new().bg(Color::rgb(0x28, 0x28, 0x28)),
            text: Style::new().fg(Color::rgb(0xEB, 0xDB, 0xB2)),
            cursor: Style::new().bg(Color::rgb(0xBD, 0xAE, 0x93)).fg(Color::rgb(0x3C, 0x38, 0x36)),
            selection: Style::new().bg(Color::rgb(0x66, 0x5C, 0x54)),
        }
    }

    /// Catppuccin Mocha.
    #[verifier::allow_in_spec]
    pub fn catppuccin_mocha() -> Theme
        returns
            (Theme {
                background: Style::new().bg(Color::rgb(0x1E, 0x1E, 0x2E)),
                text: Style::new().fg(Color::rgb(0xCD, 0xD6, 0xF4)),
                cursor: Style::new().bg(Color::rgb(0xF5, 0xE0, 0xDC)).fg(Color::rgb(0x1E, 0x1E, 0x2E)),
                selection: Style::new().bg(Color::rgb(0x45, 0x47, 0x5A)),
            }),
    {
        Theme {
            background: Style::new().bg(Color::rgb(0x1E, 0x1E, 0x2E)),
            text: Style::new().fg(Color::rgb(0xCD, 0xD6, 0xF4)),
            cursor: Style::new().bg(Color::rgb(0xF5, 0xE0, 0xDC)).fg(Color::rgb(0x1E, 0x1E, 0x2E)),
            selection: Style::new().bg(Color::rgb(0x45, 0x47, 0x5A)),
        }
    }
}

impl Default for Theme {
    /// One Dark.
    fn default() -> (t: Self)
        ensures
            t == Theme::one_dark(),
    {
        Self::one_dark()
    }
}

} // verus!
