//! Unicode line endings: the code points that motions treat as a line break.
use vstd::prelude::*;

verus! {

#[derive(Eq, PartialEq, Clone, Copy, Debug, Structural)]
pub enum LineEnding {
    /// Carriage return followed by line feed.
    Crlf,
    /// Line feed.
    LF,
    /// Vertical tab.
    VT,
    /// Form feed.
    FF,
    /// Carriage return.
    CR,
    /// Next line.
    Nel,
    /// Line separator.
    LS,
    /// Paragraph separator.
    PS,
}

impl LineEnding {
    /// The line ending that the single char `ch` is, if any. A `Crlf` is two chars
    /// and never comes out of one.
    #[verifier::allow_in_spec]
    pub fn from_char(ch: char) -> Option<LineEnding>
        returns
            (match ch {
                '\u{000A}' => Some(LineEnding::LF),
                '\u{000B}' => Some(LineEnding::VT),
                '\u{000C}' => Some(LineEnding::FF),
                '\u{000D}' => Some(LineEnding::CR),
                '\u{0085}' => Some(LineEnding::Nel),
                '\u{2028}' => Some(LineEnding::LS),
                '\u{2029}' => Some(LineEnding::PS),
                _ => None,
            }),
    {
        match ch {
            '\u{000A}' => Some(LineEnding::LF),
            '\u{000B}' => Some(LineEnding::VT),
            '\u{000C}' => Some(LineEnding::FF),
            '\u{000D}' => Some(LineEnding::CR),
            '\u{0085}' => Some(LineEnding::Nel),
            '\u{2028}' => Some(LineEnding::LS),
            '\u{2029}' => Some(LineEnding::PS),
            _ => None,
        }
    }
}

} // verus!
