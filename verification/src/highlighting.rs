use vstd::prelude::*;

verus! {

/// Classification of one grapheme cluster of a line, used to pick a display
/// color when the line is rendered.
#[derive(Clone, Copy, Debug, PartialEq, Eq, Structural)]
pub enum Type {
    Normal,
    Number,
    SearchMatch,
    String,
    Character,
    Comment,
    PrimaryKeyword,
    SecondaryKeyword,
}

impl Type {
    /// The true-color value a renderer uses for this classification.
    pub open spec fn spec_rgb(self) -> (u8, u8, u8) {
        match self {
            Type::Normal => (255u8, 255u8, 255u8),
            Type::Number => (220u8, 163u8, 163u8),
            Type::SearchMatch => (38u8, 139u8, 210u8),
            Type::String => (211u8, 54u8, 130u8),
            Type::Character => (108u8, 113u8, 196u8),
            Type::Comment => (133u8, 153u8, 0u8),
            Type::PrimaryKeyword => (181u8, 137u8, 0u8),
            Type::SecondaryKeyword => (42u8, 161u8, 152u8),
        }
    }

    /// The red, green and blue components of the color for this classification.
    pub fn rgb(self) -> (r: (u8, u8, u8))
        ensures
            r == self.spec_rgb(),
    {
        match self {
            Type::Normal => (255, 255, 255),
            Type::Number => (220, 163, 163),
            Type::SearchMatch => (38, 139, 210),
            Type::String => (211, 54, 130),
            Type::Character => (108, 113, 196),
            Type::Comment => (133, 153, 0),
            Type::PrimaryKeyword => (181, 137, 0),
            Type::SecondaryKeyword => (42, 161, 152),
        }
    }
}

} // verus!
