//! The glyphs a board is drawn with.

use vstd::prelude::*;

verus! {

/// What a board cell shows at rest: one of the eight frame pieces of the
/// decorative border, or the resting glyph of an interior cell.
#[derive(Clone, Copy, Debug, PartialEq, Eq, Structural)]
pub enum ElementValue {
    Left,
    Right,
    Top,
    Bottom,
    TopLeft,
    TopRight,
    BottomLeft,
    BottomRight,
    Central,
}

impl ElementValue {
    /// The text of the glyph: a double-line box-drawing character for each
    /// frame piece, the digit zero for an interior cell.
    pub open spec fn glyph(self) -> Seq<char> {
        match self {
            ElementValue::Left => seq!['\u{2551}'],
            ElementValue::Right => seq!['\u{2551}'],
            ElementValue::Top => seq!['\u{2550}'],
            ElementValue::Bottom => seq!['\u{2550}'],
            ElementValue::TopLeft => seq!['\u{2554}'],
            ElementValue::TopRight => seq!['\u{2557}'],
            ElementValue::BottomLeft => seq!['\u{255A}'],
            ElementValue::BottomRight => seq!['\u{255D}'],
            ElementValue::Central => seq!['0'],
        }
    }

    /// The glyph as an owned string, ready to be handed to a text renderer.
    pub fn value(&self) -> (text: String)
        ensures
            text@ == self.glyph(),
    {
        proof {
            reveal_strlit("\u{2551}");
            reveal_strlit("\u{2550}");
            reveal_strlit("\u{2554}");
            reveal_strlit("\u{2557}");
            reveal_strlit("\u{255A}");
            reveal_strlit("\u{255D}");
            reveal_strlit("0");
        }
        let text = match self {
            ElementValue::Left => "\u{2551}",
            ElementValue::Right => "\u{2551}",
            ElementValue::Top => "\u{2550}",
            ElementValue::Bottom => "\u{2550}",
            ElementValue::TopLeft => "\u{2554}",
            ElementValue::TopRight => "\u{2557}",
            ElementValue::BottomLeft => "\u{255A}",
            ElementValue::BottomRight => "\u{255D}",
            ElementValue::Central => "0",
        };
        assert(text@ =~= self.glyph());
        text.to_owned()
    }
}

} // verus!
