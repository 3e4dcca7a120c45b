use vstd::prelude::*;
use crate::geometry::Coord;

verus! {

/// The size of a text could not be found.
#[derive(Debug, PartialEq, Eq, Structural, Clone, Copy)]
pub struct TextSizeError;

/// Something that finds the size that a text takes when it is drawn.
pub trait TextSizer {
    /// Whether `answer` is one that the sizer may give when it is asked
    /// for the size of `text` in the font family `font_family` at the size
    /// `font_size`. It need not be the only one: what a sizer finds may
    /// depend on the fonts of the machine.
    spec fn answers(
        &self,
        text: &str,
        font_family: &str,
        font_size: Coord,
        answer: Result<(Coord, Coord), TextSizeError>,
    ) -> bool;

    /// The width and the height of `text` on one line, in the font family
    /// `font_family` at the size `font_size`, in layout units.
    fn text_size(&self, text: &str, font_family: &str, font_size: Coord) -> (r: Result<
        (Coord, Coord),
        TextSizeError,
    >)
        ensures
            self.answers(text, font_family, font_size, r),
    ;
}

/// Whether `answer` is one that the sizer may give for a text that reads
/// `text`.
pub open spec fn may_answer<S: TextSizer>(
    sizer: &S,
    text: Seq<char>,
    font_family: &str,
    font_size: Coord,
    answer: Result<(Coord, Coord), TextSizeError>,
) -> bool {
    exists|asked: &str|
        asked@ == text && #[trigger] sizer.answers(asked, font_family, font_size, answer)
}

/// A sizer that finds no size.
#[derive(Debug, Clone, Copy)]
pub struct AlwaysFailTextSizer;

impl TextSizer for AlwaysFailTextSizer {
    open spec fn answers(
        &self,
        text: &str,
        font_family: &str,
        font_size: Coord,
        answer: Result<(Coord, Coord), TextSizeError>,
    ) -> bool {
        answer.is_err()
    }

    fn text_size(&self, text: &str, font_family: &str, font_size: Coord) -> (r: Result<
        (Coord, Coord),
        TextSizeError,
    >) {
        Err(TextSizeError)
    }
}

} // verus!
